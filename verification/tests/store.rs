use temprec::error::StoreError;
use temprec::measurement::Measurement;
use temprec::store::{Compaction, Sampler, SensorStore, StepOutcome};
use temprec::temperature::Temperature;
use temprec::timestamp::Timestamp;

fn ts(text: &str) -> Timestamp {
    Timestamp::parse(text).unwrap()
}

fn at(text: &str, v: i32) -> Measurement {
    Measurement::new(ts(text), Temperature::MiliCelcius(v))
}

const T0: &str = "2018-03-04T05:00:00Z";
const T1: &str = "2018-03-04T05:00:05Z";
const T2: &str = "2018-03-04T05:00:10Z";
const T3: &str = "2018-03-04T05:00:15Z";
const T4: &str = "2018-03-04T05:00:20Z";

fn store_with(times: &[&str]) -> SensorStore {
    let mut store = SensorStore::new("28-0000000aaaaa");
    for (i, t) in times.iter().enumerate() {
        store.push(at(t, 1000 * (i as i32 + 1)));
    }
    store
}

#[test]
fn new_store_is_empty() {
    let store = SensorStore::new("28-0000000aaaaa");
    assert_eq!(store.id(), "28-0000000aaaaa");
    assert_eq!(store.len(), 0);
    assert_eq!(store.as_csv(), "");
    assert_eq!(store.get(0), None);
}

#[test]
fn dump_renders_every_measurement_in_order() {
    let store = store_with(&[T1, T2, T3]);
    assert_eq!(store.len(), 3);
    assert_eq!(
        store.as_csv(),
        "2018-03-04T05:00:05Z,1000\n2018-03-04T05:00:10Z,2000\n2018-03-04T05:00:15Z,3000\n"
    );
    assert_eq!(store.get(1), Some(&at(T2, 2000)));
}

#[test]
fn dump_after_push_extends_the_dump() {
    let mut store = store_with(&[T1, T2]);
    let before = store.as_csv();
    let m = at(T3, 3000);
    let line = m.as_csv_line();
    store.push(m);
    assert_eq!(store.as_csv(), before + &line);
}

#[test]
fn dump_from_leaves_out_the_earliest_qualifying() {
    let store = store_with(&[T1, T2, T3, T4]);
    assert_eq!(
        store.as_csv_from(&ts(T0)),
        "2018-03-04T05:00:10Z,2000\n2018-03-04T05:00:15Z,3000\n2018-03-04T05:00:20Z,4000\n"
    );
}

#[test]
fn dump_from_is_strict_about_the_cutoff() {
    let store = store_with(&[T1, T2, T3, T4]);
    assert_eq!(
        store.as_csv_from(&ts(T1)),
        "2018-03-04T05:00:15Z,3000\n2018-03-04T05:00:20Z,4000\n"
    );
    assert_eq!(store.as_csv_from(&ts(T3)), "");
    assert_eq!(store.as_csv_from(&ts(T4)), "");
    assert_eq!(SensorStore::new("x").as_csv_from(&ts(T0)), "");
}

#[test]
fn dump_from_selects_by_time_whatever_the_order() {
    let store = store_with(&[T3, T1, T4, T0, T2]);
    assert_eq!(
        store.as_csv_from(&ts(T1)),
        "2018-03-04T05:00:20Z,3000\n2018-03-04T05:00:10Z,5000\n"
    );
}

#[test]
fn remove_deletes_the_matching_measurement() {
    let mut store = store_with(&[T1, T2, T3]);
    assert_eq!(store.remove(&ts(T2)), 1);
    assert_eq!(store.len(), 2);
    let dump = store.as_csv();
    assert_eq!(dump, "2018-03-04T05:00:05Z,1000\n2018-03-04T05:00:15Z,3000\n");
    assert!(!dump.contains(T2));
    assert_eq!(dump.lines().count(), store.len());
}

#[test]
fn remove_deletes_every_measurement_of_that_time() {
    let mut store = store_with(&[T1, T2, T1, T3, T1]);
    assert_eq!(store.remove(&ts(T1)), 3);
    assert_eq!(store.as_csv(), "2018-03-04T05:00:10Z,2000\n2018-03-04T05:00:15Z,4000\n");
}

#[test]
fn remove_of_an_absent_time_changes_nothing() {
    let mut store = store_with(&[T1, T2]);
    let before = store.as_csv();
    assert_eq!(store.remove(&ts(T4)), 0);
    assert_eq!(store.as_csv(), before);
}

#[test]
fn without_leaves_the_store_as_it_is() {
    let store = store_with(&[T1, T2, T3]);
    let kept = store.without(&ts(T1));
    assert_eq!(kept, vec![at(T2, 2000), at(T3, 3000)]);
    assert_eq!(store.len(), 3);
}

#[test]
fn replace_installs_a_series() {
    let mut store = store_with(&[T1, T2, T3]);
    store.replace(vec![at(T4, 7)]);
    assert_eq!(store.as_csv(), "2018-03-04T05:00:20Z,7\n");
    assert_eq!(store.id(), "28-0000000aaaaa");
}

#[test]
fn restore_installs_what_the_log_yields() {
    let mut store = SensorStore::new("28-0000000aaaaa");
    let log = "2018-03-04T05:00:05Z,1000\ngarbage-line\n2018-03-04T05:00:10Z,boom\n";
    let recovery = store.restore(Some(log));
    assert!(recovery.restored);
    assert_eq!(recovery.skipped.len(), 1);
    assert_eq!(recovery.skipped[0].line, 2);
    assert_eq!(recovery.skipped[0].message(), "skip invalid line \"garbage-line\"");
    assert_eq!(store.as_csv(), "2018-03-04T05:00:05Z,1000\n2018-03-04T05:00:10Z,boom\n");
}

#[test]
fn restore_without_data_changes_nothing() {
    let mut store = store_with(&[T1]);
    assert!(!store.restore(None).restored);
    assert!(store.restore(None).skipped.is_empty());
    assert!(!store.restore(Some("")).restored);
    let recovery = store.restore(Some("garbage-line\n"));
    assert!(!recovery.restored);
    assert_eq!(recovery.skipped.len(), 1);
    assert_eq!(store.as_csv(), "2018-03-04T05:00:05Z,1000\n");
}

#[test]
fn log_files_are_named_after_the_sensor() {
    let store = SensorStore::new("28-0000000aaaaa");
    assert_eq!(store.log_filename(), "28-0000000aaaaa.csv");
    assert_eq!(store.backup_filename(), "28-0000000aaaaa.csv.bak");
}

#[test]
fn sampler_records_the_first_reading() {
    let mut sampler = Sampler::new();
    let m = sampler.observe(Temperature::MiliCelcius(20_000), ts(T1));
    assert_eq!(m, Some(at(T1, 20_000)));
}

#[test]
fn sampler_passes_over_noise() {
    let mut sampler = Sampler::new();
    assert!(sampler.observe(Temperature::MiliCelcius(20_000), ts(T1)).is_some());
    assert_eq!(sampler.observe(Temperature::MiliCelcius(20_200), ts(T2)), None);
    assert_eq!(sampler.observe(Temperature::MiliCelcius(19_800), ts(T3)), None);
    assert_eq!(sampler.observe(Temperature::MiliCelcius(20_201), ts(T4)), Some(at(T4, 20_201)));
}

#[test]
fn sampler_compares_with_the_last_recorded_reading() {
    let mut sampler = Sampler::new();
    assert!(sampler.observe(Temperature::MiliCelcius(20_000), ts(T1)).is_some());
    assert_eq!(sampler.observe(Temperature::MiliCelcius(20_150), ts(T2)), None);
    assert_eq!(sampler.observe(Temperature::MiliCelcius(20_300), ts(T3)), Some(at(T3, 20_300)));
    assert_eq!(sampler.observe(Temperature::MiliCelcius(20_150), ts(T4)), None);
}

#[test]
fn sampler_records_errors_as_data() {
    let mut sampler = Sampler::new();
    let boom = Temperature::Error("boom".to_owned());
    assert!(sampler.observe(Temperature::MiliCelcius(20_000), ts(T1)).is_some());
    assert_eq!(
        sampler.observe(boom.clone(), ts(T2)),
        Some(Measurement::new(ts(T2), boom.clone()))
    );
    assert_eq!(sampler.observe(boom.clone(), ts(T3)), None);
    assert_eq!(sampler.observe(Temperature::MiliCelcius(20_000), ts(T4)), Some(at(T4, 20_000)));
}

#[test]
fn sampler_does_not_record_a_missing_reading_at_start() {
    let mut sampler = Sampler::new();
    assert_eq!(sampler.observe(Temperature::Invalid, ts(T1)), None);
}

#[test]
fn compaction_backs_up_before_it_rewrites() {
    let state = Compaction::start();
    assert_eq!(state, Compaction::Backup);
    assert_eq!(state.outcome(), None);
    let state = state.next(StepOutcome::Succeeded);
    assert_eq!(state, Compaction::Rewrite);
    assert_eq!(state.outcome(), None);
    let state = state.next(StepOutcome::Succeeded);
    assert_eq!(state, Compaction::Done);
    assert_eq!(state.outcome(), Some(Ok(())));
}

#[test]
fn compaction_needs_no_backup_of_a_missing_log() {
    let state = Compaction::start().next(StepOutcome::Missing);
    assert_eq!(state, Compaction::Rewrite);
}

#[test]
fn compaction_failure_is_reported() {
    let failed = Compaction::start().next(StepOutcome::Failed);
    assert_eq!(failed, Compaction::Failed);
    assert_eq!(failed.outcome(), Some(Err(StoreError::PersistCompact)));
    assert_eq!(failed.next(StepOutcome::Succeeded), Compaction::Failed);
    let failed = Compaction::start().next(StepOutcome::Succeeded).next(StepOutcome::Failed);
    assert_eq!(failed.outcome(), Some(Err(StoreError::PersistCompact)));
    let failed = Compaction::start().next(StepOutcome::Succeeded).next(StepOutcome::Missing);
    assert_eq!(failed, Compaction::Failed);
    assert_eq!(Compaction::Done.next(StepOutcome::Failed), Compaction::Done);
}

#[test]
fn store_errors_have_messages() {
    assert_eq!(StoreError::TimeParse.message(), "Couldn't parse time");
    assert_eq!(StoreError::NotFound.message(), "No such sensor");
    assert_eq!(StoreError::PersistAppend.message(), "Couldn't write sensor measurement");
    assert_eq!(StoreError::PersistCompact.message(), "Couldn't rewrite sensor log");
}
