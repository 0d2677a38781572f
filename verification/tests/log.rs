use std::io::BufRead;
use temprec::log::{as_csv, replay, replay_report};
use temprec::measurement::{LineError, Measurement};
use temprec::store::SensorStore;
use temprec::temperature::Temperature;
use temprec::timestamp::Timestamp;

fn at(text: &str, temp: Temperature) -> Measurement {
    Measurement::new(Timestamp::parse(text).unwrap(), temp)
}

fn sample() -> Vec<Measurement> {
    vec![
        at("2018-03-04T05:06:07Z", Temperature::MiliCelcius(23125)),
        at("2018-03-04T05:06:12Z", Temperature::Error("crc failed line=\"a, b\"".to_owned())),
        at("2018-03-04T05:06:17Z", Temperature::MiliCelcius(-1250)),
        at("2018-03-04T05:06:22Z", Temperature::Error(String::new())),
        at("2018-03-04T05:06:27Z", Temperature::MiliCelcius(i32::MIN)),
    ]
}

#[test]
fn replay_of_an_empty_log_is_empty() {
    assert_eq!(replay(""), Vec::<Measurement>::new());
    assert_eq!(as_csv(&Vec::new()), "");
}

#[test]
fn appended_measurements_replay_in_order() {
    let series = sample();
    let mut log = String::new();
    for m in &series {
        log.push_str(&m.as_csv_line());
    }
    assert_eq!(log, as_csv(&series));
    assert_eq!(replay(&log), series);
    assert_eq!(log.lines().count(), series.len());
}

#[test]
fn replay_skips_malformed_lines() {
    let series = sample();
    let mut log = String::new();
    log.push_str("garbage-line\n");
    for m in &series {
        log.push_str(&m.as_csv_line());
        log.push_str("garbage-line\n");
    }
    assert_eq!(replay(&log), series);
}

#[test]
fn replay_skips_every_kind_of_malformed_line() {
    let log = "garbage-line\n\
               yesterday,23125\n\
               2018-03-04T05:06:07Z,99999999999\n\
               2018-03-04T05:06:07Z,invalid\n\
               \n\
               2018-03-04T05:06:07Z,23125\n";
    assert_eq!(
        replay(log),
        vec![at("2018-03-04T05:06:07Z", Temperature::MiliCelcius(23125))]
    );
}

#[test]
fn replay_takes_a_last_line_without_line_feed() {
    let log = "2018-03-04T05:06:07Z,1\n2018-03-04T05:06:12Z,2";
    assert_eq!(
        replay(log),
        vec![
            at("2018-03-04T05:06:07Z", Temperature::MiliCelcius(1)),
            at("2018-03-04T05:06:12Z", Temperature::MiliCelcius(2)),
        ]
    );
}

#[test]
fn replay_takes_carriage_returns_as_part_of_the_line_end() {
    let log = "2018-03-04T05:06:07Z,1\r\n2018-03-04T05:06:12Z,oops\r\n";
    assert_eq!(
        replay(log),
        vec![
            at("2018-03-04T05:06:07Z", Temperature::MiliCelcius(1)),
            at("2018-03-04T05:06:12Z", Temperature::Error("oops".to_owned())),
        ]
    );
    let unterminated = "2018-03-04T05:06:12Z,oops\r";
    assert_eq!(
        replay(unterminated),
        vec![at("2018-03-04T05:06:12Z", Temperature::Error("oops\r".to_owned()))]
    );
}

#[test]
fn replay_splits_lines_as_the_standard_reader_does() {
    let log = "a\n\nb\r\n\r\r\nc\rd\n2018-03-04T05:06:07Z,x\r";
    let lines: Vec<String> = std::io::Cursor::new(log).lines().map(|l| l.unwrap()).collect();
    let expected: Vec<Measurement> =
        lines.iter().filter_map(|l| Measurement::parse(l).ok()).collect();
    assert_eq!(expected.len(), 1);
    assert_eq!(replay(log), expected);
}

#[test]
fn read_from_file_tells_a_missing_log_from_an_empty_one() {
    assert_eq!(SensorStore::read_from_file(None), None);
    assert_eq!(SensorStore::read_from_file(Some("")), Some(Vec::new()));
    assert_eq!(
        SensorStore::read_from_file(Some("2018-03-04T05:06:07Z,1\n")),
        Some(vec![at("2018-03-04T05:06:07Z", Temperature::MiliCelcius(1))])
    );
}

#[test]
fn replay_report_warns_of_each_skipped_line() {
    let log = "garbage-line\n\
               2018-03-04T05:06:07Z,23125\n\
               yesterday,23125\r\n\
               2018-03-04T05:06:07Z,99999999999\n\
               2018-03-04T05:06:07Z,invalid\n\
               \n\
               2018-03-04T05:06:12Z,boom";
    let report = replay_report(log);
    assert_eq!(report.series, replay(log));
    assert_eq!(report.series.len(), 2);
    let faults: Vec<(usize, LineError)> =
        report.skipped.iter().map(|s| (s.line, s.fault)).collect();
    assert_eq!(
        faults,
        vec![
            (1, LineError::FieldCount),
            (3, LineError::Time),
            (4, LineError::Number),
            (5, LineError::Missing),
            (6, LineError::FieldCount),
        ]
    );
    let messages: Vec<String> = report.skipped.iter().map(|s| s.message()).collect();
    assert_eq!(
        messages,
        vec![
            "skip invalid line \"garbage-line\"",
            "skip line with invalid time line=\"yesterday,23125\"",
            "skip line with invalid number line=\"2018-03-04T05:06:07Z,99999999999\"",
            "skip line without reading line=\"2018-03-04T05:06:07Z,invalid\"",
            "skip invalid line \"\"",
        ]
    );
    assert_eq!(report.series.len() + report.skipped.len(), log.lines().count());
}

#[test]
fn replay_report_of_a_clean_log_warns_of_nothing() {
    let log = as_csv(&sample());
    let report = replay_report(&log);
    assert_eq!(report.series, sample());
    assert!(report.skipped.is_empty());
}
