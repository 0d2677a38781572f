//! The store of one sensor: its series of measurements in the order in
//! which they were appended, the queries on it, removal, and the sampler
//! that decides which readings enter it.

use crate::error::StoreError;
use crate::log::{
    as_csv, csv_text, lemma_csv_text_push, records, replay, replay_report, replay_text, skipped_of,
    skipped_views, Skipped, SkippedLine,
};
use crate::measurement::{Measurement, Record};
use crate::temperature::{changed, Reading, Temperature};
use crate::timestamp::{CivilTime, Timestamp};
use vstd::prelude::*;
use vstd::string::StringExecFns;

verus! {

/// What is appended to a sensor's id to name its log.
pub const LOG_SUFFIX: &'static str = ".csv";

/// What is appended to the name of a log to name its backup.
pub const BACKUP_SUFFIX: &'static str = ".bak";

/// The records taken strictly after `cutoff`.
pub open spec fn taken_after(cutoff: CivilTime) -> spec_fn(Record) -> bool {
    |record: Record| record.time.is_after(cutoff)
}

/// The records not taken at `at`.
pub open spec fn not_taken_at(at: CivilTime) -> spec_fn(Record) -> bool {
    |record: Record| record.time != at
}

/// What a query from `cutoff` on selects: the records taken strictly after
/// `cutoff`, in the order of the series, without the first of them.
pub open spec fn selected_from(series: Seq<Record>, cutoff: CivilTime) -> Seq<Record> {
    let qualifying = series.filter(taken_after(cutoff));
    if qualifying.len() == 0 {
        qualifying
    } else {
        qualifying.skip(1)
    }
}

/// The series without the records taken at `at`, the others in their
/// order.
pub open spec fn without(series: Seq<Record>, at: CivilTime) -> Seq<Record> {
    series.filter(not_taken_at(at))
}

/// The name of the log of sensor `id`.
pub open spec fn log_name(id: Seq<char>) -> Seq<char> {
    id + LOG_SUFFIX@
}

/// A filter goes over the last record of a series by keeping it or not.
pub proof fn lemma_filter_push(series: Seq<Record>, record: Record, keep: spec_fn(Record) -> bool)
    ensures
        series.push(record).filter(keep) == if keep(record) {
            series.filter(keep).push(record)
        } else {
            series.filter(keep)
        },
{
    reveal(Seq::filter);
    assert(series.push(record).drop_last() =~= series);
}

/// A filter that every record passes keeps the series as it is.
pub proof fn lemma_filter_all(series: Seq<Record>, keep: spec_fn(Record) -> bool)
    requires
        forall|i: int| 0 <= i < series.len() ==> keep(#[trigger] series[i]),
    ensures
        series.filter(keep) == series,
    decreases series.len(),
{
    reveal(Seq::filter);
    if series.len() > 0 {
        lemma_filter_all(series.drop_last(), keep);
    }
}

/// Where every record of a series was taken after the cutoff, a query from
/// the cutoff on yields all of them but the first.
pub proof fn lemma_selected_from_all_after(series: Seq<Record>, cutoff: CivilTime)
    requires
        series.len() > 0,
        forall|i: int| 0 <= i < series.len() ==> (#[trigger] series[i]).time.is_after(cutoff),
    ensures
        selected_from(series, cutoff) == series.skip(1),
{
    lemma_filter_all(series, taken_after(cutoff));
}

/// Whether no record of the series was taken before one that stands before
/// it: the order in which a clock that never goes back fills a series.
pub open spec fn in_time_order(series: Seq<Record>) -> bool {
    forall|i: int, j: int|
        0 <= i < j < series.len() ==> !(#[trigger] series[i]).time.is_after(
            (#[trigger] series[j]).time,
        )
}

/// In a series in time order the records taken after a cutoff are its last
/// ones: a query from the cutoff on yields the run at the end of the series
/// that was taken after the cutoff, without the first record of that run,
/// and no record of the run was taken before the one that is left out.
pub proof fn lemma_qualifying_is_the_end(series: Seq<Record>, cutoff: CivilTime) -> (k: int)
    requires
        in_time_order(series),
    ensures
        0 <= k <= series.len(),
        series.filter(taken_after(cutoff)) == series.skip(k),
        selected_from(series, cutoff) == if k < series.len() {
            series.skip(k + 1)
        } else {
            Seq::<Record>::empty()
        },
        forall|i: int| 0 <= i < k ==> !(#[trigger] series[i]).time.is_after(cutoff),
        forall|i: int| k <= i < series.len() ==> (#[trigger] series[i]).time.is_after(cutoff),
        forall|i: int| k < i < series.len() ==> !series[k].time.is_after((#[trigger] series[i]).time),
    decreases series.len(),
{
    reveal(Seq::filter);
    let keep = taken_after(cutoff);
    if series.len() == 0 {
        assert(series.filter(keep) =~= series.skip(0));
        0
    } else {
        let front = series.drop_last();
        let last = series.last();
        assert forall|i: int, j: int| 0 <= i < j < front.len() implies !(#[trigger] front[i]).time.is_after(
            (#[trigger] front[j]).time,
        ) by {
            assert(front[i] == series[i] && front[j] == series[j]);
        }
        let k = lemma_qualifying_is_the_end(front, cutoff);
        if last.time.is_after(cutoff) {
            assert(front.skip(k).push(last) =~= series.skip(k));
            assert forall|i: int| 0 <= i < k implies !(#[trigger] series[i]).time.is_after(
                cutoff,
            ) by {
                assert(series[i] == front[i]);
            }
            assert forall|i: int| k <= i < series.len() implies (#[trigger] series[i]).time.is_after(
                cutoff,
            ) by {
                if i < front.len() {
                    assert(series[i] == front[i]);
                }
            }
            k
        } else {
            if k < front.len() {
                assert(front[k].time.is_after(cutoff));
                assert(!series[k].time.is_after(series[series.len() - 1].time));
                assert(series[k] == front[k]);
            }
            assert(front.skip(k) =~= series.skip(series.len() as int));
            assert forall|i: int| 0 <= i < series.len() implies !(#[trigger] series[i]).time.is_after(
                cutoff,
            ) by {
                if i < front.len() {
                    assert(series[i] == front[i]);
                }
            }
            series.len() as int
        }
    }
}

/// After a removal no record taken at that time is left, every record that
/// is left was there before, and none was added.
pub proof fn lemma_without(series: Seq<Record>, at: CivilTime)
    ensures
        forall|i: int|
            0 <= i < without(series, at).len() ==> (#[trigger] without(series, at)[i]).time != at,
        forall|i: int|
            0 <= i < without(series, at).len() ==> series.contains(
                #[trigger] without(series, at)[i],
            ),
        forall|i: int|
            0 <= i < series.len() && series[i].time != at ==> without(series, at).contains(
                #[trigger] series[i],
            ),
        without(series, at).len() <= series.len(),
    decreases series.len(),
{
    reveal(Seq::filter);
    if series.len() > 0 {
        let front = series.drop_last();
        lemma_without(front, at);
        let kept = without(series, at);
        assert forall|i: int| 0 <= i < kept.len() implies series.contains(#[trigger] kept[i]) by {
            if i < without(front, at).len() {
                let j = choose|j: int| 0 <= j < front.len() && front[j] == without(front, at)[i];
                assert(series[j] == kept[i]);
            } else {
                assert(series[series.len() - 1] == kept[i]);
            }
        }
        assert forall|i: int| 0 <= i < series.len() && series[i].time != at implies kept.contains(
            #[trigger] series[i],
        ) by {
            if i < front.len() {
                assert(front[i] == series[i]);
                let j = choose|j: int|
                    0 <= j < without(front, at).len() && without(front, at)[j] == front[i];
                assert(kept[j] == series[i]);
            } else {
                assert(kept[kept.len() - 1] == series[i]);
            }
        }
    }
}

/// Removing the one record taken at `at` leaves one record less.
pub proof fn lemma_without_one(series: Seq<Record>, at: CivilTime, k: int)
    requires
        0 <= k < series.len(),
        forall|i: int| 0 <= i < series.len() ==> ((#[trigger] series[i]).time == at <==> i == k),
    ensures
        without(series, at) == series.remove(k),
    decreases series.len(),
{
    reveal(Seq::filter);
    let keep = not_taken_at(at);
    let front = series.drop_last();
    if k == series.len() - 1 {
        assert forall|i: int| 0 <= i < front.len() implies keep(#[trigger] front[i]) by {
            assert(front[i] == series[i]);
        }
        lemma_filter_all(front, keep);
        assert(series.remove(k) =~= front);
    } else {
        assert forall|i: int| 0 <= i < front.len() implies ((#[trigger] front[i]).time == at <==> i
            == k) by {
            assert(front[i] == series[i]);
        }
        lemma_without_one(front, at, k);
        assert(series.remove(k) =~= front.remove(k).push(series.last()));
    }
}

/// What taking up the log at start came to.
#[derive(Debug)]
pub struct Recovery {
    /// Whether the series was taken from the log.
    pub restored: bool,
    /// The lines of the log that stand for no measurement.
    pub skipped: Vec<Skipped>,
}

/// One sensor's series of measurements, in the order in which they were
/// appended.
pub struct SensorStore {
    id: String,
    data: Vec<Measurement>,
}

impl SensorStore {
    /// The id of the sensor.
    pub closed spec fn spec_id(&self) -> Seq<char> {
        self.id@
    }

    /// The series, oldest entry first.
    pub closed spec fn series(&self) -> Seq<Record> {
        records(self.data@)
    }

    /// The store of sensor `id`, with nothing in it yet.
    pub fn new(id: &str) -> (store: SensorStore)
        ensures
            store.spec_id() == id@,
            store.series() == Seq::<Record>::empty(),
    {
        SensorStore { id: id.to_owned(), data: Vec::new() }
    }

    /// The id of the sensor.
    pub fn id(&self) -> (id: &String)
        ensures
            id@ == self.spec_id(),
    {
        &self.id
    }

    /// The number of measurements in the series.
    pub fn len(&self) -> (n: usize)
        ensures
            n == self.series().len(),
    {
        self.data.len()
    }

    /// The measurement at position `i` of the series.
    pub fn get(&self, i: usize) -> (m: Option<&Measurement>)
        ensures
            match m {
                Some(found) => i < self.series().len() && found@ == self.series()[i as int],
                None => i >= self.series().len(),
            },
    {
        if i < self.data.len() {
            Some(&self.data[i])
        } else {
            None
        }
    }

    /// What reading the log back yields: `None` where the log could not be
    /// read at all, else every line that stands for a measurement.
    pub fn read_from_file(contents: Option<&str>) -> (r: Option<Vec<Measurement>>)
        ensures
            match contents {
                Some(text) => r is Some && records(r.unwrap()@) == replay_text(text@),
                None => r is None,
            },
    {
        match contents {
            Some(text) => Some(replay(text)),
            None => None,
        }
    }

    /// Takes up what the log holds, at start: where the log could be read
    /// and yields at least one measurement, that becomes the series.
    /// Tells whether it did, and which lines of the log were passed over.
    pub fn restore(&mut self, contents: Option<&str>) -> (recovery: Recovery)
        ensures
            final(self).spec_id() == old(self).spec_id(),
            recovery.restored == (contents matches Some(text) && replay_text(text@).len() > 0),
            final(self).series() == if recovery.restored {
                replay_text(contents.unwrap()@)
            } else {
                old(self).series()
            },
            skipped_views(recovery.skipped@) == match contents {
                Some(text) => skipped_of(text@),
                None => Seq::<SkippedLine>::empty(),
            },
    {
        match contents {
            Some(text) => {
                let report = replay_report(text);
                let restored = report.series.len() > 0;
                if restored {
                    self.data = report.series;
                }
                Recovery { restored, skipped: report.skipped }
            },
            None => Recovery { restored: false, skipped: Vec::new() },
        }
    }

    /// Appends a measurement to the series.
    pub fn push(&mut self, m: Measurement)
        ensures
            final(self).spec_id() == old(self).spec_id(),
            final(self).series() == old(self).series().push(m@),
    {
        self.data.push(m);
    }

    /// Puts `series` in the place of the series.
    pub fn replace(&mut self, series: Vec<Measurement>)
        ensures
            final(self).spec_id() == old(self).spec_id(),
            final(self).series() == records(series@),
    {
        self.data = series;
    }

    /// Every measurement as one line, in the order of the series.
    pub fn as_csv(&self) -> (text: String)
        ensures
            text@ == csv_text(self.series()),
    {
        as_csv(&self.data)
    }

    /// The measurements taken strictly after `from` as one line each, in
    /// the order of the series, without the first of them.
    pub fn as_csv_from(&self, from: &Timestamp) -> (text: String)
        ensures
            text@ == csv_text(selected_from(self.series(), from@)),
    {
        let ghost all = self.series();
        let ghost keep = taken_after(from@);
        let mut text = String::new();
        let mut seen = false;
        let mut i: usize = 0;
        assert(all.take(0).filter(keep) =~= Seq::<Record>::empty()) by {
            reveal(Seq::filter);
        }
        while i < self.data.len()
            invariant
                i <= self.data.len(),
                all == records(self.data@),
                keep == taken_after(from@),
                seen == (all.take(i as int).filter(keep).len() > 0),
                text@ == csv_text(selected_from(all.take(i as int), from@)),
            decreases self.data.len() - i,
        {
            let m = &self.data[i];
            let ghost before = all.take(i as int).filter(keep);
            proof {
                assert(all.take(i + 1) =~= all.take(i as int).push(m@));
                lemma_filter_push(all.take(i as int), m@, keep);
            }
            if m.time().is_after(from) {
                if seen {
                    m.push_csv_line(&mut text);
                    proof {
                        assert(before.push(m@).skip(1) =~= before.skip(1).push(m@));
                        lemma_csv_text_push(before.skip(1), m@);
                    }
                } else {
                    seen = true;
                }
            }
            i += 1;
        }
        assert(all.take(self.data.len() as int) =~= all);
        text
    }

    /// The series without the measurements taken at `at`.
    pub fn without(&self, at: &Timestamp) -> (kept: Vec<Measurement>)
        ensures
            records(kept@) == without(self.series(), at@),
    {
        let ghost all = self.series();
        let ghost keep = not_taken_at(at@);
        let mut kept: Vec<Measurement> = Vec::new();
        let mut i: usize = 0;
        assert(records(kept@) =~= all.take(0).filter(keep)) by {
            reveal(Seq::filter);
        }
        while i < self.data.len()
            invariant
                i <= self.data.len(),
                all == records(self.data@),
                keep == not_taken_at(at@),
                records(kept@) == all.take(i as int).filter(keep),
            decreases self.data.len() - i,
        {
            let m = &self.data[i];
            proof {
                assert(all.take(i + 1) =~= all.take(i as int).push(m@));
                lemma_filter_push(all.take(i as int), m@, keep);
            }
            if !m.time().same_as(at) {
                kept.push(m.clone());
            }
            i += 1;
        }
        assert(all.take(self.data.len() as int) =~= all);
        kept
    }

    /// Removes every measurement taken at `at` and returns how many there
    /// were; the others stay in their order.
    pub fn remove(&mut self, at: &Timestamp) -> (removed: usize)
        ensures
            final(self).spec_id() == old(self).spec_id(),
            final(self).series() == without(old(self).series(), at@),
            removed == old(self).series().len() - final(self).series().len(),
            forall|i: int|
                0 <= i < final(self).series().len() ==> (#[trigger] final(self).series()[i]).time
                    != at@,
    {
        let kept = self.without(at);
        proof {
            lemma_without(self.series(), at@);
        }
        let removed = self.data.len() - kept.len();
        self.data = kept;
        removed
    }

    /// The name of the file that holds this sensor's log.
    pub fn log_filename(&self) -> (name: String)
        ensures
            name@ == log_name(self.spec_id()),
    {
        let mut name = self.id.clone();
        name.append(LOG_SUFFIX);
        name
    }

    /// The name of the file that the log is moved to before it is
    /// rewritten.
    pub fn backup_filename(&self) -> (name: String)
        ensures
            name@ == log_name(self.spec_id()) + BACKUP_SUFFIX@,
    {
        let mut name = self.log_filename();
        name.append(BACKUP_SUFFIX);
        name
    }
}

/// The sampler of one sensor: it remembers the last reading that was
/// recorded.
pub struct Sampler {
    last: Temperature,
}

impl Sampler {
    /// The last reading that was recorded; missing before the first.
    pub closed spec fn last(&self) -> Reading {
        self.last@
    }

    /// A sampler that has recorded nothing yet.
    pub fn new() -> (sampler: Sampler)
        ensures
            sampler.last() == Reading::Invalid,
    {
        Sampler { last: Temperature::Invalid }
    }

    /// Takes the reading obtained at `now`. Where it differs materially from
    /// the last recorded one, it becomes the last recorded one and the
    /// measurement to record comes back; else nothing changes and nothing
    /// comes back.
    pub fn observe(&mut self, reading: Temperature, now: Timestamp) -> (recorded: Option<
        Measurement,
    >)
        ensures
            match recorded {
                Some(m) => changed(reading@, old(self).last()) && m@ == (Record {
                    time: now@,
                    temp: reading@,
                }) && final(self).last() == reading@,
                None => !changed(reading@, old(self).last()) && final(self).last() == old(
                    self,
                ).last(),
            },
    {
        if reading.has_changed(&self.last) {
            let m = Measurement::new(now, reading.clone());
            self.last = reading;
            Some(m)
        } else {
            None
        }
    }
}

/// How a step of a compaction ended.
#[derive(Clone, Copy, Debug, PartialEq, Eq, Structural)]
pub enum StepOutcome {
    /// The step was carried out.
    Succeeded,
    /// There was no log to work on.
    Missing,
    /// The step failed.
    Failed,
}

/// Where the compaction of a log stands. The log is first moved to its
/// backup and only then written anew, so that the old content is never lost.
#[derive(Clone, Copy, Debug, PartialEq, Eq, Structural)]
pub enum Compaction {
    /// Next the log is to be moved to its backup.
    Backup,
    /// Next the log is to be written anew from the series.
    Rewrite,
    /// The log holds the series.
    Done,
    /// A step failed; the caller is told so.
    Failed,
}

/// Where a compaction stands after a step that ended with `outcome`. A log
/// that is not there yet needs no backup; anything else but success fails
/// the compaction, and a compaction that has ended stays as it is.
pub open spec fn compaction_after(state: Compaction, outcome: StepOutcome) -> Compaction {
    match (state, outcome) {
        (Compaction::Backup, StepOutcome::Succeeded) => Compaction::Rewrite,
        (Compaction::Backup, StepOutcome::Missing) => Compaction::Rewrite,
        (Compaction::Rewrite, StepOutcome::Succeeded) => Compaction::Done,
        (Compaction::Done, _) => Compaction::Done,
        _ => Compaction::Failed,
    }
}

impl Compaction {
    /// A compaction that has not begun.
    pub fn start() -> (state: Compaction)
        ensures
            state == Compaction::Backup,
    {
        Compaction::Backup
    }

    /// Where the compaction stands after a step that ended with `outcome`.
    pub fn next(self, outcome: StepOutcome) -> (state: Compaction)
        ensures
            state == compaction_after(self, outcome),
    {
        match (self, outcome) {
            (Compaction::Backup, StepOutcome::Succeeded) => Compaction::Rewrite,
            (Compaction::Backup, StepOutcome::Missing) => Compaction::Rewrite,
            (Compaction::Rewrite, StepOutcome::Succeeded) => Compaction::Done,
            (Compaction::Done, _) => Compaction::Done,
            _ => Compaction::Failed,
        }
    }

    /// What the caller of a removal is told: nothing while steps are left,
    /// then success or the failure to rewrite the log.
    pub fn outcome(self) -> (r: Option<Result<(), StoreError>>)
        ensures
            r == match self {
                Compaction::Backup => None::<Result<(), StoreError>>,
                Compaction::Rewrite => None,
                Compaction::Done => Some(Ok(())),
                Compaction::Failed => Some(Err(StoreError::PersistCompact)),
            },
    {
        match self {
            Compaction::Backup => None,
            Compaction::Rewrite => None,
            Compaction::Done => Some(Ok(())),
            Compaction::Failed => Some(Err(StoreError::PersistCompact)),
        }
    }
}

/// A compaction ends well only if the log was rewritten after the backup
/// step let it go on, and a failure is never taken back.
pub proof fn lemma_compaction(first: StepOutcome, second: StepOutcome, later: StepOutcome)
    ensures
        compaction_after(compaction_after(Compaction::Backup, first), second) == Compaction::Done
            <==> first != StepOutcome::Failed && second == StepOutcome::Succeeded,
        compaction_after(Compaction::Failed, later) == Compaction::Failed,
        compaction_after(Compaction::Backup, first) != Compaction::Done,
{
}

} // verus!
