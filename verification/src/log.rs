//! The durable log of one sensor: a text of one line per measurement, in the
//! order in which they were appended, and what reading it back yields.

use crate::measurement::{
    csv_line, lemma_line_round_trip, line_text, parse_line, read_line, LineError, Measurement,
    Record,
};
use crate::text::{
    chars_of, find_char, first_index, lemma_first_index, lemma_first_index_is, string_of,
};
use vstd::prelude::*;
use vstd::string::StringExecFns;

verus! {

/// What a series of measurements stands for.
pub open spec fn records(series: Seq<Measurement>) -> Seq<Record> {
    series.map_values(|m: Measurement| m@)
}

/// The text of a log to which the records of `series` were appended in
/// order: their lines one after the other.
pub open spec fn csv_text(series: Seq<Record>) -> Seq<char>
    decreases series.len(),
{
    if series.len() == 0 {
        Seq::empty()
    } else {
        csv_text(series.drop_last()) + csv_line(series.last())
    }
}

/// A line without the carriage return that may end it.
pub open spec fn strip_cr(line: Seq<char>) -> Seq<char> {
    if line.len() > 0 && line.last() == '\r' {
        line.drop_last()
    } else {
        line
    }
}

/// The lines of a text. A line ends at a line feed, and a carriage return
/// just before the line feed belongs to the line's end too. What follows the
/// last line feed is a line if it is not empty; it is kept as it stands.
pub open spec fn lines_of(text: Seq<char>) -> Seq<Seq<char>>
    decreases text.len(),
{
    let end = first_index(text, '\n');
    if text.len() == 0 {
        Seq::empty()
    } else if end < 0 || end >= text.len() {
        seq![text]
    } else {
        seq![strip_cr(text.take(end))] + lines_of(text.skip(end + 1))
    }
}

/// The record of a line, if it stands for one.
pub open spec fn record_of_line(line: Seq<char>) -> Seq<Record> {
    match parse_line(line) {
        Some(record) => seq![record],
        None => Seq::empty(),
    }
}

/// The records that the lines stand for, in order; a line that stands for
/// none is passed over.
pub open spec fn replay_lines(lines: Seq<Seq<char>>) -> Seq<Record>
    decreases lines.len(),
{
    if lines.len() == 0 {
        Seq::empty()
    } else {
        record_of_line(lines[0]) + replay_lines(lines.skip(1))
    }
}

/// The series that reading back the text of a log yields.
pub open spec fn replay_text(text: Seq<char>) -> Seq<Record> {
    replay_lines(lines_of(text))
}

/// A line of a log that stands for no measurement.
#[derive(Debug)]
pub struct Skipped {
    /// The number of the line in the log, from 1.
    pub line: usize,
    /// Why the line stands for no measurement.
    pub fault: LineError,
    /// The line itself.
    pub text: String,
}

/// What a `Skipped` stands for.
pub struct SkippedLine {
    /// The number of the line in the log, from 1.
    pub line: int,
    /// Why the line stands for no measurement.
    pub fault: LineError,
    /// The line itself.
    pub text: Seq<char>,
}

impl View for Skipped {
    type V = SkippedLine;

    open spec fn view(&self) -> SkippedLine {
        SkippedLine { line: self.line as int, fault: self.fault, text: self.text@ }
    }
}

/// What a list of skipped lines stands for.
pub open spec fn skipped_views(skipped: Seq<Skipped>) -> Seq<SkippedLine> {
    skipped.map_values(|s: Skipped| s@)
}

/// What is to be said of a line that stands for no measurement.
pub open spec fn fault_of_line(line: Seq<char>, number: int) -> Seq<SkippedLine> {
    match read_line(line) {
        Ok(_) => Seq::empty(),
        Err(fault) => seq![SkippedLine { line: number, fault, text: line }],
    }
}

/// The lines among `lines` that stand for no measurement, in order, where
/// the first of `lines` has the number `first`.
pub open spec fn skipped_lines(lines: Seq<Seq<char>>, first: int) -> Seq<SkippedLine>
    decreases lines.len(),
{
    if lines.len() == 0 {
        Seq::empty()
    } else {
        fault_of_line(lines[0], first) + skipped_lines(lines.skip(1), first + 1)
    }
}

/// The lines of a log that stand for no measurement, numbered from 1.
pub open spec fn skipped_of(text: Seq<char>) -> Seq<SkippedLine> {
    skipped_lines(lines_of(text), 1)
}

/// What the warning about a skipped line begins with.
pub open spec fn fault_text(fault: LineError) -> Seq<char> {
    match fault {
        LineError::FieldCount => "skip invalid line \""@,
        LineError::Time => "skip line with invalid time line=\""@,
        LineError::Number => "skip line with invalid number line=\""@,
        LineError::Missing => "skip line without reading line=\""@,
    }
}

impl Skipped {
    /// The warning about this line: what is wrong with it, and the line
    /// between double quotes.
    pub fn message(&self) -> (text: String)
        ensures
            text@ == fault_text(self.fault) + self.text@ + "\""@,
    {
        let mut text = match self.fault {
            LineError::FieldCount => "skip invalid line \"".to_owned(),
            LineError::Time => "skip line with invalid time line=\"".to_owned(),
            LineError::Number => "skip line with invalid number line=\"".to_owned(),
            LineError::Missing => "skip line without reading line=\"".to_owned(),
        };
        text.append(self.text.as_str());
        text.append("\"");
        text
    }
}

/// What reading a log back yields: the measurements, and the lines that
/// stand for none.
#[derive(Debug)]
pub struct Replay {
    /// The measurements, in the order of their lines.
    pub series: Vec<Measurement>,
    /// The lines that were passed over, in order.
    pub skipped: Vec<Skipped>,
}

/// Whether a text is empty or ends with a line feed, so that what is
/// appended to it starts a new line.
pub open spec fn ends_lines(text: Seq<char>) -> bool {
    text.len() == 0 || text.last() == '\n'
}

/// Whether every record of the series can be written to a log and read
/// back.
pub open spec fn all_persistable(series: Seq<Record>) -> bool {
    forall|i: int| 0 <= i < series.len() ==> (#[trigger] series[i]).is_persistable()
}

/// A single line yields its record, if it stands for one.
pub proof fn lemma_replay_single(line: Seq<char>)
    ensures
        replay_lines(seq![line]) == record_of_line(line),
{
    let lines = seq![line];
    assert(replay_lines(lines.skip(1)) =~= Seq::<Record>::empty());
}

/// Reading lines back one after the other goes over a seam between two
/// runs of lines.
pub proof fn lemma_replay_lines_concat(a: Seq<Seq<char>>, b: Seq<Seq<char>>)
    ensures
        replay_lines(a + b) == replay_lines(a) + replay_lines(b),
    decreases a.len(),
{
    if a.len() > 0 {
        lemma_replay_lines_concat(a.skip(1), b);
        assert((a + b).skip(1) =~= a.skip(1) + b);
    }
}

/// The lines of two texts, the first of which ends its last line, are the
/// lines of the first followed by the lines of the second.
pub proof fn lemma_lines_concat(a: Seq<char>, b: Seq<char>)
    requires
        ends_lines(a),
    ensures
        lines_of(a + b) == lines_of(a) + lines_of(b),
    decreases a.len(),
{
    if a.len() == 0 {
        assert(lines_of(a) + lines_of(b) =~= lines_of(b));
    } else {
        let text = a + b;
        let end = first_index(a, '\n');
        lemma_first_index(a, '\n');
        assert(forall|i: int| 0 <= i < end ==> text[i] != '\n');
        lemma_first_index_is(text, '\n', end);
        let rest = a.skip(end + 1);
        lemma_lines_concat(rest, b);
        assert(text.take(end) =~= a.take(end));
        assert(text.skip(end + 1) =~= rest + b);
        assert(lines_of(text) =~= lines_of(a) + lines_of(b));
    }
}

/// Reading back two texts, the first of which ends its last line, yields
/// what the first yields followed by what the second yields.
pub proof fn lemma_replay_concat(a: Seq<char>, b: Seq<char>)
    requires
        ends_lines(a),
    ensures
        replay_text(a + b) == replay_text(a) + replay_text(b),
{
    lemma_lines_concat(a, b);
    lemma_replay_lines_concat(lines_of(a), lines_of(b));
}

/// A text without a line feed, followed by one, is the single line that it
/// makes without a closing carriage return.
pub proof fn lemma_single_line(line: Seq<char>)
    requires
        !line.contains('\n'),
    ensures
        lines_of(line + seq!['\n']) == seq![strip_cr(line)],
        replay_text(line + seq!['\n']) == record_of_line(strip_cr(line)),
{
    let text = line + seq!['\n'];
    let end = line.len() as int;
    assert forall|i: int| 0 <= i < end implies text[i] != '\n' by {
        assert(line.contains(line[i]));
    }
    lemma_first_index_is(text, '\n', end);
    assert(text.take(end) =~= line);
    assert(lines_of(text.skip(end + 1)) =~= Seq::<Seq<char>>::empty());
    assert(lines_of(text) =~= seq![strip_cr(line)]);
    lemma_replay_single(strip_cr(line));
}

/// A line that stands for no record, wherever it stands between whole
/// lines, leaves what the log yields as it would be without it.
pub proof fn lemma_malformed_line_is_skipped(before: Seq<char>, line: Seq<char>, after: Seq<char>)
    requires
        ends_lines(before),
        !line.contains('\n'),
        parse_line(strip_cr(line)) is None,
    ensures
        replay_text(before + (line + seq!['\n']) + after) == replay_text(before) + replay_text(
            after,
        ),
{
    let whole = line + seq!['\n'];
    lemma_single_line(line);
    assert((before + whole).last() == '\n');
    lemma_replay_concat(before + whole, after);
    lemma_replay_concat(before, whole);
}

/// The text of a log that only whole lines were appended to ends its last
/// line.
pub proof fn lemma_csv_text_ends_lines(series: Seq<Record>)
    ensures
        ends_lines(csv_text(series)),
{
}

/// Appending the line of a persistable record to a log whose last line is
/// whole appends that record to what the log yields.
pub proof fn lemma_replay_append(log: Seq<char>, record: Record)
    requires
        ends_lines(log),
        record.is_persistable(),
    ensures
        replay_text(log + csv_line(record)) == replay_text(log).push(record),
        lines_of(log + csv_line(record)) == lines_of(log).push(line_text(record)),
{
    lemma_line_round_trip(record);
    let line = line_text(record);
    lemma_single_line(line);
    lemma_replay_concat(log, csv_line(record));
    lemma_lines_concat(log, csv_line(record));
    assert(replay_text(log) + seq![record] =~= replay_text(log).push(record));
}

/// Appending the lines of persistable records to an empty log and reading
/// it back yields exactly those records, in the same order, from as many
/// lines.
pub proof fn lemma_replay_round_trip(series: Seq<Record>)
    requires
        all_persistable(series),
    ensures
        replay_text(csv_text(series)) == series,
        lines_of(csv_text(series)).len() == series.len(),
    decreases series.len(),
{
    if series.len() > 0 {
        let front = series.drop_last();
        lemma_replay_round_trip(front);
        lemma_csv_text_ends_lines(front);
        lemma_replay_append(csv_text(front), series.last());
    }
}

/// Appending a measurement to a series appends its line to the text, and
/// changes nothing of what stood there.
pub proof fn lemma_csv_text_push(series: Seq<Record>, record: Record)
    ensures
        csv_text(series.push(record)) == csv_text(series) + csv_line(record),
{
    assert(series.push(record).drop_last() =~= series);
}

/// The text of a log that holds the measurements of `series`, in order.
pub fn as_csv(series: &Vec<Measurement>) -> (text: String)
    ensures
        text@ == csv_text(records(series@)),
{
    let mut text = String::new();
    let mut i: usize = 0;
    while i < series.len()
        invariant
            i <= series.len(),
            text@ == csv_text(records(series@).take(i as int)),
        decreases series.len() - i,
    {
        series[i].push_csv_line(&mut text);
        proof {
            let all = records(series@);
            assert(all.take(i + 1).drop_last() =~= all.take(i as int));
        }
        i += 1;
    }
    assert(records(series@).take(series.len() as int) =~= records(series@));
    text
}

/// Reads the text of a log back: every line that stands for a measurement,
/// in order. Lines that stand for none are passed over.
pub fn replay(text: &str) -> (series: Vec<Measurement>)
    ensures
        records(series@) == replay_text(text@),
{
    replay_report(text).series
}

/// Reads the text of a log back, and keeps account of the lines that were
/// passed over: every line stands either for a measurement of the series or
/// for an entry of the skipped lines.
pub fn replay_report(text: &str) -> (report: Replay)
    ensures
        records(report.series@) == replay_text(text@),
        skipped_views(report.skipped@) == skipped_of(text@),
        report.series@.len() + report.skipped@.len() == lines_of(text@).len(),
{
    let chars = chars_of(text);
    let n = chars.len();
    let mut series: Vec<Measurement> = Vec::new();
    let mut skipped: Vec<Skipped> = Vec::new();
    let mut pos: usize = 0;
    let mut count: usize = 0;
    assert(chars@.skip(0) =~= text@);
    while pos < n
        invariant
            pos <= n,
            count <= pos,
            n == chars.len(),
            chars@ == text@,
            replay_text(text@) == records(series@) + replay_text(chars@.skip(pos as int)),
            skipped_of(text@) == skipped_views(skipped@) + skipped_lines(
                lines_of(chars@.skip(pos as int)),
                count + 1,
            ),
            lines_of(text@).len() == count + lines_of(chars@.skip(pos as int)).len(),
            series@.len() + skipped@.len() == count,
        decreases n - pos,
    {
        let ghost rest = chars@.skip(pos as int);
        assert(rest =~= chars@.subrange(pos as int, n as int));
        let feed = find_char(&chars, pos, n, '\n');
        let end = if feed < n && feed > pos && chars[feed - 1] == '\r' {
            feed - 1
        } else {
            feed
        };
        let next = if feed < n {
            feed + 1
        } else {
            n
        };
        let ghost line = chars@.subrange(pos as int, end as int);
        let ghost tail = chars@.skip(next as int);
        proof {
            if feed < n {
                assert(strip_cr(rest.take(feed - pos)) =~= line);
                assert(rest.skip(feed - pos + 1) =~= tail);
            }
            lemma_replay_lines_concat(seq![line], lines_of(tail));
            lemma_replay_single(line);
            assert(lines_of(rest).skip(1) =~= lines_of(tail));
        }
        match Measurement::parse_chars(&chars, pos, end) {
            Ok(m) => {
                series.push(m);
            },
            Err(fault) => {
                skipped.push(Skipped { line: count + 1, fault, text: string_of(&chars, pos, end) });
            },
        }
        pos = next;
        count += 1;
    }
    Replay { series, skipped }
}

} // verus!
