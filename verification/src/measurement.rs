//! A reading with the time it was taken at, and the line that stands for it
//! in the log: the timestamp, a comma, the payload.

use crate::temperature::{Reading, Temperature};
use crate::text::{
    chars_of, decimal_text, find_char, first_index, is_digit, is_numeric,
    lemma_decimal_round_trip, lemma_digits_of, lemma_first_index_is, parse_i32, parse_i32_spec,
    push_decimal, string_of, NumberError,
};
use crate::timestamp::{
    lemma_timestamp_round_trip, parse_timestamp, timestamp_text, CivilTime, Timestamp,
    TIMESTAMP_LEN,
};
use vstd::prelude::*;
use vstd::std_specs::cmp::PartialEqSpecImpl;
use vstd::string::StringExecFns;

verus! {

/// A reading and the time it was taken at. Once made it never changes.
#[derive(Debug)]
pub struct Measurement {
    time: Timestamp,
    temp: Temperature,
}

/// What a `Measurement` stands for.
pub struct Record {
    /// When the reading was taken.
    pub time: CivilTime,
    /// The reading.
    pub temp: Reading,
}

impl View for Measurement {
    type V = Record;

    closed spec fn view(&self) -> Record {
        Record { time: self.time@, temp: self.temp@ }
    }
}

/// The payload that stands for a missing reading.
pub const INVALID_PAYLOAD: &'static str = "invalid";

/// The payload of a line: the number in decimal notation, the text of the
/// error, or the word that stands for a missing reading.
pub open spec fn payload_text(reading: Reading) -> Seq<char> {
    match reading {
        Reading::Value(v) => decimal_text(v),
        Reading::Error(text) => text,
        Reading::Invalid => INVALID_PAYLOAD@,
    }
}

/// A record's line without its line break: timestamp, comma, payload.
pub open spec fn line_text(record: Record) -> Seq<char> {
    timestamp_text(record.time) + seq![','] + payload_text(record.temp)
}

/// A record's line in the log.
pub open spec fn csv_line(record: Record) -> Seq<char> {
    line_text(record) + seq!['\n']
}

/// Why a line of a log stands for no measurement.
#[derive(Clone, Copy, Debug, PartialEq, Eq, Structural)]
pub enum LineError {
    /// The line holds no comma, so it has no two fields.
    FieldCount,
    /// What stands before the first comma is not the notation of a time.
    Time,
    /// The payload is a number that does not fit an `i32`.
    Number,
    /// The payload is the word that stands for a missing reading.
    Missing,
}

/// The reading that a payload stands for when a log is read back: the word
/// for a missing reading stands for none, a number that fits stands for its
/// value, a number that does not fit stands for none, and any other text is
/// the text of an error.
pub open spec fn reading_of_payload(payload: Seq<char>) -> Result<Reading, LineError> {
    if payload == INVALID_PAYLOAD@ {
        Err(LineError::Missing)
    } else if is_numeric(payload) {
        match parse_i32_spec(payload) {
            Ok(v) => Ok(Reading::Value(v)),
            Err(_) => Err(LineError::Number),
        }
    } else {
        Ok(Reading::Error(payload))
    }
}

/// The record that a line stands for, or why it stands for none. The line
/// is cut at its first comma; before it stands the timestamp, after it the
/// payload. The fault that is found first, from the left, is the one named.
pub open spec fn read_line(line: Seq<char>) -> Result<Record, LineError> {
    let comma = first_index(line, ',');
    if comma == line.len() {
        Err(LineError::FieldCount)
    } else {
        match parse_timestamp(line.take(comma)) {
            None => Err(LineError::Time),
            Some(time) => match reading_of_payload(line.skip(comma + 1)) {
                Ok(temp) => Ok(Record { time, temp }),
                Err(fault) => Err(fault),
            },
        }
    }
}

/// The record that a line stands for, if it stands for one.
pub open spec fn parse_line(line: Seq<char>) -> Option<Record> {
    match read_line(line) {
        Ok(record) => Some(record),
        Err(_) => None,
    }
}

impl Record {
    /// Whether the record can be written to a log and read back: its time is
    /// valid, its value fits an `i32`, and the text of its error could not be
    /// taken for anything else (it holds no line break, does not end in a
    /// carriage return, is no number and is not the word for a missing
    /// reading). A missing reading cannot.
    pub open spec fn is_persistable(self) -> bool {
        &&& self.time.is_valid()
        &&& match self.temp {
            Reading::Value(v) => i32::MIN <= v <= i32::MAX,
            Reading::Error(text) => {
                &&& !text.contains('\n')
                &&& !(text.len() > 0 && text.last() == '\r')
                &&& !is_numeric(text)
                &&& text != INVALID_PAYLOAD@
            },
            Reading::Invalid => false,
        }
    }
}

/// The decimal notation of a number holds digits and at most a minus sign.
pub proof fn lemma_decimal_text_chars(v: int)
    ensures
        decimal_text(v).len() >= 1,
        forall|i: int|
            0 <= i < decimal_text(v).len() ==> {
                let c = #[trigger] decimal_text(v)[i];
                is_digit(c) || c == '-'
            },
        is_digit(decimal_text(v).last()),
{
    if v < 0 {
        lemma_digits_of((-v) as nat);
    } else {
        lemma_digits_of(v as nat);
    }
}

/// The payload of a persistable record reads back as its reading, holds no
/// line break and does not end in a carriage return.
pub proof fn lemma_payload_round_trip(record: Record)
    requires
        record.is_persistable(),
    ensures
        reading_of_payload(payload_text(record.temp)) == Ok::<Reading, LineError>(record.temp),
        !payload_text(record.temp).contains('\n'),
        !(payload_text(record.temp).len() > 0 && payload_text(record.temp).last() == '\r'),
{
    reveal_strlit("invalid");
    match record.temp {
        Reading::Value(v) => {
            lemma_decimal_round_trip(v);
            lemma_decimal_text_chars(v);
        },
        _ => {},
    }
}

/// The line of a persistable record reads back as that record.
pub proof fn lemma_line_round_trip(record: Record)
    requires
        record.is_persistable(),
    ensures
        read_line(line_text(record)) == Ok::<Record, LineError>(record),
        parse_line(line_text(record)) == Some(record),
        !line_text(record).contains('\n'),
        line_text(record).len() > 0,
        line_text(record).last() != '\r',
{
    let payload = payload_text(record.temp);
    let line = line_text(record);
    lemma_timestamp_round_trip(record.time);
    lemma_payload_round_trip(record);
    assert(forall|i: int| 0 <= i < TIMESTAMP_LEN ==> line[i] != ',');
    lemma_first_index_is(line, ',', TIMESTAMP_LEN as int);
    assert(line.skip(TIMESTAMP_LEN + 1) =~= payload);
}

impl Measurement {
    /// The measurement of `temp` taken at `time`.
    pub fn new(time: Timestamp, temp: Temperature) -> (m: Measurement)
        ensures
            m@ == (Record { time: time@, temp: temp@ }),
    {
        Measurement { time, temp }
    }

    /// The time the reading was taken at.
    pub fn time(&self) -> (time: &Timestamp)
        ensures
            time@ == self@.time,
            self@.time.is_valid(),
    {
        proof {
            use_type_invariant(&self.time);
        }
        &self.time
    }

    /// The reading.
    pub fn temp(&self) -> (temp: &Temperature)
        ensures
            temp@ == self@.temp,
    {
        &self.temp
    }

    /// Whether the two measurements are the same: the same time and the same
    /// reading.
    pub fn same_as(&self, other: &Measurement) -> (same: bool)
        ensures
            same == (self@ == other@),
    {
        self.time.same_as(&other.time) && self.temp.same_as(&other.temp)
    }

    /// Appends this measurement's line to `out`.
    pub fn push_csv_line(&self, out: &mut String)
        ensures
            final(out)@ == old(out)@ + csv_line(self@),
    {
        self.time.push_to(out);
        out.push(',');
        match &self.temp {
            Temperature::MiliCelcius(v) => {
                push_decimal(out, *v);
            },
            Temperature::Error(text) => {
                out.append(text.as_str());
            },
            Temperature::Invalid => {
                out.append(INVALID_PAYLOAD);
            },
        }
        out.push('\n');
    }

    /// This measurement's line in the log.
    pub fn as_csv_line(&self) -> (line: String)
        ensures
            line@ == csv_line(self@),
    {
        let mut line = String::new();
        self.push_csv_line(&mut line);
        line
    }

    /// Reads `v[from..to]` as the payload of a line.
    pub(crate) fn parse_payload(v: &Vec<char>, from: usize, to: usize) -> (r: Result<
        Temperature,
        LineError,
    >)
        requires
            from <= to <= v.len(),
        ensures
            match reading_of_payload(v@.subrange(from as int, to as int)) {
                Ok(reading) => r is Ok && r.unwrap()@ == reading,
                Err(fault) => r == Err::<Temperature, LineError>(fault),
            },
    {
        let word = chars_of(INVALID_PAYLOAD);
        if same_chars(v, from, to, &word) {
            return Err(LineError::Missing);
        }
        match parse_i32(v, from, to) {
            Ok(value) => Ok(Temperature::MiliCelcius(value)),
            Err(NumberError::TooLarge) => Err(LineError::Number),
            Err(NumberError::TooSmall) => Err(LineError::Number),
            Err(_) => Ok(Temperature::Error(string_of(v, from, to))),
        }
    }

    /// Reads `v[from..to]` as a line of the log, without its line break.
    pub(crate) fn parse_chars(v: &Vec<char>, from: usize, to: usize) -> (r: Result<
        Measurement,
        LineError,
    >)
        requires
            from <= to <= v.len(),
        ensures
            match read_line(v@.subrange(from as int, to as int)) {
                Ok(record) => r is Ok && r.unwrap()@ == record,
                Err(fault) => r == Err::<Measurement, LineError>(fault),
            },
    {
        let ghost line = v@.subrange(from as int, to as int);
        let comma = find_char(v, from, to, ',');
        if comma == to {
            return Err(LineError::FieldCount);
        }
        assert(line.skip(comma - from + 1) =~= v@.subrange(comma + 1, to as int));
        match Timestamp::parse_chars(v, from, comma) {
            None => Err(LineError::Time),
            Some(time) => match Measurement::parse_payload(v, comma + 1, to) {
                Ok(temp) => Ok(Measurement { time, temp }),
                Err(fault) => Err(fault),
            },
        }
    }

    /// Reads `line` as a line of the log, without its line break.
    pub fn parse(line: &str) -> (r: Result<Measurement, LineError>)
        ensures
            match read_line(line@) {
                Ok(record) => r is Ok && r.unwrap()@ == record,
                Err(fault) => r == Err::<Measurement, LineError>(fault),
            },
    {
        let chars = chars_of(line);
        assert(chars@.subrange(0, chars@.len() as int) =~= line@);
        Measurement::parse_chars(&chars, 0, chars.len())
    }
}

/// Whether `v[from..to]` holds exactly the characters of `word`.
fn same_chars(v: &Vec<char>, from: usize, to: usize, word: &Vec<char>) -> (same: bool)
    requires
        from <= to <= v.len(),
    ensures
        same == (v@.subrange(from as int, to as int) == word@),
{
    let ghost s = v@.subrange(from as int, to as int);
    if to - from != word.len() {
        return false;
    }
    let mut i: usize = 0;
    while i < word.len()
        invariant
            from <= to <= v.len(),
            to - from == word.len(),
            i <= word.len(),
            s == v@.subrange(from as int, to as int),
            forall|j: int| 0 <= j < i ==> v@[from + j] == word@[j],
        decreases word.len() - i,
    {
        if v[from + i] != word[i] {
            return false;
        }
        i += 1;
    }
    assert(s =~= word@);
    true
}

impl Clone for Measurement {
    fn clone(&self) -> (result: Measurement)
        ensures
            result@ == self@,
    {
        Measurement { time: self.time, temp: self.temp.clone() }
    }
}

impl PartialEq for Measurement {
    fn eq(&self, other: &Measurement) -> (result: bool) {
        self.same_as(other)
    }
}

impl PartialEqSpecImpl for Measurement {
    open spec fn obeys_eq_spec() -> bool {
        true
    }

    open spec fn eq_spec(&self, other: &Measurement) -> bool {
        self@ == other@
    }
}

} // verus!
