//! Points in time to the second, in UTC, and their notation in the log:
//! `YYYY-MM-DDTHH:MM:SSZ`.

use crate::text::{
    chars_of, digit_char, digit_of_char, digit_to_char, digit_value, is_digit, is_digit_char,
};
use chrono::{DateTime, Datelike, Timelike};
use vstd::prelude::*;

verus! {

/// A date of the Gregorian calendar and a time of day.
pub struct CivilTime {
    /// The year of the common era.
    pub year: int,
    /// The month of the year, from 1.
    pub month: int,
    /// The day of the month, from 1.
    pub day: int,
    /// The hour of the day, from 0.
    pub hour: int,
    /// The minute of the hour, from 0.
    pub minute: int,
    /// The second of the minute, from 0.
    pub second: int,
}

/// Whether year `y` has a 29th of February.
pub open spec fn is_leap_year(y: int) -> bool {
    y % 4 == 0 && (y % 100 != 0 || y % 400 == 0)
}

/// The number of days of month `m` in year `y`.
pub open spec fn days_in_month(y: int, m: int) -> int {
    if m == 2 {
        if is_leap_year(y) {
            29
        } else {
            28
        }
    } else if m == 4 || m == 6 || m == 9 || m == 11 {
        30
    } else {
        31
    }
}

impl CivilTime {
    /// Whether this is a day that exists, in a year of four digits, and a
    /// time of that day.
    pub open spec fn is_valid(self) -> bool {
        &&& 0 <= self.year <= 9999
        &&& 1 <= self.month <= 12
        &&& 1 <= self.day <= days_in_month(self.year, self.month)
        &&& 0 <= self.hour <= 23
        &&& 0 <= self.minute <= 59
        &&& 0 <= self.second <= 59
    }

    /// Whether this point in time lies strictly after `other`: the first
    /// field in which they differ, from the year down, is larger.
    pub open spec fn is_after(self, other: CivilTime) -> bool {
        if self.year != other.year {
            self.year > other.year
        } else if self.month != other.month {
            self.month > other.month
        } else if self.day != other.day {
            self.day > other.day
        } else if self.hour != other.hour {
            self.hour > other.hour
        } else if self.minute != other.minute {
            self.minute > other.minute
        } else {
            self.second > other.second
        }
    }
}

/// The length of a timestamp's notation.
pub const TIMESTAMP_LEN: usize = 20;

/// The digit that writes the tens of `n`, for `n` below a hundred.
#[verifier::opaque]
pub open spec fn tens(n: int) -> char {
    digit_char((n / 10) as nat)
}

/// The digit that writes the units of `n`.
#[verifier::opaque]
pub open spec fn units(n: int) -> char {
    digit_char((n % 10) as nat)
}

/// The notation of `t`: year, month and day with hyphens between them, `T`,
/// hour, minute and second with colons between them, and `Z`; every field
/// padded with zeros to its full width.
pub open spec fn timestamp_text(t: CivilTime) -> Seq<char> {
    seq![
        tens(t.year / 100),
        units(t.year / 100),
        tens(t.year % 100),
        units(t.year % 100),
        '-',
        tens(t.month),
        units(t.month),
        '-',
        tens(t.day),
        units(t.day),
        'T',
        tens(t.hour),
        units(t.hour),
        ':',
        tens(t.minute),
        units(t.minute),
        ':',
        tens(t.second),
        units(t.second),
        'Z',
    ]
}

/// The two digits of a number below a hundred are digits and write it.
pub proof fn lemma_two_digits_of(n: int)
    requires
        0 <= n < 100,
    ensures
        is_digit(tens(n)),
        is_digit(units(n)),
        digit_value(tens(n)) * 10 + digit_value(units(n)) == n,
{
    reveal(tens);
    reveal(units);
}

/// The number that two digits write is written with those two digits.
pub proof fn lemma_two_digits_back(high: char, low: char)
    requires
        is_digit(high),
        is_digit(low),
    ensures
        tens((digit_value(high) * 10 + digit_value(low)) as int) == high,
        units((digit_value(high) * 10 + digit_value(low)) as int) == low,
{
    reveal(tens);
    reveal(units);
}

/// The number that the two digits at `s[i]` and `s[i + 1]` write.
pub open spec fn two_digits(s: Seq<char>, i: int) -> int {
    (digit_value(s[i]) * 10 + digit_value(s[i + 1])) as int
}

/// Whether `s` has the shape of a timestamp: twenty characters, digits in
/// the fields and the right mark after each.
pub open spec fn has_timestamp_shape(s: Seq<char>) -> bool {
    &&& s.len() == TIMESTAMP_LEN
    &&& is_digit(s[0]) && is_digit(s[1]) && is_digit(s[2]) && is_digit(s[3])
    &&& s[4] == '-'
    &&& is_digit(s[5]) && is_digit(s[6])
    &&& s[7] == '-'
    &&& is_digit(s[8]) && is_digit(s[9])
    &&& s[10] == 'T'
    &&& is_digit(s[11]) && is_digit(s[12])
    &&& s[13] == ':'
    &&& is_digit(s[14]) && is_digit(s[15])
    &&& s[16] == ':'
    &&& is_digit(s[17]) && is_digit(s[18])
    &&& s[19] == 'Z'
}

/// The fields that a sequence of the shape of a timestamp writes.
pub open spec fn timestamp_fields(s: Seq<char>) -> CivilTime {
    CivilTime {
        year: two_digits(s, 0) * 100 + two_digits(s, 2),
        month: two_digits(s, 5),
        day: two_digits(s, 8),
        hour: two_digits(s, 11),
        minute: two_digits(s, 14),
        second: two_digits(s, 17),
    }
}

/// The point in time that `s` writes, if it writes one: `s` has the shape of
/// a timestamp and its fields make a valid date and time.
pub open spec fn parse_timestamp(s: Seq<char>) -> Option<CivilTime> {
    if has_timestamp_shape(s) && timestamp_fields(s).is_valid() {
        Some(timestamp_fields(s))
    } else {
        None
    }
}

/// The notation of a valid point in time reads back as that point in time,
/// and holds neither a comma nor a line break.
pub proof fn lemma_timestamp_round_trip(t: CivilTime)
    requires
        t.is_valid(),
    ensures
        timestamp_text(t).len() == TIMESTAMP_LEN,
        parse_timestamp(timestamp_text(t)) == Some(t),
        forall|i: int|
            0 <= i < TIMESTAMP_LEN ==> {
                let c = #[trigger] timestamp_text(t)[i];
                c != ',' && c != '\n' && c != '\r'
            },
{
    lemma_two_digits_of(t.year / 100);
    lemma_two_digits_of(t.year % 100);
    lemma_two_digits_of(t.month);
    lemma_two_digits_of(t.day);
    lemma_two_digits_of(t.hour);
    lemma_two_digits_of(t.minute);
    lemma_two_digits_of(t.second);
}

/// A sequence that writes a point in time is the notation of that point:
/// no two notations write the same one.
pub proof fn lemma_timestamp_text_is_canonical(s: Seq<char>)
    requires
        parse_timestamp(s) is Some,
    ensures
        timestamp_text(parse_timestamp(s).unwrap()) == s,
{
    lemma_two_digits_back(s[0], s[1]);
    lemma_two_digits_back(s[2], s[3]);
    lemma_two_digits_back(s[5], s[6]);
    lemma_two_digits_back(s[8], s[9]);
    lemma_two_digits_back(s[11], s[12]);
    lemma_two_digits_back(s[14], s[15]);
    lemma_two_digits_back(s[17], s[18]);
}

/// "Lies after" is a strict total order: nothing lies after itself, of two
/// different points in time one lies after the other, and the relation
/// carries over a point in between.
pub proof fn lemma_is_after_orders(a: CivilTime, b: CivilTime, c: CivilTime)
    ensures
        !a.is_after(a),
        a == b || a.is_after(b) || b.is_after(a),
        !(a.is_after(b) && b.is_after(a)),
        a.is_after(b) && b.is_after(c) ==> a.is_after(c),
{
}

/// A point in time to the second, in UTC. Every value is a day that exists
/// and a time of that day. The derived order is the order in time.
#[derive(Clone, Copy, Debug, PartialEq, Eq, PartialOrd, Ord, Hash, Structural)]
pub struct Timestamp {
    year: u16,
    month: u8,
    day: u8,
    hour: u8,
    minute: u8,
    second: u8,
}

impl View for Timestamp {
    type V = CivilTime;

    closed spec fn view(&self) -> CivilTime {
        CivilTime {
            year: self.year as int,
            month: self.month as int,
            day: self.day as int,
            hour: self.hour as int,
            minute: self.minute as int,
            second: self.second as int,
        }
    }
}

/// The date and time of day in UTC that lie `secs` seconds after the start
/// of 1970, leap seconds not counted, as `chrono::DateTime::from_timestamp`
/// and the accessors of `chrono::Datelike` and `chrono::Timelike` give them;
/// `None` where the calendar of chrono does not reach.
pub uninterp spec fn civil_of_unix(secs: int) -> Option<CivilTime>;

/// The date and time that six fields make.
pub open spec fn civil_of_fields(fields: Option<(i32, u32, u32, u32, u32, u32)>) -> Option<
    CivilTime,
> {
    match fields {
        Some((year, month, day, hour, minute, second)) => Some(
            CivilTime {
                year: year as int,
                month: month as int,
                day: day as int,
                hour: hour as int,
                minute: minute as int,
                second: second as int,
            },
        ),
        None => None,
    }
}

/// Calls `chrono::DateTime::from_timestamp` with no nanoseconds and reads
/// the six fields of what it gives. The conversion is a function of `secs`
/// alone; nothing more is claimed of it.
#[verifier::external_body]
fn civil_from_unix(secs: i64) -> (fields: Option<(i32, u32, u32, u32, u32, u32)>)
    ensures
        civil_of_fields(fields) == civil_of_unix(secs as int),
{
    match DateTime::from_timestamp(secs, 0) {
        Some(t) => Some((t.year(), t.month(), t.day(), t.hour(), t.minute(), t.second())),
        None => None,
    }
}

/// The number of days of month `month` in year `year`.
pub fn month_length(year: u16, month: u8) -> (days: u8)
    ensures
        days == days_in_month(year as int, month as int),
{
    if month == 2 {
        if year % 4 == 0 && (year % 100 != 0 || year % 400 == 0) {
            29
        } else {
            28
        }
    } else if month == 4 || month == 6 || month == 9 || month == 11 {
        30
    } else {
        31
    }
}

impl Timestamp {
    #[verifier::type_invariant]
    pub(crate) open spec fn well_formed(&self) -> bool {
        self@.is_valid()
    }

    /// The point in time with these fields, if they make a valid date and
    /// time.
    pub fn new(year: u16, month: u8, day: u8, hour: u8, minute: u8, second: u8) -> (r: Option<
        Timestamp,
    >)
        ensures
            ({
                let t = CivilTime {
                    year: year as int,
                    month: month as int,
                    day: day as int,
                    hour: hour as int,
                    minute: minute as int,
                    second: second as int,
                };
                match r {
                    Some(timestamp) => t.is_valid() && timestamp@ == t,
                    None => !t.is_valid(),
                }
            }),
    {
        if year <= 9999 && 1 <= month && month <= 12 && 1 <= day && day <= month_length(
            year,
            month,
        ) && hour <= 23 && minute <= 59 && second <= 59 {
            Some(Timestamp { year, month, day, hour, minute, second })
        } else {
            None
        }
    }

    /// The point in time with these fields, as a calendar hands them out, if
    /// they make a valid date and time in a year of four digits.
    pub fn from_civil(year: i32, month: u32, day: u32, hour: u32, minute: u32, second: u32) -> (r:
        Option<Timestamp>)
        ensures
            ({
                let t = CivilTime {
                    year: year as int,
                    month: month as int,
                    day: day as int,
                    hour: hour as int,
                    minute: minute as int,
                    second: second as int,
                };
                match r {
                    Some(timestamp) => t.is_valid() && timestamp@ == t,
                    None => !t.is_valid(),
                }
            }),
    {
        if 0 <= year && year <= 9999 && month <= 12 && day <= 31 && hour <= 23 && minute <= 59
            && second <= 59 {
            Timestamp::new(
                year as u16,
                month as u8,
                day as u8,
                hour as u8,
                minute as u8,
                second as u8,
            )
        } else {
            None
        }
    }

    /// The point in time `secs` seconds after the start of 1970 in UTC,
    /// where the calendar gives a valid date and time in a year of four
    /// digits for it.
    pub fn from_unix(secs: i64) -> (r: Option<Timestamp>)
        ensures
            match civil_of_unix(secs as int) {
                Some(t) => if t.is_valid() {
                    r is Some && r.unwrap()@ == t
                } else {
                    r is None
                },
                None => r is None,
            },
    {
        match civil_from_unix(secs) {
            Some((year, month, day, hour, minute, second)) => Timestamp::from_civil(
                year,
                month,
                day,
                hour,
                minute,
                second,
            ),
            None => None,
        }
    }

    /// Two timestamps with the same fields are the same timestamp.
    pub proof fn lemma_view_injective(a: Timestamp, b: Timestamp)
        requires
            a@ == b@,
        ensures
            a == b,
    {
    }

    /// The year; as every timestamp, this one is a valid date and time.
    pub fn year(&self) -> (y: u16)
        ensures
            y == self@.year,
            self@.is_valid(),
    {
        proof {
            use_type_invariant(self);
        }
        self.year
    }

    /// The month, from 1.
    pub fn month(&self) -> (m: u8)
        ensures
            m == self@.month,
    {
        self.month
    }

    /// The day of the month, from 1.
    pub fn day(&self) -> (d: u8)
        ensures
            d == self@.day,
    {
        self.day
    }

    /// The hour of the day.
    pub fn hour(&self) -> (h: u8)
        ensures
            h == self@.hour,
    {
        self.hour
    }

    /// The minute of the hour.
    pub fn minute(&self) -> (m: u8)
        ensures
            m == self@.minute,
    {
        self.minute
    }

    /// The second of the minute.
    pub fn second(&self) -> (s: u8)
        ensures
            s == self@.second,
    {
        self.second
    }

    /// Whether this timestamp lies strictly after `other`.
    pub fn is_after(&self, other: &Timestamp) -> (after: bool)
        ensures
            after == self@.is_after(other@),
    {
        if self.year != other.year {
            self.year > other.year
        } else if self.month != other.month {
            self.month > other.month
        } else if self.day != other.day {
            self.day > other.day
        } else if self.hour != other.hour {
            self.hour > other.hour
        } else if self.minute != other.minute {
            self.minute > other.minute
        } else {
            self.second > other.second
        }
    }

    /// Whether the two timestamps are the same point in time.
    pub fn same_as(&self, other: &Timestamp) -> (same: bool)
        ensures
            same == (self@ == other@),
    {
        self.year == other.year && self.month == other.month && self.day == other.day
            && self.hour == other.hour && self.minute == other.minute && self.second
            == other.second
    }

    /// Appends the notation of this timestamp to `out`.
    pub fn push_to(&self, out: &mut String)
        ensures
            final(out)@ == old(out)@ + timestamp_text(self@),
    {
        proof {
            use_type_invariant(self);
        }
        push_two(out, (self.year / 100) as u8);
        push_two(out, (self.year % 100) as u8);
        out.push('-');
        push_two(out, self.month);
        out.push('-');
        push_two(out, self.day);
        out.push('T');
        push_two(out, self.hour);
        out.push(':');
        push_two(out, self.minute);
        out.push(':');
        push_two(out, self.second);
        out.push('Z');
    }

    /// The notation of this timestamp.
    pub fn rfc3339(&self) -> (text: String)
        ensures
            text@ == timestamp_text(self@),
    {
        let mut text = String::new();
        self.push_to(&mut text);
        text
    }

    /// Reads `v[from..to]` as the notation of a timestamp.
    pub(crate) fn parse_chars(v: &Vec<char>, from: usize, to: usize) -> (r: Option<Timestamp>)
        requires
            from <= to <= v.len(),
        ensures
            match parse_timestamp(v@.subrange(from as int, to as int)) {
                Some(t) => r is Some && r.unwrap()@ == t,
                None => r is None,
            },
    {
        if to - from != TIMESTAMP_LEN {
            return None;
        }
        if !(is_digit_char(v[from]) && is_digit_char(v[from + 1]) && is_digit_char(v[from + 2])
            && is_digit_char(v[from + 3]) && v[from + 4] == '-' && is_digit_char(v[from + 5])
            && is_digit_char(v[from + 6]) && v[from + 7] == '-' && is_digit_char(v[from + 8])
            && is_digit_char(v[from + 9]) && v[from + 10] == 'T' && is_digit_char(v[from + 11])
            && is_digit_char(v[from + 12]) && v[from + 13] == ':' && is_digit_char(v[from + 14])
            && is_digit_char(v[from + 15]) && v[from + 16] == ':' && is_digit_char(v[from + 17])
            && is_digit_char(v[from + 18]) && v[from + 19] == 'Z') {
            return None;
        }
        let century = read_two(v, from);
        let years = read_two(v, from + 2);
        let year: u16 = century as u16 * 100 + years as u16;
        let month = read_two(v, from + 5);
        let day = read_two(v, from + 8);
        let hour = read_two(v, from + 11);
        let minute = read_two(v, from + 14);
        let second = read_two(v, from + 17);
        Timestamp::new(year, month, day, hour, minute, second)
    }

    /// Reads `text` as the notation of a timestamp.
    pub fn parse(text: &str) -> (r: Option<Timestamp>)
        ensures
            match parse_timestamp(text@) {
                Some(t) => r is Some && r.unwrap()@ == t,
                None => r is None,
            },
    {
        let chars = chars_of(text);
        Timestamp::parse_chars(&chars, 0, chars.len())
    }
}

/// Appends `n` as two digits.
fn push_two(out: &mut String, n: u8)
    requires
        n < 100,
    ensures
        final(out)@ == old(out)@.push(tens(n as int)).push(units(n as int)),
{
    reveal(tens);
    reveal(units);
    out.push(digit_to_char(n / 10));
    out.push(digit_to_char(n % 10));
}

/// The number that the two digits at `v[i]` and `v[i + 1]` write.
fn read_two(v: &Vec<char>, i: usize) -> (n: u8)
    requires
        i + 1 < v.len(),
        is_digit(v@[i as int]),
        is_digit(v@[i + 1]),
    ensures
        n == two_digits(v@, i as int),
        n < 100,
{
    digit_of_char(v[i]) * 10 + digit_of_char(v[i + 1])
}

} // verus!
