//! One reading of a sensor, and the filter that decides whether a new
//! reading differs enough from the last recorded one to be recorded too.

use vstd::prelude::*;
use vstd::std_specs::cmp::PartialEqSpecImpl;

verus! {

/// Two valid readings that differ by no more than this many thousandths of a
/// degree count as the same.
pub const THRESHOLD: i32 = 200;

/// The lowest value the sensor is rated for, in thousandths of a degree.
pub const RANGE_MIN: i32 = -55_000;

/// The highest value the sensor is rated for, in thousandths of a degree.
pub const RANGE_MAX: i32 = 125_000;

/// One attempt to sample a sensor.
#[derive(Debug)]
pub enum Temperature {
    /// No reading has been taken yet.
    Invalid,
    /// A valid reading, in thousandths of a degree Celsius.
    MiliCelcius(i32),
    /// The reading failed; the text says why.
    Error(String),
}

/// What a `Temperature` stands for.
pub enum Reading {
    /// No reading has been taken yet.
    Invalid,
    /// A valid reading, in thousandths of a degree Celsius.
    Value(int),
    /// A failed reading, with what was said of the failure.
    Error(Seq<char>),
}

impl View for Temperature {
    type V = Reading;

    open spec fn view(&self) -> Reading {
        match self {
            Temperature::Invalid => Reading::Invalid,
            Temperature::MiliCelcius(v) => Reading::Value(*v as int),
            Temperature::Error(text) => Reading::Error(text@),
        }
    }
}

/// The change filter: two valid readings differ when they are more than
/// `THRESHOLD` apart; any other pair differs when the two are not the same.
pub open spec fn changed(candidate: Reading, previous: Reading) -> bool {
    match (candidate, previous) {
        (Reading::Value(a), Reading::Value(b)) => a - b > THRESHOLD || b - a > THRESHOLD,
        _ => candidate != previous,
    }
}

impl Temperature {
    /// Whether this reading differs materially from `other`, the last one
    /// recorded.
    pub fn has_changed(&self, other: &Temperature) -> (result: bool)
        ensures
            result == changed(self@, other@),
    {
        match (self, other) {
            (Temperature::MiliCelcius(a), Temperature::MiliCelcius(b)) => {
                let diff: i64 = *a as i64 - *b as i64;
                diff > THRESHOLD as i64 || -diff > THRESHOLD as i64
            },
            _ => !self.same_as(other),
        }
    }

    /// Whether the two readings are the same: the same kind, with the same
    /// value or the same text.
    pub fn same_as(&self, other: &Temperature) -> (result: bool)
        ensures
            result == (self@ == other@),
    {
        match (self, other) {
            (Temperature::Invalid, Temperature::Invalid) => true,
            (Temperature::MiliCelcius(a), Temperature::MiliCelcius(b)) => *a == *b,
            (Temperature::Error(a), Temperature::Error(b)) => {
                *a == *b
            },
            _ => false,
        }
    }

    /// Whether this is a valid reading within the range the sensor is rated
    /// for.
    pub fn is_in_range(&self) -> (result: bool)
        ensures
            result == (self@ matches Reading::Value(v) && RANGE_MIN <= v <= RANGE_MAX),
    {
        match self {
            Temperature::MiliCelcius(v) => RANGE_MIN <= *v && *v <= RANGE_MAX,
            _ => false,
        }
    }
}

impl Clone for Temperature {
    fn clone(&self) -> (result: Temperature)
        ensures
            result@ == self@,
    {
        match self {
            Temperature::Invalid => Temperature::Invalid,
            Temperature::MiliCelcius(v) => Temperature::MiliCelcius(*v),
            Temperature::Error(text) => Temperature::Error(text.clone()),
        }
    }
}

impl PartialEq for Temperature {
    fn eq(&self, other: &Temperature) -> (result: bool) {
        self.same_as(other)
    }
}

impl PartialEqSpecImpl for Temperature {
    open spec fn obeys_eq_spec() -> bool {
        true
    }

    open spec fn eq_spec(&self, other: &Temperature) -> bool {
        self@ == other@
    }
}

/// Two valid readings no more than `THRESHOLD` apart count as unchanged, and
/// two that are further apart count as changed.
pub proof fn lemma_values_change_beyond_threshold(a: int, b: int)
    ensures
        -THRESHOLD <= a - b <= THRESHOLD ==> !changed(Reading::Value(a), Reading::Value(b)),
        (a - b > THRESHOLD || b - a > THRESHOLD) ==> changed(
            Reading::Value(a),
            Reading::Value(b),
        ),
{
}

/// Whenever one of two readings is an error or is missing, any difference
/// between them counts as a change.
pub proof fn lemma_fault_transitions_are_changes(candidate: Reading, previous: Reading)
    requires
        !(candidate is Value) || !(previous is Value),
        candidate != previous,
    ensures
        changed(candidate, previous),
{
}

/// Nothing has changed between a reading and itself.
pub proof fn lemma_same_reading_is_unchanged(reading: Reading)
    ensures
        !changed(reading, reading),
{
}

} // verus!
