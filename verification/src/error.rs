//! What can go wrong when a store is asked for something.

use vstd::prelude::*;

verus! {

/// A failure that is reported to the caller. A failure of the sensor itself
/// is none of these: it is recorded as a reading.
#[derive(Clone, Copy, Debug, PartialEq, Eq, Structural)]
pub enum StoreError {
    /// A timestamp handed in by the caller is not the notation of one.
    TimeParse,
    /// No sensor has the given id, or stands at the given position.
    NotFound,
    /// A line could not be appended to the log; sampling goes on.
    PersistAppend,
    /// The log could not be rewritten after a removal.
    PersistCompact,
}

impl StoreError {
    /// What the failure is, in words.
    pub open spec fn text(self) -> Seq<char> {
        match self {
            StoreError::TimeParse => "Couldn't parse time"@,
            StoreError::NotFound => "No such sensor"@,
            StoreError::PersistAppend => "Couldn't write sensor measurement"@,
            StoreError::PersistCompact => "Couldn't rewrite sensor log"@,
        }
    }

    /// What the failure is, in words.
    pub fn message(&self) -> (message: &'static str)
        ensures
            message@ == self.text(),
    {
        match self {
            StoreError::TimeParse => "Couldn't parse time",
            StoreError::NotFound => "No such sensor",
            StoreError::PersistAppend => "Couldn't write sensor measurement",
            StoreError::PersistCompact => "Couldn't rewrite sensor log",
        }
    }
}

} // verus!
