use vstd::prelude::*;
use chrono::{Datelike, Timelike, Utc};

verus! {

/// A moment in universal time, to the second, as a stream records when a library or a
/// cell was last changed.
#[derive(Debug, Clone, Copy, PartialEq, Eq, Structural)]
pub struct Timestamp {
    pub year: u16,
    pub month: u16,
    pub day: u16,
    pub hour: u16,
    pub minute: u16,
    pub second: u16,
}

impl Timestamp {
    /// Whether the fields are those of a time of day on a day of a month.
    pub open spec fn plausible(self) -> bool {
        &&& 1 <= self.month <= 12
        &&& 1 <= self.day <= 31
        &&& self.hour <= 23
        &&& self.minute <= 59
        &&& self.second <= 59
    }

    /// The six fields in the order in which a stream holds them.
    pub open spec fn words(self) -> Seq<u16> {
        seq![self.year, self.month, self.day, self.hour, self.minute, self.second]
    }
}

/// The present moment, from `chrono::Utc::now`, taken as universal time with
/// `naive_utc` and split into its fields with `year`, `month`, `day`, `hour`, `minute` and
/// `second`. Nothing is claimed of which moment it is; the ranges are those that chrono
/// documents for the five smaller fields. The year is cut to its low sixteen bits.
#[verifier::external_body]
pub(crate) fn current_timestamp() -> (timestamp: Timestamp)
    ensures
        timestamp.plausible(),
{
    let moment = Utc::now().naive_utc();
    Timestamp {
        year: moment.year() as u16,
        month: moment.month() as u16,
        day: moment.day() as u16,
        hour: moment.hour() as u16,
        minute: moment.minute() as u16,
        second: moment.second() as u16,
    }
}

} // verus!
