use crate::date::Date;
use vstd::prelude::*;

verus! {

/// The ways in which building a delta or a date can fail.
#[derive(Debug, Clone, PartialEq, Eq)]
pub enum MoolahCoreError {
    /// A non-negative quantity was given a negative value.
    UnexpectedNegative(i64),
    /// An explicit uncertainty range `[low, high]` does not contain the nominal value.
    IllogicalUncertaintyBounds { low: i64, high: i64, value: i64 },
    /// A schedule starts after it ends.
    StartAfterEnd { start: Date, end: Date },
    /// A day of the month outside `1..=31`.
    MonthDayOutOfRange(i64),
    /// Year, month and day that name no calendar date.
    InvalidDate { year: i32, month: u32, day: u32 },
    /// Date arithmetic left the supported calendar range.
    DateOutOfRange,
}

} // verus!
