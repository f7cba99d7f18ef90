use crate::date::{clamp_day, ymd_clamped, Date, DateView, MAX_YEAR};
use crate::errors::MoolahCoreError;
use vstd::prelude::*;

verus! {

/// The same month and day `n` years after `d`; February 29 becomes February 28 in a year
/// that is not a leap year.
pub open spec fn years_later(d: DateView, n: int) -> DateView {
    clamp_day(d.year + n, d.month, d.day)
}

/// A number of calendar years, to be added to a date.
#[derive(Clone, Copy, Debug, PartialEq, Eq, Structural)]
pub struct MultiYearDuration {
    pub n_years: u32,
}

impl MultiYearDuration {
    pub fn new(n_years: u32) -> (r: MultiYearDuration)
        ensures
            r.n_years == n_years,
    {
        MultiYearDuration { n_years }
    }

    /// The same month and day this many years after `date` (February 29 falls back to
    /// February 28 outside leap years); an error past the supported range.
    pub fn try_add(self, date: Date) -> (r: Result<Date, MoolahCoreError>)
        ensures
            r is Ok <==> date@.year + self.n_years <= MAX_YEAR,
            r matches Ok(d) ==> d@ == years_later(date@, self.n_years as int),
            r is Err ==> r == Err::<Date, MoolahCoreError>(MoolahCoreError::DateOutOfRange),
    {
        let _ = date.num_days_from_ce();
        let year: i64 = date.year() as i64 + self.n_years as i64;
        if year > MAX_YEAR as i64 {
            Err(MoolahCoreError::DateOutOfRange)
        } else {
            Ok(ymd_clamped(year as i32, date.month(), date.day()))
        }
    }
}

} // verus!
