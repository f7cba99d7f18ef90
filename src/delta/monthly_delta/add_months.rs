use crate::date::{clamp_day, ymd_clamped, Date, DateView, MAX_YEAR};
use crate::errors::MoolahCoreError;
use vstd::prelude::*;

verus! {

/// The date `n` months after the month of `d`, on day `target` or on the last day of a
/// shorter month.
pub open spec fn months_later(d: DateView, target: int, n: int) -> DateView {
    let k = d.month - 1 + n;
    clamp_day(d.year + k / 12, k % 12 + 1, target)
}

/// The date `n` months after `date`, on day `target` or on the last day of a shorter month;
/// an error when that month lies past the supported range.
pub(crate) fn add_months(date: &Date, target: u32, n: u32) -> (r: Result<Date, MoolahCoreError>)
    requires
        1 <= target,
    ensures
        r is Ok <==> months_later(date@, target as int, n as int).year <= MAX_YEAR,
        r matches Ok(d) ==> d@ == months_later(date@, target as int, n as int),
        r is Err ==> r == Err::<Date, MoolahCoreError>(MoolahCoreError::DateOutOfRange),
{
    let _ = date.num_days_from_ce();
    let k: i64 = date.month() as i64 - 1 + n as i64;
    let year: i64 = date.year() as i64 + k / 12;
    let month: i64 = k % 12 + 1;
    if year > MAX_YEAR as i64 {
        Err(MoolahCoreError::DateOutOfRange)
    } else {
        Ok(ymd_clamped(year as i32, month as u32, target))
    }
}

/// A day of the month, from 1 to 31.
#[derive(Clone, Copy, Debug, PartialEq, Eq, Structural)]
pub struct MonthDay {
    day: u8,
}

impl MonthDay {
    #[verifier::type_invariant]
    spec fn in_range(self) -> bool {
        1 <= self.day <= 31
    }
}

impl View for MonthDay {
    type V = int;

    closed spec fn view(&self) -> int {
        self.day as int
    }
}

pub closed spec fn month_day_from(day: int) -> Result<MonthDay, MoolahCoreError> {
    if 1 <= day <= 31 {
        Ok(MonthDay { day: day as u8 })
    } else {
        Err(MoolahCoreError::MonthDayOutOfRange(day as i64))
    }
}

impl MonthDay {
    /// The day `day` of a month, failing outside `1..=31`.
    pub fn try_new(day: i64) -> (r: Result<MonthDay, MoolahCoreError>)
        ensures
            r is Ok <==> 1 <= day <= 31,
            r matches Ok(m) ==> m@ == day,
            r is Err ==> r == Err::<MonthDay, MoolahCoreError>(
                MoolahCoreError::MonthDayOutOfRange(day),
            ),
            r == month_day_from(day as int),
    {
        if 1 <= day && day <= 31 {
            Ok(MonthDay { day: day as u8 })
        } else {
            Err(MoolahCoreError::MonthDayOutOfRange(day))
        }
    }

    pub fn day(&self) -> (r: u32)
        ensures
            r == self@,
            1 <= r <= 31,
    {
        proof {
            use_type_invariant(self);
        }
        self.day as u32
    }
}

impl Default for MonthDay {
    fn default() -> (r: MonthDay)
        ensures
            r@ == 1,
    {
        MonthDay { day: 1 }
    }
}

impl vstd::std_specs::convert::TryFromSpecImpl<u8> for MonthDay {
    open spec fn obeys_try_from_spec() -> bool {
        true
    }

    closed spec fn try_from_spec(v: u8) -> Result<MonthDay, MoolahCoreError> {
        month_day_from(v as int)
    }
}

impl TryFrom<u8> for MonthDay {
    type Error = MoolahCoreError;

    fn try_from(value: u8) -> (r: Result<MonthDay, MoolahCoreError>)
        ensures
            r is Ok <==> 1 <= value <= 31,
            r matches Ok(m) ==> m@ == value,
            r is Err ==> r == Err::<MonthDay, MoolahCoreError>(
                MoolahCoreError::MonthDayOutOfRange(value as i64),
            ),
    {
        MonthDay::try_new(value as i64)
    }
}

impl vstd::std_specs::convert::TryFromSpecImpl<u32> for MonthDay {
    open spec fn obeys_try_from_spec() -> bool {
        true
    }

    closed spec fn try_from_spec(v: u32) -> Result<MonthDay, MoolahCoreError> {
        month_day_from(v as int)
    }
}

impl TryFrom<u32> for MonthDay {
    type Error = MoolahCoreError;

    fn try_from(value: u32) -> (r: Result<MonthDay, MoolahCoreError>)
        ensures
            r is Ok <==> 1 <= value <= 31,
            r matches Ok(m) ==> m@ == value,
            r is Err ==> r == Err::<MonthDay, MoolahCoreError>(
                MoolahCoreError::MonthDayOutOfRange(value as i64),
            ),
    {
        MonthDay::try_new(value as i64)
    }
}

impl vstd::std_specs::convert::TryFromSpecImpl<i32> for MonthDay {
    open spec fn obeys_try_from_spec() -> bool {
        true
    }

    closed spec fn try_from_spec(v: i32) -> Result<MonthDay, MoolahCoreError> {
        month_day_from(v as int)
    }
}

impl TryFrom<i32> for MonthDay {
    type Error = MoolahCoreError;

    fn try_from(value: i32) -> (r: Result<MonthDay, MoolahCoreError>)
        ensures
            r is Ok <==> 1 <= value <= 31,
            r matches Ok(m) ==> m@ == value,
            r is Err ==> r == Err::<MonthDay, MoolahCoreError>(
                MoolahCoreError::MonthDayOutOfRange(value as i64),
            ),
    {
        MonthDay::try_new(value as i64)
    }
}

impl vstd::std_specs::convert::FromSpecImpl<MonthDay> for u32 {
    open spec fn obeys_from_spec() -> bool {
        true
    }

    open spec fn from_spec(m: MonthDay) -> u32 {
        m@ as u32
    }
}

impl From<MonthDay> for u32 {
    fn from(m: MonthDay) -> (r: u32)
        ensures
            r == m@,
    {
        m.day()
    }
}

impl<'a> vstd::std_specs::convert::FromSpecImpl<&'a MonthDay> for u32 {
    open spec fn obeys_from_spec() -> bool {
        true
    }

    open spec fn from_spec(m: &'a MonthDay) -> u32 {
        m@ as u32
    }
}

impl<'a> From<&'a MonthDay> for u32 {
    fn from(m: &'a MonthDay) -> (r: u32)
        ensures
            r == m@,
    {
        m.day()
    }
}

impl vstd::std_specs::ops::MulSpecImpl<u32> for MonthDay {
    open spec fn obeys_mul_spec() -> bool {
        true
    }

    open spec fn mul_req(self, rhs: u32) -> bool {
        true
    }

    open spec fn mul_spec(self, rhs: u32) -> MultiMonthDuration {
        MultiMonthDuration { n_months: rhs }
    }
}

impl core::ops::Mul<u32> for MonthDay {
    type Output = MultiMonthDuration;

    fn mul(self, rhs: u32) -> MultiMonthDuration {
        MultiMonthDuration { n_months: rhs }
    }
}

/// A number of calendar months, to be added to a date.
#[derive(Clone, Copy, Debug, PartialEq, Eq, Structural)]
pub struct MultiMonthDuration {
    pub n_months: u32,
}

impl MultiMonthDuration {
    /// The date this many months after `date`, on the same day of the month, or on the last
    /// day of a shorter month; an error past the supported range.
    pub fn try_add(self, date: Date) -> (r: Result<Date, MoolahCoreError>)
        ensures
            r is Ok <==> months_later(date@, date@.day, self.n_months as int).year <= MAX_YEAR,
            r matches Ok(d) ==> d@ == months_later(date@, date@.day, self.n_months as int),
            r is Err ==> r == Err::<Date, MoolahCoreError>(MoolahCoreError::DateOutOfRange),
    {
        let _ = date.num_days_from_ce();
        add_months(&date, date.day(), self.n_months)
    }
}

} // verus!
