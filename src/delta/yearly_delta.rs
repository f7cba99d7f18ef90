pub mod add_years;

use super::{bounds_hold, check_uncertainty, Delta, Uncertainty};
use crate::date::{today, Date, DateView};
use crate::errors::MoolahCoreError;
pub use add_years::{years_later, MultiYearDuration};
use vstd::prelude::*;

verus! {

/// Whole years from `start` to `end`: the largest `k` whose date `k` years after `start`
/// (February 28 for February 29 outside leap years) is not after `end`.
pub open spec fn whole_years(start: DateView, end: DateView) -> int {
    end.year - start.year - (if end.precedes(years_later(start, end.year - start.year)) {
        1int
    } else {
        0int
    })
}

/// The dates of a yearly schedule: the month and day of `start` every `every` years, up to
/// `end` (February 29 falls on February 28 outside leap years).
pub open spec fn yearly_dates(dates: Seq<Date>, start: DateView, end: DateView, every: int) -> bool {
    &&& dates.len() == whole_years(start, end) / every + 1
    &&& forall|i: int| 0 <= i < dates.len() ==> #[trigger] dates[i]@ == years_later(start, i * every)
}

/// A delta that applies on the month and day of `start`, every `skip_years + 1` years, up to
/// `end`.
pub struct YearlyDelta {
    name: String,
    value: i64,
    uncertainty: Option<Uncertainty>,
    start: Date,
    end: Date,
    skip_years: u16,
    dates: Vec<Date>,
}

fn build_dates(start: &Date, end: &Date, every: u32) -> (r: Result<Vec<Date>, MoolahCoreError>)
    requires
        1 <= every <= 0x1_0000,
        !end@.precedes(start@),
    ensures
        r matches Ok(dates) && yearly_dates(dates@, start@, end@, every as int),
{
    let _ = start.num_days_from_ce();
    let _ = end.num_days_from_ce();
    let years = (end.year() as i64 - start.year() as i64) as u32;
    let last = MultiYearDuration::new(years).try_add(*start)?;
    let before = last.is_after(end);
    let span: i64 = years as i64 - (if before { 1 } else { 0 });
    let n = span / every as i64;
    let mut dates: Vec<Date> = Vec::new();
    let mut i: i64 = 0;
    while i <= n
        invariant
            0 <= i <= n + 1,
            whole_years(start@, end@) == span,
            0 <= span <= 0x10_0000,
            n as int == span as int / (every as int),
            1 <= every <= 0x1_0000,
            start@.is_valid(),
            end@.is_valid(),
            dates@.len() == i,
            forall|j: int| 0 <= j < i ==> #[trigger] dates@[j]@ == years_later(start@, j * every),
        decreases n + 1 - i,
    {
        assert(0 <= i * every <= span) by (nonlinear_arith)
            requires
                0 <= i <= n,
                n as int == span as int / (every as int),
                1 <= every,
                0 <= span,
        ;
        let d = MultiYearDuration::new((i * every as i64) as u32).try_add(*start)?;
        dates.push(d);
        i = i + 1;
    }
    Ok(dates)
}

impl YearlyDelta {
    /// A yearly schedule on the month and day of `start`; fails when explicit uncertainty
    /// bounds miss `value`, or when `start` comes after `end`.
    pub fn try_new(
        name: String,
        value: i64,
        uncertainty: Option<Uncertainty>,
        start: Date,
        end: Date,
        skip_years: u16,
    ) -> (r: Result<YearlyDelta, MoolahCoreError>)
        ensures
            !bounds_hold(value as int, uncertainty) ==> (uncertainty matches Some(
                Uncertainty::Bounds { low, high },
            ) && r == Err::<YearlyDelta, MoolahCoreError>(
                MoolahCoreError::IllogicalUncertaintyBounds { low, high, value },
            )),
            bounds_hold(value as int, uncertainty) && end@.precedes(start@) ==> r == Err::<
                YearlyDelta,
                MoolahCoreError,
            >(MoolahCoreError::StartAfterEnd { start, end }),
            r is Ok <==> bounds_hold(value as int, uncertainty) && !end@.precedes(start@),
            r matches Ok(d) ==> {
                &&& d.spec_name() == name@
                &&& d.spec_value() == value
                &&& d.spec_uncertainty() == uncertainty
                &&& d.spec_start() == start
                &&& d.spec_end() == end
                &&& d.spec_skip_years() == skip_years
                &&& yearly_dates(d.spec_dates(), start@, end@, skip_years + 1)
            },
    {
        check_uncertainty(value, &uncertainty)?;
        if start.is_after(&end) {
            return Err(MoolahCoreError::StartAfterEnd { start, end });
        }
        let dates = build_dates(&start, &end, skip_years as u32 + 1)?;
        Ok(YearlyDelta { name, value, uncertainty, start, end, skip_years, dates })
    }

    pub closed spec fn spec_start(&self) -> Date {
        self.start
    }

    pub fn start(&self) -> (r: &Date)
        ensures
            *r == self.spec_start(),
    {
        &self.start
    }

    pub closed spec fn spec_end(&self) -> Date {
        self.end
    }

    pub fn end(&self) -> (r: &Date)
        ensures
            *r == self.spec_end(),
    {
        &self.end
    }

    pub closed spec fn spec_skip_years(&self) -> u16 {
        self.skip_years
    }

    pub fn skip_years(&self) -> (r: u16)
        ensures
            r == self.spec_skip_years(),
    {
        self.skip_years
    }
}

impl Delta for YearlyDelta {
    closed spec fn spec_name(&self) -> Seq<char> {
        self.name@
    }

    closed spec fn spec_value(&self) -> int {
        self.value as int
    }

    closed spec fn spec_uncertainty(&self) -> Option<Uncertainty> {
        self.uncertainty
    }

    closed spec fn spec_dates(&self) -> Seq<Date> {
        self.dates@
    }

    fn name(&self) -> (r: &str) {
        self.name.as_str()
    }

    fn value(&self) -> (r: i64) {
        self.value
    }

    fn uncertainty(&self) -> (r: &Option<Uncertainty>) {
        &self.uncertainty
    }

    fn dates(&self) -> (r: &[Date]) {
        self.dates.as_slice()
    }
}

impl Default for YearlyDelta {
    /// A nameless delta of value zero that applies today only.
    fn default() -> (r: YearlyDelta)
        ensures
            r.spec_name().len() == 0,
            r.spec_value() == 0,
            r.spec_uncertainty() is None,
            r.spec_start() == r.spec_end(),
            r.spec_skip_years() == 0,
            r.spec_dates() == seq![r.spec_start()],
    {
        let today = today();
        YearlyDelta {
            name: String::new(),
            value: 0,
            uncertainty: None,
            start: today,
            end: today,
            skip_years: 0,
            dates: vec![today],
        }
    }
}

} // verus!
