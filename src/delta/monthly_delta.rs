pub mod add_months;

use super::{bounds_hold, check_uncertainty, Delta, Uncertainty};
use crate::date::{today, Date, DateView};
use crate::errors::MoolahCoreError;
pub use add_months::{months_later, MonthDay, MultiMonthDuration};
use add_months::add_months;
use vstd::prelude::*;

verus! {

/// Months counted from January of year 0.
pub open spec fn month_index(d: DateView) -> int {
    d.year * 12 + d.month - 1
}

/// Months from the month of `start` to the first month whose occurrence on `day` is not
/// before `start`.
pub open spec fn first_month_offset(start: DateView, day: int) -> int {
    if start.day > day { 1 } else { 0 }
}

/// Index of the last month whose occurrence on `day` is not after `end`.
pub open spec fn last_month(end: DateView, day: int) -> int {
    month_index(end) - (if end.day < day { 1int } else { 0int })
}

/// The dates of a monthly schedule: day `day` (or the last day of a shorter month) of every
/// `every` months, from the first occurrence on or after `start` to the last on or before `end`.
pub open spec fn monthly_dates(dates: Seq<Date>, start: DateView, end: DateView, day: int, every: int) -> bool {
    let first = month_index(start) + first_month_offset(start, day);
    let last = last_month(end, day);
    if first <= last {
        &&& dates.len() == (last - first) / every + 1
        &&& forall|i: int|
            0 <= i < dates.len() ==> #[trigger] dates[i]@ == months_later(
                start,
                day,
                first_month_offset(start, day) + i * every,
            )
    } else {
        dates.len() == 0
    }
}

/// A delta that applies on one day of the month, every `skip_months + 1` months, between
/// `start` and `end`.
pub struct MonthlyDelta {
    name: String,
    value: i64,
    uncertainty: Option<Uncertainty>,
    start: Date,
    end: Date,
    on_month_day: MonthDay,
    skip_months: u16,
    dates: Vec<Date>,
}

proof fn lemma_year_in_reach(sy: int, sm: int, k: int, ey: int, em: int)
    requires
        1 <= sm <= 12,
        1 <= em <= 12,
        0 <= k,
        sy * 12 + sm - 1 + k <= ey * 12 + em - 1,
    ensures
        sy + (sm - 1 + k) / 12 <= ey,
{
    let x = sm - 1 + k;
    assert(x / 12 <= ey - sy) by (nonlinear_arith)
        requires
            0 <= x,
            x <= (ey - sy) * 12 + 11,
    ;
}

fn build_dates(start: &Date, end: &Date, on_month_day: &MonthDay, every: i64) -> (r: Result<
    Vec<Date>,
    MoolahCoreError,
>)
    requires
        1 <= every <= 0x1_0000,
        !end@.precedes(start@),
    ensures
        r matches Ok(dates) && monthly_dates(dates@, start@, end@, on_month_day@, every as int),
{
    let _ = start.num_days_from_ce();
    let _ = end.num_days_from_ce();
    let day = on_month_day.day();
    let offset: i64 = if start.day() > day { 1 } else { 0 };
    let first: i64 = start.year() as i64 * 12 + start.month() as i64 - 1 + offset;
    let last: i64 = end.year() as i64 * 12 + end.month() as i64 - 1 - (if end.day() < day { 1 } else { 0 });
    let mut dates: Vec<Date> = Vec::new();
    if first > last {
        return Ok(dates);
    }
    let n = (last - first) / every;
    let mut i: i64 = 0;
    while i <= n
        invariant
            0 <= i <= n + 1,
            n as int == (last - first) / (every as int),
            first <= last,
            n <= last - first,
            1 <= every <= 0x1_0000,
            first == month_index(start@) + first_month_offset(start@, day as int),
            offset == first_month_offset(start@, day as int),
            last == last_month(end@, day as int),
            day == on_month_day@,
            1 <= day <= 31,
            start@.is_valid(),
            end@.is_valid(),
            dates@.len() == i,
            forall|j: int|
                0 <= j < i ==> #[trigger] dates@[j]@ == months_later(
                    start@,
                    day as int,
                    offset + j * every,
                ),
        decreases n + 1 - i,
    {
        assert(0 <= i * every <= last - first) by (nonlinear_arith)
            requires
                0 <= i <= n,
                n as int == (last - first) / (every as int),
                1 <= every,
                first <= last,
        ;
        let k = offset + i * every;
        proof {
            lemma_year_in_reach(start@.year, start@.month, k as int, end@.year, end@.month);
        }
        let d = add_months(start, day, k as u32)?;
        dates.push(d);
        i = i + 1;
    }
    Ok(dates)
}

impl MonthlyDelta {
    /// A monthly schedule on day `on_month_day` (the last day of shorter months); fails when
    /// explicit uncertainty bounds miss `value`, when `start` comes after `end`, or when
    /// `on_month_day` is not in `1..=31`.
    pub fn try_new(
        name: String,
        value: i64,
        uncertainty: Option<Uncertainty>,
        start: Date,
        end: Date,
        on_month_day: u8,
        skip_months: u16,
    ) -> (r: Result<MonthlyDelta, MoolahCoreError>)
        ensures
            !bounds_hold(value as int, uncertainty) ==> (uncertainty matches Some(
                Uncertainty::Bounds { low, high },
            ) && r == Err::<MonthlyDelta, MoolahCoreError>(
                MoolahCoreError::IllogicalUncertaintyBounds { low, high, value },
            )),
            bounds_hold(value as int, uncertainty) && end@.precedes(start@) ==> r == Err::<
                MonthlyDelta,
                MoolahCoreError,
            >(MoolahCoreError::StartAfterEnd { start, end }),
            bounds_hold(value as int, uncertainty) && !end@.precedes(start@) && !(1 <= on_month_day
                <= 31) ==> r == Err::<MonthlyDelta, MoolahCoreError>(
                MoolahCoreError::MonthDayOutOfRange(on_month_day as i64),
            ),
            r is Ok <==> bounds_hold(value as int, uncertainty) && !end@.precedes(start@) && 1
                <= on_month_day <= 31,
            r matches Ok(d) ==> {
                &&& d.spec_name() == name@
                &&& d.spec_value() == value
                &&& d.spec_uncertainty() == uncertainty
                &&& d.spec_start() == start
                &&& d.spec_end() == end
                &&& d.spec_on_month_day()@ == on_month_day
                &&& d.spec_skip_months() == skip_months
                &&& monthly_dates(d.spec_dates(), start@, end@, on_month_day as int, skip_months + 1)
            },
    {
        check_uncertainty(value, &uncertainty)?;
        if start.is_after(&end) {
            return Err(MoolahCoreError::StartAfterEnd { start, end });
        }
        let month_day = MonthDay::try_new(on_month_day as i64)?;
        let dates = build_dates(&start, &end, &month_day, skip_months as i64 + 1)?;
        Ok(MonthlyDelta {
            name,
            value,
            uncertainty,
            start,
            end,
            on_month_day: month_day,
            skip_months,
            dates,
        })
    }

    pub closed spec fn spec_start(&self) -> Date {
        self.start
    }

    pub fn start(&self) -> (r: &Date)
        ensures
            *r == self.spec_start(),
    {
        &self.start
    }

    pub closed spec fn spec_end(&self) -> Date {
        self.end
    }

    pub fn end(&self) -> (r: &Date)
        ensures
            *r == self.spec_end(),
    {
        &self.end
    }

    pub closed spec fn spec_on_month_day(&self) -> MonthDay {
        self.on_month_day
    }

    pub fn on_month_day(&self) -> (r: &MonthDay)
        ensures
            *r == self.spec_on_month_day(),
    {
        &self.on_month_day
    }

    pub closed spec fn spec_skip_months(&self) -> u16 {
        self.skip_months
    }

    pub fn skip_months(&self) -> (r: u16)
        ensures
            r == self.spec_skip_months(),
    {
        self.skip_months
    }
}

impl Delta for MonthlyDelta {
    closed spec fn spec_name(&self) -> Seq<char> {
        self.name@
    }

    closed spec fn spec_value(&self) -> int {
        self.value as int
    }

    closed spec fn spec_uncertainty(&self) -> Option<Uncertainty> {
        self.uncertainty
    }

    closed spec fn spec_dates(&self) -> Seq<Date> {
        self.dates@
    }

    fn name(&self) -> (r: &str) {
        self.name.as_str()
    }

    fn value(&self) -> (r: i64) {
        self.value
    }

    fn uncertainty(&self) -> (r: &Option<Uncertainty>) {
        &self.uncertainty
    }

    fn dates(&self) -> (r: &[Date]) {
        self.dates.as_slice()
    }
}

impl Default for MonthlyDelta {
    /// A nameless delta of value zero that applies today only, on the first of the month.
    fn default() -> (r: MonthlyDelta)
        ensures
            r.spec_name().len() == 0,
            r.spec_value() == 0,
            r.spec_uncertainty() is None,
            r.spec_start() == r.spec_end(),
            r.spec_on_month_day()@ == 1,
            r.spec_skip_months() == 0,
            r.spec_dates() == seq![r.spec_start()],
    {
        let today = today();
        MonthlyDelta {
            name: String::new(),
            value: 0,
            uncertainty: None,
            start: today,
            end: today,
            on_month_day: MonthDay::default(),
            skip_months: 0,
            dates: vec![today],
        }
    }
}

} // verus!
