use super::daily_delta::{step_dates, stepped_dates};
use super::{bounds_hold, check_uncertainty, Delta, Uncertainty};
use crate::date::{
    lemma_number_increases, max_day_number, min_day_number, today, Date, DateView, Weekday,
};
use crate::errors::MoolahCoreError;
use vstd::prelude::*;

verus! {

/// Number of the first day on or after `date` that falls on `weekday`.
pub open spec fn next_weekday_number(date: DateView, weekday: Weekday) -> int {
    date.number() + (weekday.index() - date.weekday_index()) % 7
}

/// Number of the last day on or before `date` that falls on `weekday`.
pub open spec fn prev_weekday_number(date: DateView, weekday: Weekday) -> int {
    date.number() - (date.weekday_index() - weekday.index()) % 7
}

/// The dates of a weekly schedule: each `weekday` from the first on or after `start`, every
/// `every_weeks` weeks, up to the last on or before `end`; none when those two cross.
pub open spec fn weekly_dates(
    dates: Seq<Date>,
    start: DateView,
    end: DateView,
    weekday: Weekday,
    every_weeks: int,
) -> bool {
    let first = next_weekday_number(start, weekday);
    let last = prev_weekday_number(end, weekday);
    if first <= last {
        stepped_dates(dates, first, last, 7 * every_weeks)
    } else {
        dates.len() == 0
    }
}

/// A delta that applies on one day of the week, every `skip_weeks + 1` weeks, between `start`
/// and `end`.
pub struct WeeklyDelta {
    name: String,
    value: i64,
    uncertainty: Option<Uncertainty>,
    start: Date,
    end: Date,
    on_weekday: Weekday,
    skip_weeks: u32,
    dates: Vec<Date>,
}

/// The first date on or after `date` that falls on `weekday`; `None` past the supported range.
pub fn round_up_to_next_weekday(date: &Date, weekday: &Weekday) -> (r: Option<Date>)
    ensures
        r matches Some(d) ==> d@.number() == next_weekday_number(date@, *weekday),
        r is None ==> next_weekday_number(date@, *weekday) > max_day_number(),
{
    let _ = date.num_days_from_ce();
    let days = (weekday.num_days_from_monday() as i64 + 7 - date.weekday().num_days_from_monday() as i64) % 7;
    assert(days == (weekday.index() - date@.weekday_index()) % 7);
    date.checked_add_days(days)
}

/// The last date on or before `date` that falls on `weekday`; `None` before the supported
/// range.
pub fn round_back_to_prev_weekday(date: &Date, weekday: &Weekday) -> (r: Option<Date>)
    ensures
        r matches Some(d) ==> d@.number() == prev_weekday_number(date@, *weekday),
        r is None ==> prev_weekday_number(date@, *weekday) < min_day_number(),
{
    let _ = date.num_days_from_ce();
    let days = (date.weekday().num_days_from_monday() as i64 + 7 - weekday.num_days_from_monday() as i64) % 7;
    assert(days == (date@.weekday_index() - weekday.index()) % 7);
    date.checked_add_days(-days)
}

fn build_dates(start: &Date, end: &Date, on_weekday: &Weekday, every_weeks: i64) -> (r: Vec<Date>)
    requires
        1 <= every_weeks <= 0x1_0000_0000,
        start@.number() <= end@.number(),
    ensures
        weekly_dates(r@, start@, end@, *on_weekday, every_weeks as int),
{
    let _ = start.num_days_from_ce();
    let _ = end.num_days_from_ce();
    match (round_up_to_next_weekday(start, on_weekday), round_back_to_prev_weekday(end, on_weekday)) {
        (Some(first), Some(last)) => {
            if first.num_days_from_ce() <= last.num_days_from_ce() {
                step_dates(&first, &last, 7 * every_weeks)
            } else {
                Vec::new()
            }
        },
        _ => Vec::new(),
    }
}

impl WeeklyDelta {
    /// A weekly schedule on `on_weekday`, or on the weekday of `start` when none is given;
    /// fails when explicit uncertainty bounds miss `value`, or when `start` comes after `end`.
    pub fn try_new(
        name: String,
        value: i64,
        uncertainty: Option<Uncertainty>,
        start: Date,
        end: Date,
        on_weekday: Option<Weekday>,
        skip_weeks: u32,
    ) -> (r: Result<WeeklyDelta, MoolahCoreError>)
        ensures
            !bounds_hold(value as int, uncertainty) ==> (uncertainty matches Some(
                Uncertainty::Bounds { low, high },
            ) && r == Err::<WeeklyDelta, MoolahCoreError>(
                MoolahCoreError::IllogicalUncertaintyBounds { low, high, value },
            )),
            bounds_hold(value as int, uncertainty) && end@.precedes(start@) ==> r == Err::<
                WeeklyDelta,
                MoolahCoreError,
            >(MoolahCoreError::StartAfterEnd { start, end }),
            r is Ok <==> bounds_hold(value as int, uncertainty) && !end@.precedes(start@),
            r matches Ok(d) ==> {
                &&& d.spec_name() == name@
                &&& d.spec_value() == value
                &&& d.spec_uncertainty() == uncertainty
                &&& d.spec_start() == start
                &&& d.spec_end() == end
                &&& d.spec_skip_weeks() == skip_weeks
                &&& match on_weekday {
                    Some(w) => d.spec_on_weekday() == w,
                    None => d.spec_on_weekday().index() == start@.weekday_index(),
                }
                &&& weekly_dates(d.spec_dates(), start@, end@, d.spec_on_weekday(), skip_weeks + 1)
            },
    {
        check_uncertainty(value, &uncertainty)?;
        if start.is_after(&end) {
            return Err(MoolahCoreError::StartAfterEnd { start, end });
        }
        let _ = start.num_days_from_ce();
        let _ = end.num_days_from_ce();
        proof {
            if start@.precedes(end@) {
                lemma_number_increases(start@, end@);
            }
        }
        let weekday = match on_weekday {
            Some(w) => w,
            None => start.weekday(),
        };
        let dates = build_dates(&start, &end, &weekday, skip_weeks as i64 + 1);
        Ok(WeeklyDelta { name, value, uncertainty, start, end, on_weekday: weekday, skip_weeks, dates })
    }

    pub closed spec fn spec_start(&self) -> Date {
        self.start
    }

    pub fn start(&self) -> (r: &Date)
        ensures
            *r == self.spec_start(),
    {
        &self.start
    }

    pub closed spec fn spec_end(&self) -> Date {
        self.end
    }

    pub fn end(&self) -> (r: &Date)
        ensures
            *r == self.spec_end(),
    {
        &self.end
    }

    pub closed spec fn spec_on_weekday(&self) -> Weekday {
        self.on_weekday
    }

    pub fn on_weekday(&self) -> (r: &Weekday)
        ensures
            *r == self.spec_on_weekday(),
    {
        &self.on_weekday
    }

    pub closed spec fn spec_skip_weeks(&self) -> u32 {
        self.skip_weeks
    }

    pub fn skip_weeks(&self) -> (r: u32)
        ensures
            r == self.spec_skip_weeks(),
    {
        self.skip_weeks
    }
}

impl Delta for WeeklyDelta {
    closed spec fn spec_name(&self) -> Seq<char> {
        self.name@
    }

    closed spec fn spec_value(&self) -> int {
        self.value as int
    }

    closed spec fn spec_uncertainty(&self) -> Option<Uncertainty> {
        self.uncertainty
    }

    closed spec fn spec_dates(&self) -> Seq<Date> {
        self.dates@
    }

    fn name(&self) -> (r: &str) {
        self.name.as_str()
    }

    fn value(&self) -> (r: i64) {
        self.value
    }

    fn uncertainty(&self) -> (r: &Option<Uncertainty>) {
        &self.uncertainty
    }

    fn dates(&self) -> (r: &[Date]) {
        self.dates.as_slice()
    }
}

impl Default for WeeklyDelta {
    /// A nameless delta of value zero that applies today only, on Mondays.
    fn default() -> (r: WeeklyDelta)
        ensures
            r.spec_name().len() == 0,
            r.spec_value() == 0,
            r.spec_uncertainty() is None,
            r.spec_start() == r.spec_end(),
            r.spec_on_weekday() == Weekday::Mon,
            r.spec_skip_weeks() == 0,
            r.spec_dates() == seq![r.spec_start()],
    {
        let today = today();
        WeeklyDelta {
            name: String::new(),
            value: 0,
            uncertainty: None,
            start: today,
            end: today,
            on_weekday: Weekday::Mon,
            skip_weeks: 0,
            dates: vec![today],
        }
    }
}

} // verus!
