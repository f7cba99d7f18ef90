use super::{bounds_hold, check_uncertainty, Delta, Uncertainty};
use crate::date::{
    lemma_day_number_bounds, lemma_number_increases, max_day_number, min_day_number, today, Date,
};
use crate::errors::MoolahCoreError;
use vstd::prelude::*;

verus! {

/// `dates` holds, in order, the days numbered from `first` on every `every` days, up to `last`.
pub open spec fn stepped_dates(dates: Seq<Date>, first: int, last: int, every: int) -> bool {
    &&& dates.len() == (last - first) / every + 1
    &&& forall|i: int|
        0 <= i < dates.len() ==> #[trigger] dates[i]@.is_valid() && dates[i]@.number() == first + i
            * every
}

/// A delta that applies every `skip_days + 1` days from `start` to `end`, both included.
pub struct DailyDelta {
    name: String,
    value: i64,
    uncertainty: Option<Uncertainty>,
    start: Date,
    end: Date,
    skip_days: u32,
    dates: Vec<Date>,
}

/// The dates from `start` on every `every` days, up to `end`.
pub(crate) fn step_dates(start: &Date, end: &Date, every: i64) -> (r: Vec<Date>)
    requires
        1 <= every <= 0x8_0000_0000,
        start@.number() <= end@.number(),
    ensures
        stepped_dates(r@, start@.number(), end@.number(), every as int),
{
    let first = start.num_days_from_ce() as i64;
    let last = end.num_days_from_ce() as i64;
    let n = (last - first) / every;
    proof {
        lemma_day_number_bounds();
    }
    let mut dates: Vec<Date> = Vec::new();
    let mut i: i64 = 0;
    while i <= n
        invariant
            0 <= i <= n + 1,
            n as int == (last - first) / (every as int),
            start@.number() == first,
            end@.number() == last,
            first <= last,
            1 <= every <= 0x8_0000_0000,
            min_day_number() <= first <= last <= max_day_number(),
            -95746129 <= first <= last <= 95745399,
            n <= last - first,
            dates@.len() == i,
            forall|j: int|
                0 <= j < i ==> #[trigger] dates@[j]@.is_valid() && dates@[j]@.number() == first as int
                    + j * every as int,
        decreases n + 1 - i,
    {
        assert(0 <= i * every <= last - first) by (nonlinear_arith)
            requires
                0 <= i <= n,
                n as int == (last - first) / (every as int),
                1 <= every,
                first <= last,
        ;
        let d = start.checked_add_days(i * every).unwrap();
        dates.push(d);
        i = i + 1;
    }
    dates
}

impl DailyDelta {
    /// A daily schedule; fails when explicit uncertainty bounds miss `value`, or when `start`
    /// comes after `end`.
    pub fn try_new(
        name: String,
        value: i64,
        uncertainty: Option<Uncertainty>,
        start: Date,
        end: Date,
        skip_days: u32,
    ) -> (r: Result<DailyDelta, MoolahCoreError>)
        ensures
            !bounds_hold(value as int, uncertainty) ==> (uncertainty matches Some(
                Uncertainty::Bounds { low, high },
            ) && r == Err::<DailyDelta, MoolahCoreError>(
                MoolahCoreError::IllogicalUncertaintyBounds { low, high, value },
            )),
            bounds_hold(value as int, uncertainty) && end@.precedes(start@) ==> r == Err::<
                DailyDelta,
                MoolahCoreError,
            >(MoolahCoreError::StartAfterEnd { start, end }),
            r is Ok <==> bounds_hold(value as int, uncertainty) && !end@.precedes(start@),
            r matches Ok(d) ==> {
                &&& d.spec_name() == name@
                &&& d.spec_value() == value
                &&& d.spec_uncertainty() == uncertainty
                &&& d.spec_start() == start
                &&& d.spec_end() == end
                &&& d.spec_skip_days() == skip_days
                &&& stepped_dates(d.spec_dates(), start@.number(), end@.number(), skip_days + 1)
            },
    {
        check_uncertainty(value, &uncertainty)?;
        if start.is_after(&end) {
            return Err(MoolahCoreError::StartAfterEnd { start, end });
        }
        let _ = start.num_days_from_ce();
        let _ = end.num_days_from_ce();
        proof {
            if start@.precedes(end@) {
                lemma_number_increases(start@, end@);
            }
        }
        let dates = step_dates(&start, &end, skip_days as i64 + 1);
        Ok(DailyDelta { name, value, uncertainty, start, end, skip_days, dates })
    }

    pub closed spec fn spec_start(&self) -> Date {
        self.start
    }

    pub closed spec fn spec_end(&self) -> Date {
        self.end
    }

    pub closed spec fn spec_skip_days(&self) -> u32 {
        self.skip_days
    }

    pub fn start(&self) -> (r: &Date)
        ensures
            *r == self.spec_start(),
    {
        &self.start
    }

    pub fn end(&self) -> (r: &Date)
        ensures
            *r == self.spec_end(),
    {
        &self.end
    }

    pub fn skip_days(&self) -> (r: u32)
        ensures
            r == self.spec_skip_days(),
    {
        self.skip_days
    }
}

impl Delta for DailyDelta {
    closed spec fn spec_name(&self) -> Seq<char> {
        self.name@
    }

    closed spec fn spec_value(&self) -> int {
        self.value as int
    }

    closed spec fn spec_uncertainty(&self) -> Option<Uncertainty> {
        self.uncertainty
    }

    closed spec fn spec_dates(&self) -> Seq<Date> {
        self.dates@
    }

    fn name(&self) -> (r: &str) {
        self.name.as_str()
    }

    fn value(&self) -> (r: i64) {
        self.value
    }

    fn uncertainty(&self) -> (r: &Option<Uncertainty>) {
        &self.uncertainty
    }

    fn dates(&self) -> (r: &[Date]) {
        self.dates.as_slice()
    }
}

impl Default for DailyDelta {
    /// A nameless delta of value zero that applies today only.
    fn default() -> (r: DailyDelta)
        ensures
            r.spec_name().len() == 0,
            r.spec_value() == 0,
            r.spec_uncertainty() is None,
            r.spec_start() == r.spec_end(),
            r.spec_skip_days() == 0,
            r.spec_dates() == seq![r.spec_start()],
    {
        let today = today();
        DailyDelta {
            name: String::new(),
            value: 0,
            uncertainty: None,
            start: today,
            end: today,
            skip_days: 0,
            dates: vec![today],
        }
    }
}

} // verus!
