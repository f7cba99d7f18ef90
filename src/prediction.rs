use crate::date::{lemma_number_injective, lemma_view_injective, today, Date, DateView};
use crate::delta::abs;
use crate::delta::{
    max_bound, min_bound, CustomDelta, DailyDelta, Delta, MonthlyDelta, OneTimeDelta, Uncertainty,
    WeeklyDelta, YearlyDelta,
};
use vstd::prelude::*;

verus! {

/// Any of the kinds of delta that a prediction can hold.
pub enum AnyDelta {
    OneTime(OneTimeDelta),
    Custom(CustomDelta),
    Daily(DailyDelta),
    Weekly(WeeklyDelta),
    Monthly(MonthlyDelta),
    Yearly(YearlyDelta),
}

impl Delta for AnyDelta {
    open spec fn spec_name(&self) -> Seq<char> {
        match self {
            AnyDelta::OneTime(d) => d.spec_name(),
            AnyDelta::Custom(d) => d.spec_name(),
            AnyDelta::Daily(d) => d.spec_name(),
            AnyDelta::Weekly(d) => d.spec_name(),
            AnyDelta::Monthly(d) => d.spec_name(),
            AnyDelta::Yearly(d) => d.spec_name(),
        }
    }

    open spec fn spec_value(&self) -> int {
        match self {
            AnyDelta::OneTime(d) => d.spec_value(),
            AnyDelta::Custom(d) => d.spec_value(),
            AnyDelta::Daily(d) => d.spec_value(),
            AnyDelta::Weekly(d) => d.spec_value(),
            AnyDelta::Monthly(d) => d.spec_value(),
            AnyDelta::Yearly(d) => d.spec_value(),
        }
    }

    open spec fn spec_uncertainty(&self) -> Option<Uncertainty> {
        match self {
            AnyDelta::OneTime(d) => d.spec_uncertainty(),
            AnyDelta::Custom(d) => d.spec_uncertainty(),
            AnyDelta::Daily(d) => d.spec_uncertainty(),
            AnyDelta::Weekly(d) => d.spec_uncertainty(),
            AnyDelta::Monthly(d) => d.spec_uncertainty(),
            AnyDelta::Yearly(d) => d.spec_uncertainty(),
        }
    }

    open spec fn spec_dates(&self) -> Seq<Date> {
        match self {
            AnyDelta::OneTime(d) => d.spec_dates(),
            AnyDelta::Custom(d) => d.spec_dates(),
            AnyDelta::Daily(d) => d.spec_dates(),
            AnyDelta::Weekly(d) => d.spec_dates(),
            AnyDelta::Monthly(d) => d.spec_dates(),
            AnyDelta::Yearly(d) => d.spec_dates(),
        }
    }

    fn name(&self) -> (r: &str) {
        match self {
            AnyDelta::OneTime(d) => d.name(),
            AnyDelta::Custom(d) => d.name(),
            AnyDelta::Daily(d) => d.name(),
            AnyDelta::Weekly(d) => d.name(),
            AnyDelta::Monthly(d) => d.name(),
            AnyDelta::Yearly(d) => d.name(),
        }
    }

    fn value(&self) -> (r: i64) {
        match self {
            AnyDelta::OneTime(d) => d.value(),
            AnyDelta::Custom(d) => d.value(),
            AnyDelta::Daily(d) => d.value(),
            AnyDelta::Weekly(d) => d.value(),
            AnyDelta::Monthly(d) => d.value(),
            AnyDelta::Yearly(d) => d.value(),
        }
    }

    fn uncertainty(&self) -> (r: &Option<Uncertainty>) {
        match self {
            AnyDelta::OneTime(d) => d.uncertainty(),
            AnyDelta::Custom(d) => d.uncertainty(),
            AnyDelta::Daily(d) => d.uncertainty(),
            AnyDelta::Weekly(d) => d.uncertainty(),
            AnyDelta::Monthly(d) => d.uncertainty(),
            AnyDelta::Yearly(d) => d.uncertainty(),
        }
    }

    fn dates(&self) -> (r: &[Date]) {
        match self {
            AnyDelta::OneTime(d) => d.dates(),
            AnyDelta::Custom(d) => d.dates(),
            AnyDelta::Daily(d) => d.dates(),
            AnyDelta::Weekly(d) => d.dates(),
            AnyDelta::Monthly(d) => d.dates(),
            AnyDelta::Yearly(d) => d.dates(),
        }
    }
}

/// Which of the three running amounts of a forecast.
pub enum Bound {
    Nominal,
    Min,
    Max,
}

/// One application of a delta on one date.
pub struct Occurrence {
    pub date: Date,
    pub value: int,
    pub low: int,
    pub high: int,
    pub name: Seq<char>,
}

impl Occurrence {
    pub open spec fn day(self) -> int {
        self.date@.number()
    }

    pub open spec fn amount(self, b: Bound) -> int {
        match b {
            Bound::Nominal => self.value,
            Bound::Min => self.low,
            Bound::Max => self.high,
        }
    }
}

/// The nominal value, or the lowest or highest value, of one application of `d`.
pub open spec fn amount_of(d: AnyDelta, b: Bound) -> int {
    match b {
        Bound::Nominal => d.spec_value(),
        Bound::Min => min_bound(d.spec_value(), d.spec_uncertainty()),
        Bound::Max => max_bound(d.spec_value(), d.spec_uncertainty()),
    }
}

pub open spec fn occurrence_of(d: AnyDelta, date: Date) -> Occurrence {
    Occurrence {
        date,
        value: amount_of(d, Bound::Nominal),
        low: amount_of(d, Bound::Min),
        high: amount_of(d, Bound::Max),
        name: d.spec_name(),
    }
}

/// The occurrences of `d` among its first `k` dates whose day numbers lie in `lo..=hi`.
pub open spec fn delta_occurrences(d: AnyDelta, k: int, lo: int, hi: int) -> Seq<Occurrence>
    decreases k,
{
    if k <= 0 {
        Seq::empty()
    } else {
        let prev = delta_occurrences(d, k - 1, lo, hi);
        let date = d.spec_dates()[k - 1];
        if lo <= date@.number() <= hi {
            prev.push(occurrence_of(d, date))
        } else {
            prev
        }
    }
}

/// The occurrences of all `deltas`, in the order given, whose day numbers lie in `lo..=hi`.
pub open spec fn occurrences(deltas: Seq<AnyDelta>, lo: int, hi: int) -> Seq<Occurrence>
    decreases deltas.len(),
{
    if deltas.len() == 0 {
        Seq::empty()
    } else {
        let d = deltas.last();
        occurrences(deltas.drop_last(), lo, hi) + delta_occurrences(d, d.spec_dates().len() as int, lo, hi)
    }
}

/// Sum of the amounts of the occurrences on day `day`.
pub open spec fn sum_on(occs: Seq<Occurrence>, day: int, b: Bound) -> int
    decreases occs.len(),
{
    if occs.len() == 0 {
        0
    } else {
        sum_on(occs.drop_last(), day, b) + if occs.last().day() == day { occs.last().amount(b) } else { 0 }
    }
}

/// Sum of the amounts of the occurrences on or before day `day`.
pub open spec fn sum_through(occs: Seq<Occurrence>, day: int, b: Bound) -> int
    decreases occs.len(),
{
    if occs.len() == 0 {
        0
    } else {
        sum_through(occs.drop_last(), day, b) + if occs.last().day() <= day { occs.last().amount(b) } else { 0 }
    }
}

/// Sum of the magnitudes of the amounts.
pub open spec fn sum_abs(occs: Seq<Occurrence>, b: Bound) -> int
    decreases occs.len(),
{
    if occs.len() == 0 {
        0
    } else {
        sum_abs(occs.drop_last(), b) + abs(occs.last().amount(b))
    }
}

/// Names of the deltas of the occurrences on day `day`, in order.
pub open spec fn names_on(occs: Seq<Occurrence>, day: int) -> Seq<Seq<char>>
    decreases occs.len(),
{
    if occs.len() == 0 {
        Seq::empty()
    } else {
        let prev = names_on(occs.drop_last(), day);
        if occs.last().day() == day { prev.push(occs.last().name) } else { prev }
    }
}

pub open spec fn name_views(names: Seq<String>) -> Seq<Seq<char>> {
    names.map_values(|s: String| s@)
}

/// Totals of the deltas that apply on one date.
pub(crate) struct AggregatedDelta {
    pub(crate) value: i64,
    pub(crate) min_uncertainty_val: i64,
    pub(crate) max_uncertainty_val: i64,
    pub(crate) impactful_deltas: Vec<String>,
}

impl AggregatedDelta {
    pub(crate) open spec fn amount(&self, b: Bound) -> int {
        match b {
            Bound::Nominal => self.value as int,
            Bound::Min => self.min_uncertainty_val as int,
            Bound::Max => self.max_uncertainty_val as int,
        }
    }

    pub(crate) open spec fn names(&self) -> Seq<Seq<char>> {
        name_views(self.impactful_deltas@)
    }

    fn empty() -> (r: AggregatedDelta)
        ensures
            forall|b: Bound| r.amount(b) == 0,
            r.names() == Seq::<Seq<char>>::empty(),
    {
        let r = AggregatedDelta {
            value: 0,
            min_uncertainty_val: 0,
            max_uncertainty_val: 0,
            impactful_deltas: Vec::new(),
        };
        assert(r.names() =~= Seq::<Seq<char>>::empty());
        r
    }

    /// Adds one application of `delta`.
    pub(crate) fn update(&mut self, delta: &AnyDelta)
        requires
            forall|b: Bound| abs(old(self).amount(b) + amount_of(*delta, b)) <= i64::MAX,
        ensures
            forall|b: Bound| final(self).amount(b) == old(self).amount(b) + amount_of(*delta, b),
            final(self).names() == old(self).names().push(delta.spec_name()),
    {
        assert(abs(self.amount(Bound::Nominal) + amount_of(*delta, Bound::Nominal)) <= i64::MAX);
        assert(abs(self.amount(Bound::Min) + amount_of(*delta, Bound::Min)) <= i64::MAX);
        assert(abs(self.amount(Bound::Max) + amount_of(*delta, Bound::Max)) <= i64::MAX);
        self.value = self.value + delta.value();
        self.min_uncertainty_val = (self.min_uncertainty_val as i128 + delta.min_uncertainty_value()) as i64;
        self.max_uncertainty_val = (self.max_uncertainty_val as i128 + delta.max_uncertainty_value()) as i64;
        let ghost before = self.impactful_deltas@;
        self.impactful_deltas.push(delta.name().to_owned());
        assert(self.names() =~= name_views(before).push(delta.spec_name()));
    }
}


proof fn lemma_absent_day(occs: Seq<Occurrence>, day: int)
    requires
        forall|k: int| 0 <= k < occs.len() ==> #[trigger] occs[k].day() != day,
    ensures
        forall|b: Bound| sum_on(occs, day, b) == 0,
        names_on(occs, day) == Seq::<Seq<char>>::empty(),
    decreases occs.len(),
{
    if occs.len() > 0 {
        let prev = occs.drop_last();
        assert forall|k: int| 0 <= k < prev.len() implies #[trigger] prev[k].day() != day by {
            assert(prev[k] == occs[k]);
        }
        lemma_absent_day(prev, day);
        assert(occs.last() == occs[occs.len() - 1]);
    }
    assert forall|b: Bound| sum_on(occs, day, b) == 0 by {
        if occs.len() > 0 {
            let prev = occs.drop_last();
            assert(occs.last() == occs[occs.len() - 1]);
            assert(sum_on(prev, day, b) == 0);
            assert(occs.last().day() != day);
        }
    }
}

proof fn lemma_sums_bounded(occs: Seq<Occurrence>, day: int, b: Bound)
    ensures
        abs(sum_on(occs, day, b)) <= sum_abs(occs, b),
        abs(sum_through(occs, day, b)) <= sum_abs(occs, b),
        0 <= sum_abs(occs, b),
    decreases occs.len(),
{
    if occs.len() > 0 {
        lemma_sums_bounded(occs.drop_last(), day, b);
    }
}

proof fn lemma_sum_abs_concat(a: Seq<Occurrence>, c: Seq<Occurrence>, b: Bound)
    ensures
        sum_abs(a + c, b) == sum_abs(a, b) + sum_abs(c, b),
    decreases c.len(),
{
    if c.len() == 0 {
        assert(a + c =~= a);
    } else {
        lemma_sum_abs_concat(a, c.drop_last(), b);
        assert((a + c).drop_last() =~= a + c.drop_last());
    }
}

proof fn lemma_delta_occurrences_grow(d: AnyDelta, j: int, k: int, lo: int, hi: int, b: Bound)
    requires
        0 <= j <= k,
    ensures
        sum_abs(delta_occurrences(d, j, lo, hi), b) <= sum_abs(delta_occurrences(d, k, lo, hi), b),
    decreases k - j,
{
    if j < k {
        lemma_delta_occurrences_grow(d, j, k - 1, lo, hi, b);
        let prev = delta_occurrences(d, k - 1, lo, hi);
        if delta_occurrences(d, k, lo, hi) != prev {
            assert(delta_occurrences(d, k, lo, hi).drop_last() =~= prev);
        }
    }
}

proof fn lemma_occurrences_step(deltas: Seq<AnyDelta>, i: int, lo: int, hi: int)
    requires
        0 <= i < deltas.len(),
    ensures
        occurrences(deltas.take(i + 1), lo, hi) == occurrences(deltas.take(i), lo, hi)
            + delta_occurrences(deltas[i], deltas[i].spec_dates().len() as int, lo, hi),
{
    assert(deltas.take(i + 1).drop_last() =~= deltas.take(i));
    assert(deltas.take(i + 1).last() == deltas[i]);
}

proof fn lemma_occurrences_grow(deltas: Seq<AnyDelta>, i: int, lo: int, hi: int, b: Bound)
    requires
        0 <= i <= deltas.len(),
    ensures
        sum_abs(occurrences(deltas.take(i), lo, hi), b) <= sum_abs(occurrences(deltas, lo, hi), b),
    decreases deltas.len() - i,
{
    if i < deltas.len() {
        lemma_occurrences_step(deltas, i, lo, hi);
        lemma_sum_abs_concat(
            occurrences(deltas.take(i), lo, hi),
            delta_occurrences(deltas[i], deltas[i].spec_dates().len() as int, lo, hi),
            b,
        );
        lemma_sums_bounded(delta_occurrences(deltas[i], deltas[i].spec_dates().len() as int, lo, hi), 0, b);
        lemma_occurrences_grow(deltas, i + 1, lo, hi, b);
    } else {
        assert(deltas.take(i) =~= deltas);
    }
}

/// With no occurrence strictly between days `a` and `c`, the running sum at `c` adds the
/// occurrences on `c` to the running sum at `a`.
proof fn lemma_through_step(occs: Seq<Occurrence>, a: int, c: int, b: Bound)
    requires
        a < c,
        forall|k: int| 0 <= k < occs.len() ==> !(a < #[trigger] occs[k].day() < c),
    ensures
        sum_through(occs, c, b) == sum_through(occs, a, b) + sum_on(occs, c, b),
    decreases occs.len(),
{
    if occs.len() > 0 {
        let prev = occs.drop_last();
        assert forall|k: int| 0 <= k < prev.len() implies !(a < #[trigger] prev[k].day() < c) by {
            assert(prev[k] == occs[k]);
        }
        lemma_through_step(prev, a, c, b);
        assert(occs.last() == occs[occs.len() - 1]);
    }
}

/// With no occurrence before day `c`, the running sum at `c` is the sum on `c`.
proof fn lemma_through_first(occs: Seq<Occurrence>, c: int, b: Bound)
    requires
        forall|k: int| 0 <= k < occs.len() ==> #[trigger] occs[k].day() >= c,
    ensures
        sum_through(occs, c, b) == sum_on(occs, c, b),
    decreases occs.len(),
{
    if occs.len() > 0 {
        let prev = occs.drop_last();
        assert forall|k: int| 0 <= k < prev.len() implies #[trigger] prev[k].day() >= c by {
            assert(prev[k] == occs[k]);
        }
        lemma_through_first(prev, c, b);
        assert(occs.last() == occs[occs.len() - 1]);
    }
}


proof fn lemma_push(seen: Seq<Occurrence>, o: Occurrence)
    ensures
        forall|x: int, b: Bound|
            #[trigger] sum_on(seen.push(o), x, b) == sum_on(seen, x, b) + if o.day() == x {
                o.amount(b)
            } else {
                0
            },
        forall|x: int|
            #[trigger] names_on(seen.push(o), x) == if o.day() == x {
                names_on(seen, x).push(o.name)
            } else {
                names_on(seen, x)
            },
{
    assert(seen.push(o).drop_last() =~= seen);
}

/// The totals of the occurrences on one date, with the date's number.
struct DayTotals {
    day: i32,
    date: Date,
    totals: AggregatedDelta,
}

impl DayTotals {
    spec fn matches(self, occs: Seq<Occurrence>) -> bool {
        &&& self.day == self.date@.number()
        &&& self.date@.is_valid()
        &&& forall|b: Bound| #[trigger] self.totals.amount(b) == sum_on(occs, self.day as int, b)
        &&& self.totals.names() == names_on(occs, self.day as int)
    }
}

spec fn has_day(bs: Seq<DayTotals>, day: int) -> bool {
    exists|i: int| 0 <= i < bs.len() && #[trigger] bs[i].day == day
}

/// Some occurrence falls on `date`.
pub open spec fn occurs_on(occs: Seq<Occurrence>, date: Date) -> bool {
    exists|k: int| 0 <= k < occs.len() && #[trigger] occs[k].date == date
}

/// `bs` holds, in increasing order of date, one entry for each date that is `start` or that
/// has an occurrence, with the totals of the occurrences on it.
spec fn well_grouped(bs: Seq<DayTotals>, occs: Seq<Occurrence>, start: Date) -> bool {
    &&& bs.len() >= 1
    &&& forall|i: int, j: int| 0 <= i < j < bs.len() ==> #[trigger] bs[i].day < #[trigger] bs[j].day
    &&& forall|i: int| 0 <= i < bs.len() ==> #[trigger] bs[i].matches(occs)
    &&& has_day(bs, start@.number())
    &&& forall|k: int| 0 <= k < occs.len() ==> has_day(bs, #[trigger] occs[k].day())
    &&& forall|i: int|
        0 <= i < bs.len() ==> (#[trigger] bs[i]).date == start || occurs_on(occs, bs[i].date)
}

/// Adds one application of `delta` on `date` to the entries.
fn add_occurrence(
    buckets: &mut Vec<DayTotals>,
    date: Date,
    day: i32,
    delta: &AnyDelta,
    Ghost(seen): Ghost<Seq<Occurrence>>,
    Ghost(start): Ghost<Date>,
)
    requires
        well_grouped(old(buckets)@, seen, start),
        day == date@.number(),
        date@.is_valid(),
        forall|b: Bound| sum_abs(seen.push(occurrence_of(*delta, date)), b) <= i64::MAX,
    ensures
        well_grouped(final(buckets)@, seen.push(occurrence_of(*delta, date)), start),
{
    let ghost o = occurrence_of(*delta, date);
    let ghost next = seen.push(o);
    let ghost old_bs = buckets@;
    proof {
        lemma_push(seen, o);
        assert forall|b: Bound| abs(#[trigger] sum_on(next, day as int, b)) <= i64::MAX by {
            lemma_sums_bounded(next, day as int, b);
        }
        assert forall|k: int| 0 <= k < seen.len() implies #[trigger] next[k] == seen[k] by {}
        assert(next[seen.len() as int] == o);
        assert forall|b: Bound| #[trigger] o.amount(b) == amount_of(*delta, b) by {
            match b {
                Bound::Nominal => {},
                Bound::Min => {},
                Bound::Max => {},
            }
        }
    }
    let mut p: usize = 0;
    while p < buckets.len() && buckets[p].day < day
        invariant
            p <= buckets.len(),
            buckets@ == old_bs,
            forall|i: int| 0 <= i < p ==> #[trigger] buckets@[i].day < day,
        decreases buckets.len() - p,
    {
        p = p + 1;
    }
    if p < buckets.len() && buckets[p].day == day {
        assert(buckets@[p as int].matches(seen));
        assert forall|b: Bound|
            abs(#[trigger] buckets@[p as int].totals.amount(b) + amount_of(*delta, b)) <= i64::MAX by {
            assert(sum_on(next, day as int, b) == sum_on(seen, day as int, b) + o.amount(b));
            assert(abs(sum_on(next, day as int, b)) <= i64::MAX);
        }
        buckets[p].totals.update(delta);
        proof {
            let bs = buckets@;
            assert forall|i: int| 0 <= i < bs.len() implies #[trigger] bs[i].matches(next) by {
                if i != p {
                    assert(bs[i] == old_bs[i]);
                    assert(old_bs[i].matches(seen));
                    if i < p {
                        assert(old_bs[i].day < old_bs[p as int].day);
                    } else {
                        assert(old_bs[p as int].day < old_bs[i].day);
                    }
                }
            }
            assert forall|k: int| 0 <= k < next.len() implies has_day(bs, #[trigger] next[k].day()) by {
                if k < seen.len() {
                    assert(has_day(old_bs, seen[k].day()));
                    let i = choose|i: int| 0 <= i < old_bs.len() && #[trigger] old_bs[i].day == seen[k].day();
                    assert(bs[i].day == old_bs[i].day);
                } else {
                    assert(bs[p as int].day == day);
                }
            }
            assert(has_day(bs, start@.number())) by {
                let i = choose|i: int| 0 <= i < old_bs.len() && #[trigger] old_bs[i].day == start@.number();
                assert(bs[i].day == old_bs[i].day);
            }
            assert forall|i: int| 0 <= i < bs.len() implies (#[trigger] bs[i]).date == start || occurs_on(next, bs[i].date) by {
                assert(bs[i].date == old_bs[i].date);
                if old_bs[i].date != start {
                    let k = choose|k: int| 0 <= k < seen.len() && #[trigger] seen[k].date == old_bs[i].date;
                    assert(next[k].date == bs[i].date);
                }
            }
            assert forall|i: int, j: int| 0 <= i < j < bs.len() implies #[trigger] bs[i].day < #[trigger] bs[j].day by {
                assert(bs[i].day == old_bs[i].day);
                assert(bs[j].day == old_bs[j].day);
            }
        }
    } else {
        proof {
            assert forall|k: int| 0 <= k < seen.len() implies #[trigger] seen[k].day() != day by {
                assert(has_day(old_bs, seen[k].day()));
                let i = choose|i: int| 0 <= i < old_bs.len() && #[trigger] old_bs[i].day == seen[k].day();
                if i >= p {
                    assert(old_bs[p as int].day <= old_bs[i].day);
                }
            }
            lemma_absent_day(seen, day as int);
        }
        let mut totals = AggregatedDelta::empty();
        assert forall|b: Bound| abs(#[trigger] totals.amount(b) + amount_of(*delta, b)) <= i64::MAX by {
            assert(sum_on(next, day as int, b) == sum_on(seen, day as int, b) + o.amount(b));
            assert(abs(sum_on(next, day as int, b)) <= i64::MAX);
        }
        totals.update(delta);
        buckets.insert(p, DayTotals { day, date, totals });
        proof {
            let bs = buckets@;
            assert forall|i: int| 0 <= i < bs.len() implies #[trigger] bs[i].matches(next) by {
                if i < p {
                    assert(bs[i] == old_bs[i]);
                    assert(old_bs[i].matches(seen));
                } else if i > p {
                    assert(bs[i] == old_bs[i - 1]);
                    assert(old_bs[i - 1].matches(seen));
                } else {
                    assert(bs[i].totals.names() =~= names_on(next, day as int));
                }
            }
            assert forall|k: int| 0 <= k < next.len() implies has_day(bs, #[trigger] next[k].day()) by {
                if k < seen.len() {
                    assert(has_day(old_bs, seen[k].day()));
                    let i = choose|i: int| 0 <= i < old_bs.len() && #[trigger] old_bs[i].day == seen[k].day();
                    if i < p {
                        assert(bs[i].day == old_bs[i].day);
                    } else {
                        assert(bs[i + 1].day == old_bs[i].day);
                    }
                } else {
                    assert(bs[p as int].day == day);
                }
            }
            assert(has_day(bs, start@.number())) by {
                let i = choose|i: int| 0 <= i < old_bs.len() && #[trigger] old_bs[i].day == start@.number();
                if i < p {
                    assert(bs[i].day == old_bs[i].day);
                } else {
                    assert(bs[i + 1].day == old_bs[i].day);
                }
            }
            assert forall|i: int| 0 <= i < bs.len() implies (#[trigger] bs[i]).date == start || occurs_on(next, bs[i].date) by {
                if i == p {
                    assert(next[seen.len() as int].date == date);
                } else {
                    let oi = if i < p { i } else { i - 1 };
                    assert(bs[i] == old_bs[oi]);
                    if old_bs[oi].date != start {
                        let k = choose|k: int| 0 <= k < seen.len() && #[trigger] seen[k].date == old_bs[oi].date;
                        assert(next[k].date == bs[i].date);
                    }
                }
            }
            assert forall|i: int, j: int| 0 <= i < j < bs.len() implies #[trigger] bs[i].day < #[trigger] bs[j].day by {
                let oi = if i < p { i } else { i - 1 };
                let oj = if j < p { j } else { j - 1 };
                if i != p {
                    assert(bs[i] == old_bs[oi]);
                }
                if j != p {
                    assert(bs[j] == old_bs[oj]);
                }
                if j == p && i < p {
                    assert(old_bs[i].day < day);
                }
                if i == p && p < old_bs.len() {
                    assert(old_bs[p as int].day > day);
                    assert(old_bs[p as int].day <= old_bs[oj].day);
                }
            }
        }
    }
}


/// A forecast of an amount: a starting value on a start date, changed by deltas.
pub struct Prediction {
    name: String,
    start: Date,
    initial_value: i64,
    deltas: Vec<AnyDelta>,
}

impl Prediction {
    pub fn new(name: String, start: Date, initial_value: i64, deltas: Vec<AnyDelta>) -> (r: Prediction)
        ensures
            r.spec_name() == name@,
            r.spec_start() == start,
            r.spec_initial_value() == initial_value,
            r.spec_deltas() == deltas@,
    {
        Prediction { name, start, initial_value, deltas }
    }

    pub closed spec fn spec_name(&self) -> Seq<char> {
        self.name@
    }

    pub closed spec fn spec_start(&self) -> Date {
        self.start
    }

    pub closed spec fn spec_initial_value(&self) -> int {
        self.initial_value as int
    }

    pub closed spec fn spec_deltas(&self) -> Seq<AnyDelta> {
        self.deltas@
    }

    pub fn name(&self) -> (r: &str)
        ensures
            r@ == self.spec_name(),
    {
        self.name.as_str()
    }

    pub fn start(&self) -> (r: &Date)
        ensures
            *r == self.spec_start(),
    {
        &self.start
    }

    pub fn initial_value(&self) -> (r: i64)
        ensures
            r == self.spec_initial_value(),
    {
        self.initial_value
    }

    pub fn deltas(&self) -> (r: &[AnyDelta])
        ensures
            r@ == self.spec_deltas(),
    {
        self.deltas.as_slice()
    }

    /// The applications of the deltas from the start date up to `end`, both included, in the
    /// order of the deltas and of their dates.
    pub open spec fn occurrences_until(&self, end: DateView) -> Seq<Occurrence> {
        occurrences(self.spec_deltas(), self.spec_start()@.number(), end.number())
    }

    /// The forecast up to `end` stays within 64-bit amounts: the starting value and the
    /// magnitudes of all applications up to `end` add up to at most `i64::MAX`.
    pub open spec fn fits_until(&self, end: DateView) -> bool {
        forall|b: Bound|
            abs(self.spec_initial_value()) + #[trigger] sum_abs(self.occurrences_until(end), b)
                <= i64::MAX
    }

    /// Groups the applications of the deltas from the start date up to `end` by date.
    fn aggregate_deltas(&self, end: &Date) -> (r: Vec<DayTotals>)
        requires
            self.fits_until(end@),
        ensures
            well_grouped(r@, self.occurrences_until(end@), self.spec_start()),
    {
        let lo = self.start.num_days_from_ce();
        let hi = end.num_days_from_ce();
        let ghost all = self.occurrences_until(end@);
        let ghost deltas = self.deltas@;
        let mut buckets: Vec<DayTotals> = Vec::new();
        buckets.push(DayTotals { day: lo, date: self.start, totals: AggregatedDelta::empty() });
        let ghost mut seen: Seq<Occurrence> = Seq::empty();
        proof {
            assert(buckets@[0].matches(seen));
            assert(deltas.take(0) =~= Seq::<AnyDelta>::empty());
        }
        let mut i: usize = 0;
        while i < self.deltas.len()
            invariant
                i <= self.deltas.len(),
                deltas == self.deltas@,
                lo == self.start@.number(),
                hi == end@.number(),
                all == occurrences(deltas, lo as int, hi as int),
                self.fits_until(end@),
                seen == occurrences(deltas.take(i as int), lo as int, hi as int),
                well_grouped(buckets@, seen, self.start),
            decreases self.deltas.len() - i,
        {
            let delta = &self.deltas[i];
            let dates = delta.dates();
            let ghost before = seen;
            let mut j: usize = 0;
            while j < dates.len()
                invariant
                    i < self.deltas.len(),
                    deltas == self.deltas@,
                    *delta == deltas[i as int],
                    dates@ == delta.spec_dates(),
                    j <= dates.len(),
                    lo == self.start@.number(),
                    hi == end@.number(),
                    all == occurrences(deltas, lo as int, hi as int),
                    self.fits_until(end@),
                    before == occurrences(deltas.take(i as int), lo as int, hi as int),
                    seen == before + delta_occurrences(*delta, j as int, lo as int, hi as int),
                    well_grouped(buckets@, seen, self.start),
                decreases dates.len() - j,
            {
                let date = dates[j];
                let day = date.num_days_from_ce();
                if lo <= day && day <= hi {
                    proof {
                        let o = occurrence_of(*delta, date);
                        assert(delta_occurrences(*delta, j + 1, lo as int, hi as int)
                            == delta_occurrences(*delta, j as int, lo as int, hi as int).push(o));
                        assert(seen.push(o) =~= before + delta_occurrences(*delta, j + 1, lo as int, hi as int));
                        assert forall|b: Bound| #[trigger] sum_abs(seen.push(o), b) <= i64::MAX by {
                            lemma_sum_abs_concat(before, delta_occurrences(*delta, j + 1, lo as int, hi as int), b);
                            lemma_delta_occurrences_grow(*delta, j + 1, dates.len() as int, lo as int, hi as int, b);
                            lemma_occurrences_step(deltas, i as int, lo as int, hi as int);
                            lemma_sum_abs_concat(before, delta_occurrences(*delta, dates.len() as int, lo as int, hi as int), b);
                            lemma_occurrences_grow(deltas, i + 1, lo as int, hi as int, b);
                            assert(abs(self.spec_initial_value()) + sum_abs(self.occurrences_until(end@), b)
                                <= i64::MAX);
                        }
                    }
                    add_occurrence(&mut buckets, date, day, delta, Ghost(seen), Ghost(self.start));
                    proof {
                        seen = seen.push(occurrence_of(*delta, date));
                    }
                } else {
                    proof {
                        assert(delta_occurrences(*delta, j + 1, lo as int, hi as int)
                            == delta_occurrences(*delta, j as int, lo as int, hi as int));
                    }
                }
                j = j + 1;
            }
            proof {
                lemma_occurrences_step(deltas, i as int, lo as int, hi as int);
            }
            i = i + 1;
        }
        proof {
            assert(deltas.take(deltas.len() as int) =~= deltas);
        }
        buckets
    }
}


/// One date of a forecast: the running value, its lowest and highest possible values, and
/// the names of the deltas that apply on that date.
#[derive(Debug, Clone, PartialEq)]
pub struct PredictionState {
    value: i64,
    min_uncertainty_val: i64,
    max_uncertainty_val: i64,
    impactful_deltas: Vec<String>,
}

impl PredictionState {
    pub fn new(
        value: i64,
        min_uncertainty_val: i64,
        max_uncertainty_val: i64,
        impactful_deltas: Vec<String>,
    ) -> (r: PredictionState)
        ensures
            r.spec_amount(Bound::Nominal) == value,
            r.spec_amount(Bound::Min) == min_uncertainty_val,
            r.spec_amount(Bound::Max) == max_uncertainty_val,
            r.spec_names() == name_views(impactful_deltas@),
    {
        PredictionState { value, min_uncertainty_val, max_uncertainty_val, impactful_deltas }
    }

    pub closed spec fn spec_amount(&self, b: Bound) -> int {
        match b {
            Bound::Nominal => self.value as int,
            Bound::Min => self.min_uncertainty_val as int,
            Bound::Max => self.max_uncertainty_val as int,
        }
    }

    pub closed spec fn spec_names(&self) -> Seq<Seq<char>> {
        name_views(self.impactful_deltas@)
    }

    pub fn value(&self) -> (r: i64)
        ensures
            r == self.spec_amount(Bound::Nominal),
    {
        self.value
    }

    pub fn min_uncertainty_val(&self) -> (r: i64)
        ensures
            r == self.spec_amount(Bound::Min),
    {
        self.min_uncertainty_val
    }

    pub fn max_uncertainty_val(&self) -> (r: i64)
        ensures
            r == self.spec_amount(Bound::Max),
    {
        self.max_uncertainty_val
    }

    pub fn impactful_deltas(&self) -> (r: &[String])
        ensures
            name_views(r@) == self.spec_names(),
    {
        self.impactful_deltas.as_slice()
    }

    /// The state after `previous` once the totals of one more date are added.
    fn from(previous: &PredictionState, delta_agg: &AggregatedDelta) -> (r: PredictionState)
        requires
            forall|b: Bound| abs(previous.spec_amount(b) + delta_agg.amount(b)) <= i64::MAX,
        ensures
            forall|b: Bound| r.spec_amount(b) == previous.spec_amount(b) + delta_agg.amount(b),
            r.spec_names() == delta_agg.names(),
    {
        assert(abs(previous.spec_amount(Bound::Nominal) + delta_agg.amount(Bound::Nominal)) <= i64::MAX);
        assert(abs(previous.spec_amount(Bound::Min) + delta_agg.amount(Bound::Min)) <= i64::MAX);
        assert(abs(previous.spec_amount(Bound::Max) + delta_agg.amount(Bound::Max)) <= i64::MAX);
        let mut names: Vec<String> = Vec::new();
        let mut i: usize = 0;
        while i < delta_agg.impactful_deltas.len()
            invariant
                i <= delta_agg.impactful_deltas.len(),
                names@.len() == i,
                forall|j: int| 0 <= j < i ==> #[trigger] names@[j]@ == delta_agg.impactful_deltas@[j]@,
            decreases delta_agg.impactful_deltas.len() - i,
        {
            names.push(delta_agg.impactful_deltas[i].clone());
            i = i + 1;
        }
        let r = PredictionState {
            value: previous.value + delta_agg.value,
            min_uncertainty_val: previous.min_uncertainty_val + delta_agg.min_uncertainty_val,
            max_uncertainty_val: previous.max_uncertainty_val + delta_agg.max_uncertainty_val,
            impactful_deltas: names,
        };
        assert(r.spec_names() =~= delta_agg.names());
        r
    }
}

impl Default for PredictionState {
    fn default() -> (r: PredictionState)
        ensures
            forall|b: Bound| r.spec_amount(b) == 0,
            r.spec_names().len() == 0,
    {
        PredictionState::new(0, 0, 0, Vec::new())
    }
}

/// `s` is the state on day `day`: the starting value plus every application up to that day,
/// and the names of the deltas applied on it.
pub open spec fn state_matches(s: PredictionState, initial: int, occs: Seq<Occurrence>, day: int) -> bool {
    &&& forall|b: Bound| #[trigger] s.spec_amount(b) == initial + sum_through(occs, day, b)
    &&& s.spec_names() == names_on(occs, day)
}

/// `r` is the forecast from `start` with starting value `initial` under the applications
/// `occs`: one entry for the start date and for each date with an application, in
/// increasing order of date, each with its state.
pub open spec fn forecast_matches(
    r: Seq<(Date, PredictionState)>,
    start: Date,
    initial: int,
    occs: Seq<Occurrence>,
) -> bool {
    &&& forall|i: int, j: int| 0 <= i < j < r.len() ==> #[trigger] r[i].0@.number() < #[trigger] r[j].0@.number()
    &&& forall|i: int| 0 <= i < r.len() ==> (#[trigger] r[i]).0@.is_valid()
    &&& exists|i: int| 0 <= i < r.len() && #[trigger] r[i].0 == start
    &&& forall|k: int|
        0 <= k < occs.len() ==> exists|i: int| 0 <= i < r.len() && #[trigger] r[i].0@.number() == #[trigger] occs[k].day()
    &&& forall|i: int| 0 <= i < r.len() ==> (#[trigger] r[i]).0 == start || occurs_on(occs, r[i].0)
    &&& forall|i: int| 0 <= i < r.len() ==> state_matches((#[trigger] r[i]).1, initial, occs, r[i].0@.number())
}


impl Prediction {
    /// The forecast from the start date up to `end`: for the start date and for each date up
    /// to `end` on which a delta applies, in increasing order, the running value, its lowest
    /// and highest possible values, and the deltas that apply on that date.
    pub fn predict(&self, end: &Date) -> (r: Vec<(Date, PredictionState)>)
        requires
            self.fits_until(end@),
        ensures
            forecast_matches(
                r@,
                self.spec_start(),
                self.spec_initial_value(),
                self.occurrences_until(end@),
            ),
    {
        let agg = self.aggregate_deltas(end);
        let ghost occs = self.occurrences_until(end@);
        let ghost initial = self.initial_value as int;
        let ghost start = self.start;
        let _ = self.start.num_days_from_ce();
        let initial_state = PredictionState::new(
            self.initial_value,
            self.initial_value,
            self.initial_value,
            Vec::new(),
        );
        let mut result: Vec<(Date, PredictionState)> = Vec::new();
        let mut k: usize = 0;
        while k < agg.len()
            invariant
                k <= agg.len(),
                result@.len() == k,
                well_grouped(agg@, occs, start),
                forall|b: Bound| abs(initial) + #[trigger] sum_abs(occs, b) <= i64::MAX,
                forall|b: Bound| #[trigger] initial_state.spec_amount(b) == initial,
                forall|i: int|
                    0 <= i < k ==> (#[trigger] result@[i]).0 == agg@[i].date && state_matches(
                        result@[i].1,
                        initial,
                        occs,
                        agg@[i].day as int,
                    ),
            decreases agg.len() - k,
        {
            let ghost day = agg@[k as int].day as int;
            proof {
                assert(agg@[k as int].matches(occs));
                if k == 0 {
                    assert forall|m: int| 0 <= m < occs.len() implies #[trigger] occs[m].day() >= day by {
                        assert(has_day(agg@, occs[m].day()));
                        let i = choose|i: int| 0 <= i < agg@.len() && #[trigger] agg@[i].day == occs[m].day();
                        if i > 0 {
                            assert(agg@[0].day < agg@[i].day);
                        }
                    }
                    assert forall|b: Bound| #[trigger] sum_through(occs, day, b) == sum_on(occs, day, b) by {
                        lemma_through_first(occs, day, b);
                    }
                } else {
                    let prev_day = agg@[k - 1].day as int;
                    assert(prev_day < day);
                    assert forall|m: int| 0 <= m < occs.len() implies !(prev_day < #[trigger] occs[m].day() < day) by {
                        assert(has_day(agg@, occs[m].day()));
                        let i = choose|i: int| 0 <= i < agg@.len() && #[trigger] agg@[i].day == occs[m].day();
                        if i < k {
                            if i < k - 1 {
                                assert(agg@[i].day < agg@[k - 1].day);
                            }
                        } else if i > k {
                            assert(agg@[k as int].day < agg@[i].day);
                        }
                    }
                    assert forall|b: Bound| #[trigger] sum_through(occs, day, b) == sum_through(occs, prev_day, b) + sum_on(occs, day, b) by {
                        lemma_through_step(occs, prev_day, day, b);
                    }
                    assert(state_matches(result@[k - 1].1, initial, occs, prev_day));
                }
                assert forall|b: Bound| abs(initial + #[trigger] sum_through(occs, day, b)) <= i64::MAX by {
                    lemma_sums_bounded(occs, day, b);
                }
                if k == 0 {
                    assert forall|b: Bound|
                        abs(#[trigger] initial_state.spec_amount(b) + agg@[0].totals.amount(b)) <= i64::MAX by {
                        assert(abs(initial + sum_through(occs, day, b)) <= i64::MAX);
                    }
                } else {
                    let prev_day = agg@[k - 1].day as int;
                    assert forall|b: Bound|
                        abs(#[trigger] result@[k - 1].1.spec_amount(b) + agg@[k as int].totals.amount(b)) <= i64::MAX by {
                        assert(abs(initial + sum_through(occs, day, b)) <= i64::MAX);
                        assert(sum_through(occs, day, b) == sum_through(occs, prev_day, b) + sum_on(occs, day, b));
                    }
                }
            }
            let next = if k == 0 {
                PredictionState::from(&initial_state, &agg[0].totals)
            } else {
                PredictionState::from(&result[k - 1].1, &agg[k].totals)
            };
            result.push((agg[k].date, next));
            k = k + 1;
        }
        proof {
            let r = result@;
            assert forall|i: int| 0 <= i < r.len() implies #[trigger] r[i].0@.number() == agg@[i].day by {
                assert(agg@[i].matches(occs));
            }
            assert(has_day(agg@, start@.number()));
            let s = choose|i: int| 0 <= i < agg@.len() && #[trigger] agg@[i].day == start@.number();
            assert(agg@[s].matches(occs));
            lemma_number_injective(r[s].0@, start@);
            lemma_view_injective(r[s].0, start);
            assert forall|m: int| 0 <= m < occs.len() implies exists|i: int| 0 <= i < r.len() && #[trigger] r[i].0@.number() == #[trigger] occs[m].day() by {
                assert(has_day(agg@, occs[m].day()));
                let i = choose|i: int| 0 <= i < agg@.len() && #[trigger] agg@[i].day == occs[m].day();
                assert(r[i].0@.number() == occs[m].day());
            }
            assert forall|i: int| 0 <= i < r.len() implies (#[trigger] r[i]).0@.is_valid() by {
                assert(agg@[i].matches(occs));
            }
        }
        result
    }

    /// Whether the forecast up to `end` stays within 64-bit amounts, as `predict` requires.
    pub fn forecast_fits(&self, end: &Date) -> (r: bool)
        ensures
            r == self.fits_until(end@),
    {
        let lo = self.start.num_days_from_ce();
        let hi = end.num_days_from_ce();
        let ghost deltas = self.deltas@;
        let ghost all = self.occurrences_until(end@);
        let initial: i128 = if self.initial_value < 0 {
            -(self.initial_value as i128)
        } else {
            self.initial_value as i128
        };
        if initial > i64::MAX as i128 {
            proof {
                lemma_sums_bounded(self.occurrences_until(end@), 0, Bound::Nominal);
            }
            return false;
        }
        let mut nominal: i128 = initial;
        let mut low: i128 = initial;
        let mut high: i128 = initial;
        let ghost mut seen: Seq<Occurrence> = Seq::empty();
        proof {
            assert(deltas.take(0) =~= Seq::<AnyDelta>::empty());
            assert(sum_abs(seen, Bound::Nominal) == 0);
            assert(sum_abs(seen, Bound::Min) == 0);
            assert(sum_abs(seen, Bound::Max) == 0);
        }
        let mut i: usize = 0;
        while i < self.deltas.len()
            invariant
                i <= self.deltas.len(),
                deltas == self.deltas@,
                lo == self.start@.number(),
                hi == end@.number(),
                all == occurrences(deltas, lo as int, hi as int),
                initial == abs(self.initial_value as int),
                seen == occurrences(deltas.take(i as int), lo as int, hi as int),
                nominal == initial + sum_abs(seen, Bound::Nominal),
                low == initial + sum_abs(seen, Bound::Min),
                high == initial + sum_abs(seen, Bound::Max),
                nominal <= i64::MAX,
                low <= i64::MAX,
                high <= i64::MAX,
            decreases self.deltas.len() - i,
        {
            let delta = &self.deltas[i];
            let dates = delta.dates();
            let v = delta.value() as i128;
            let v_abs: i128 = if v < 0 { -v } else { v };
            let m = delta.min_uncertainty_value();
            let m_abs: i128 = if m < 0 { -m } else { m };
            let x = delta.max_uncertainty_value();
            let x_abs: i128 = if x < 0 { -x } else { x };
            proof {
                assert(v_abs == abs(amount_of(*delta, Bound::Nominal)));
                assert(m_abs == abs(amount_of(*delta, Bound::Min)));
                assert(x_abs == abs(amount_of(*delta, Bound::Max)));
            }
            let ghost before = seen;
            let mut j: usize = 0;
            while j < dates.len()
                invariant
                    i < self.deltas.len(),
                    deltas == self.deltas@,
                    *delta == deltas[i as int],
                    dates@ == delta.spec_dates(),
                    j <= dates.len(),
                    lo == self.start@.number(),
                    hi == end@.number(),
                    all == occurrences(deltas, lo as int, hi as int),
                    initial == abs(self.initial_value as int),
                    before == occurrences(deltas.take(i as int), lo as int, hi as int),
                    seen == before + delta_occurrences(*delta, j as int, lo as int, hi as int),
                    v_abs == abs(amount_of(*delta, Bound::Nominal)),
                    m_abs == abs(amount_of(*delta, Bound::Min)),
                    x_abs == abs(amount_of(*delta, Bound::Max)),
                    0 <= v_abs <= 0x4000_0000_0000_0000_8000_0000_0000_0000,
                    0 <= m_abs <= 0x4000_0000_0000_0000_8000_0000_0000_0000,
                    0 <= x_abs <= 0x4000_0000_0000_0000_8000_0000_0000_0000,
                    nominal == initial + sum_abs(seen, Bound::Nominal),
                    low == initial + sum_abs(seen, Bound::Min),
                    high == initial + sum_abs(seen, Bound::Max),
                    nominal <= i64::MAX,
                    low <= i64::MAX,
                    high <= i64::MAX,
                decreases dates.len() - j,
            {
                let day = dates[j].num_days_from_ce();
                if lo <= day && day <= hi {
                    let ghost o = occurrence_of(*delta, dates@[j as int]);
                    proof {
                        assert(delta_occurrences(*delta, j + 1, lo as int, hi as int)
                            == delta_occurrences(*delta, j as int, lo as int, hi as int).push(o));
                        assert(seen.push(o) =~= before + delta_occurrences(*delta, j + 1, lo as int, hi as int));
                        assert(seen.push(o).drop_last() =~= seen);
                        assert(seen.push(o).last() == o);
                        assert(sum_abs(seen.push(o), Bound::Nominal) == sum_abs(seen, Bound::Nominal) + v_abs);
                        assert(sum_abs(seen.push(o), Bound::Min) == sum_abs(seen, Bound::Min) + abs(o.low));
                        assert(sum_abs(seen.push(o), Bound::Max) == sum_abs(seen, Bound::Max) + abs(o.high));
                        seen = seen.push(o);
                    }
                    nominal = nominal + v_abs;
                    low = low + m_abs;
                    high = high + x_abs;
                    if nominal > i64::MAX as i128 || low > i64::MAX as i128 || high > i64::MAX as i128 {
                        proof {
                            assert forall|b: Bound| #[trigger] sum_abs(seen, b) <= sum_abs(all, b) by {
                                lemma_sum_abs_concat(before, delta_occurrences(*delta, j + 1, lo as int, hi as int), b);
                                lemma_delta_occurrences_grow(*delta, j + 1, dates.len() as int, lo as int, hi as int, b);
                                lemma_occurrences_step(deltas, i as int, lo as int, hi as int);
                                lemma_sum_abs_concat(before, delta_occurrences(*delta, dates.len() as int, lo as int, hi as int), b);
                                lemma_occurrences_grow(deltas, i + 1, lo as int, hi as int, b);
                            }
                            if nominal > i64::MAX as i128 {
                                assert(!(abs(self.spec_initial_value()) + sum_abs(self.occurrences_until(end@), Bound::Nominal) <= i64::MAX));
                            } else if low > i64::MAX as i128 {
                                assert(!(abs(self.spec_initial_value()) + sum_abs(self.occurrences_until(end@), Bound::Min) <= i64::MAX));
                            } else {
                                assert(!(abs(self.spec_initial_value()) + sum_abs(self.occurrences_until(end@), Bound::Max) <= i64::MAX));
                            }
                        }
                        return false;
                    }
                } else {
                    proof {
                        assert(delta_occurrences(*delta, j + 1, lo as int, hi as int)
                            == delta_occurrences(*delta, j as int, lo as int, hi as int));
                    }
                }
                j = j + 1;
            }
            proof {
                lemma_occurrences_step(deltas, i as int, lo as int, hi as int);
            }
            i = i + 1;
        }
        proof {
            assert(deltas.take(deltas.len() as int) =~= deltas);
            assert forall|b: Bound|
                abs(self.spec_initial_value()) + #[trigger] sum_abs(self.occurrences_until(end@), b) <= i64::MAX by {
                assert(seen == all);
                match b {
                    Bound::Nominal => {},
                    Bound::Min => {
                        assert(low == initial + sum_abs(all, Bound::Min));
                    },
                    Bound::Max => {
                        assert(high == initial + sum_abs(all, Bound::Max));
                    },
                }
            }
        }
        true
    }
}

impl Default for Prediction {
    /// A nameless prediction from today, of value zero, with no deltas.
    fn default() -> (r: Prediction)
        ensures
            r.spec_name().len() == 0,
            r.spec_initial_value() == 0,
            r.spec_deltas().len() == 0,
    {
        Prediction::new(String::new(), today(), 0, Vec::new())
    }
}

proof fn lemma_sorted_same_members(a: Seq<int>, b: Seq<int>)
    requires
        forall|i: int, j: int| 0 <= i < j < a.len() ==> a[i] < a[j],
        forall|i: int, j: int| 0 <= i < j < b.len() ==> b[i] < b[j],
        forall|i: int| 0 <= i < a.len() ==> b.contains(#[trigger] a[i]),
        forall|j: int| 0 <= j < b.len() ==> a.contains(#[trigger] b[j]),
    ensures
        a == b,
    decreases a.len(),
{
    if a.len() == 0 {
        if b.len() > 0 {
            assert(a.contains(b[0]));
        }
        assert(a =~= b);
    } else {
        assert(b.contains(a[0]));
        assert(b.len() > 0);
        assert(a.contains(b[0]));
        let ja = choose|j: int| 0 <= j < b.len() && b[j] == a[0];
        let ib = choose|i: int| 0 <= i < a.len() && a[i] == b[0];
        if ja > 0 {
            assert(b[0] < b[ja]);
        }
        if ib > 0 {
            assert(a[0] < a[ib]);
        }
        assert(a[0] == b[0]);
        let a1 = a.subrange(1, a.len() as int);
        let b1 = b.subrange(1, b.len() as int);
        assert forall|i: int| 0 <= i < a1.len() implies b1.contains(#[trigger] a1[i]) by {
            assert(a[0] < a[i + 1]);
            assert(b.contains(a[i + 1]));
            let j = choose|j: int| 0 <= j < b.len() && b[j] == a[i + 1];
            assert(b1[j - 1] == b[j]);
        }
        assert forall|j: int| 0 <= j < b1.len() implies a1.contains(#[trigger] b1[j]) by {
            assert(b[0] < b[j + 1]);
            assert(a.contains(b[j + 1]));
            let i = choose|i: int| 0 <= i < a.len() && a[i] == b[j + 1];
            assert(a1[i - 1] == a[i]);
        }
        lemma_sorted_same_members(a1, b1);
        assert(a =~= seq![a[0]] + a1);
        assert(b =~= seq![b[0]] + b1);
    }
}

/// A forecast is determined by what it is made of: two forecasts that both meet the contract
/// of `predict` for the same start, starting value and applications agree entry by entry, so
/// predicting twice from the same inputs gives the same result.
pub proof fn lemma_forecast_unique(
    r1: Seq<(Date, PredictionState)>,
    r2: Seq<(Date, PredictionState)>,
    start: Date,
    initial: int,
    occs: Seq<Occurrence>,
)
    requires
        forecast_matches(r1, start, initial, occs),
        forecast_matches(r2, start, initial, occs),
    ensures
        r1.len() == r2.len(),
        forall|i: int|
            0 <= i < r1.len() ==> {
                &&& (#[trigger] r1[i]).0 == r2[i].0
                &&& forall|b: Bound| #[trigger] r1[i].1.spec_amount(b) == r2[i].1.spec_amount(b)
                &&& r1[i].1.spec_names() == r2[i].1.spec_names()
            },
{
    let days1 = r1.map_values(|e: (Date, PredictionState)| e.0@.number());
    let days2 = r2.map_values(|e: (Date, PredictionState)| e.0@.number());
    let s1 = choose|i: int| 0 <= i < r1.len() && #[trigger] r1[i].0 == start;
    let s2 = choose|i: int| 0 <= i < r2.len() && #[trigger] r2[i].0 == start;
    assert forall|i: int, j: int| 0 <= i < j < days1.len() implies days1[i] < days1[j] by {
        assert(r1[i].0@.number() < r1[j].0@.number());
    }
    assert forall|i: int, j: int| 0 <= i < j < days2.len() implies days2[i] < days2[j] by {
        assert(r2[i].0@.number() < r2[j].0@.number());
    }
    assert forall|i: int| 0 <= i < days1.len() implies days2.contains(#[trigger] days1[i]) by {
        if r1[i].0 == start {
            assert(days2[s2] == days1[i]);
        } else {
            assert(occurs_on(occs, r1[i].0));
            let k = choose|k: int| 0 <= k < occs.len() && #[trigger] occs[k].date == r1[i].0;
            let j = choose|j: int| 0 <= j < r2.len() && #[trigger] r2[j].0@.number() == #[trigger] occs[k].day();
            assert(days2[j] == days1[i]);
        }
    }
    assert forall|j: int| 0 <= j < days2.len() implies days1.contains(#[trigger] days2[j]) by {
        if r2[j].0 == start {
            assert(days1[s1] == days2[j]);
        } else {
            assert(occurs_on(occs, r2[j].0));
            let k = choose|k: int| 0 <= k < occs.len() && #[trigger] occs[k].date == r2[j].0;
            let i = choose|i: int| 0 <= i < r1.len() && #[trigger] r1[i].0@.number() == #[trigger] occs[k].day();
            assert(days1[i] == days2[j]);
        }
    }
    lemma_sorted_same_members(days1, days2);
    assert forall|i: int| 0 <= i < r1.len() implies {
        &&& (#[trigger] r1[i]).0 == r2[i].0
        &&& forall|b: Bound| #[trigger] r1[i].1.spec_amount(b) == r2[i].1.spec_amount(b)
        &&& r1[i].1.spec_names() == r2[i].1.spec_names()
    } by {
        assert(days1[i] == days2[i]);
        lemma_number_injective(r1[i].0@, r2[i].0@);
        lemma_view_injective(r1[i].0, r2[i].0);
        assert(state_matches(r1[i].1, initial, occs, r1[i].0@.number()));
        assert(state_matches(r2[i].1, initial, occs, r2[i].0@.number()));
    }
}

/// Predicting twice from the same prediction up to the same end date gives the same forecast:
/// any two results that meet the contract of `predict` hold the same dates, amounts and names.
pub proof fn lemma_predict_deterministic(
    p: Prediction,
    end: Date,
    r1: Seq<(Date, PredictionState)>,
    r2: Seq<(Date, PredictionState)>,
)
    requires
        forecast_matches(r1, p.spec_start(), p.spec_initial_value(), p.occurrences_until(end@)),
        forecast_matches(r2, p.spec_start(), p.spec_initial_value(), p.occurrences_until(end@)),
    ensures
        r1.len() == r2.len(),
        forall|i: int|
            0 <= i < r1.len() ==> {
                &&& (#[trigger] r1[i]).0 == r2[i].0
                &&& forall|b: Bound| #[trigger] r1[i].1.spec_amount(b) == r2[i].1.spec_amount(b)
                &&& r1[i].1.spec_names() == r2[i].1.spec_names()
            },
{
    lemma_forecast_unique(r1, r2, p.spec_start(), p.spec_initial_value(), p.occurrences_until(end@));
}

} // verus!
