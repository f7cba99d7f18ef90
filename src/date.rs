use crate::errors::MoolahCoreError;
use chrono::{Datelike, NaiveDate};
use vstd::arithmetic::div_mod::{
    lemma_fundamental_div_mod, lemma_fundamental_div_mod_converse, lemma_mod_bound,
};
use vstd::prelude::*;

verus! {

/// The earliest year of the supported calendar range.
pub const MIN_YEAR: i32 = -262143;

/// The latest year of the supported calendar range.
pub const MAX_YEAR: i32 = 262142;

/// Leap years of the proleptic Gregorian calendar.
pub open spec fn is_leap_year(y: int) -> bool {
    y % 4 == 0 && (y % 100 != 0 || y % 400 == 0)
}

pub open spec fn days_in_month(y: int, m: int) -> int {
    if m == 2 {
        if is_leap_year(y) { 29 } else { 28 }
    } else if m == 4 || m == 6 || m == 9 || m == 11 {
        30
    } else {
        31
    }
}

/// Days in the months of year `y` that come before month `m`.
pub open spec fn days_before_month(y: int, m: int) -> int
    decreases m,
{
    if m <= 1 { 0 } else { days_before_month(y, m - 1) + days_in_month(y, m - 1) }
}

/// Days in the years from year 1 up to, not including, year `y` (negative for `y < 1`).
pub open spec fn days_before_year(y: int) -> int {
    let p = y - 1;
    365 * p + p / 4 - p / 100 + p / 400
}

/// A calendar date as plain numbers.
pub struct DateView {
    pub year: int,
    pub month: int,
    pub day: int,
}

pub open spec fn ymd(year: int, month: int, day: int) -> DateView {
    DateView { year, month, day }
}

impl DateView {
    /// A real date of the proleptic Gregorian calendar, inside the supported range.
    pub open spec fn is_valid(self) -> bool {
        MIN_YEAR <= self.year <= MAX_YEAR && 1 <= self.month <= 12 && 1 <= self.day
            <= days_in_month(self.year, self.month)
    }

    /// The day's number, January 1 of year 1 being day 1.
    pub open spec fn number(self) -> int {
        days_before_year(self.year) + days_before_month(self.year, self.month) + self.day
    }

    /// Day of the week, 0 for Monday up to 6 for Sunday (January 1 of year 1 was a Monday).
    pub open spec fn weekday_index(self) -> int {
        (self.number() - 1) % 7
    }

    /// Strictly earlier in calendar order.
    pub open spec fn precedes(self, other: DateView) -> bool {
        self.year < other.year || (self.year == other.year && (self.month < other.month || (
        self.month == other.month && self.day < other.day)))
    }

    /// Month and day, ignoring the year, come strictly before those of `other`.
    pub open spec fn month_day_precedes(self, other: DateView) -> bool {
        self.month < other.month || (self.month == other.month && self.day < other.day)
    }
}

/// Day `day` of the given month, or the month's last day when the month is shorter.
pub open spec fn clamp_day(year: int, month: int, day: int) -> DateView {
    ymd(year, month, if day < days_in_month(year, month) { day } else { days_in_month(year, month) })
}

pub open spec fn min_day_number() -> int {
    ymd(MIN_YEAR as int, 1, 1).number()
}

pub open spec fn max_day_number() -> int {
    ymd(MAX_YEAR as int, 12, 31).number()
}

/// The numbers of the first and the last supported day.
pub proof fn lemma_day_number_bounds()
    ensures
        min_day_number() == -95746129,
        max_day_number() == 95745399,
{
    reveal_with_fuel(days_before_month, 12);
}

/// A date of the proleptic Gregorian calendar, without time or time zone.
#[derive(Clone, Copy, Debug, PartialEq, Eq, Structural, PartialOrd, Ord, Hash)]
pub struct Date {
    year: i32,
    month: u32,
    day: u32,
}

impl Date {
    #[verifier::type_invariant]
    spec fn is_real_date(self) -> bool {
        self@.is_valid()
    }
}

impl View for Date {
    type V = DateView;

    closed spec fn view(&self) -> DateView {
        ymd(self.year as int, self.month as int, self.day as int)
    }
}

/// A day of the week.
#[derive(Clone, Copy, Debug, PartialEq, Eq, Structural, Hash)]
pub enum Weekday {
    Mon,
    Tue,
    Wed,
    Thu,
    Fri,
    Sat,
    Sun,
}

impl Weekday {
    /// 0 for Monday up to 6 for Sunday.
    pub open spec fn index(self) -> int {
        match self {
            Weekday::Mon => 0,
            Weekday::Tue => 1,
            Weekday::Wed => 2,
            Weekday::Thu => 3,
            Weekday::Fri => 4,
            Weekday::Sat => 5,
            Weekday::Sun => 6,
        }
    }

    pub fn num_days_from_monday(&self) -> (r: u32)
        ensures
            r == self.index(),
    {
        match self {
            Weekday::Mon => 0,
            Weekday::Tue => 1,
            Weekday::Wed => 2,
            Weekday::Thu => 3,
            Weekday::Fri => 4,
            Weekday::Sat => 5,
            Weekday::Sun => 6,
        }
    }

    fn from_index(i: u32) -> (r: Weekday)
        requires
            i < 7,
        ensures
            r.index() == i,
    {
        if i == 0 {
            Weekday::Mon
        } else if i == 1 {
            Weekday::Tue
        } else if i == 2 {
            Weekday::Wed
        } else if i == 3 {
            Weekday::Thu
        } else if i == 4 {
            Weekday::Fri
        } else if i == 5 {
            Weekday::Sat
        } else {
            Weekday::Sun
        }
    }
}

proof fn lemma_div_step(x: int, k: int)
    requires
        k > 0,
    ensures
        (x + 1) / k == x / k + (if (x + 1) % k == 0 { 1int } else { 0int }),
{
    lemma_fundamental_div_mod(x, k);
    lemma_mod_bound(x, k);
    let q = x / k;
    let r = x % k;
    if r + 1 < k {
        assert(x + 1 == q * k + (r + 1)) by (nonlinear_arith)
            requires
                x == k * q + r,
        ;
        lemma_fundamental_div_mod_converse(x + 1, k, q, r + 1);
    } else {
        assert(x + 1 == (q + 1) * k + 0) by (nonlinear_arith)
            requires
                x == k * q + r,
                r + 1 == k,
        ;
        lemma_fundamental_div_mod_converse(x + 1, k, q + 1, 0);
    }
}

proof fn lemma_divisible_by_factor(y: int)
    ensures
        y % 100 == 0 ==> y % 4 == 0,
        y % 400 == 0 ==> y % 100 == 0,
{
    lemma_fundamental_div_mod(y, 100);
    lemma_fundamental_div_mod(y, 400);
    if y % 100 == 0 {
        let q = y / 100;
        assert(y == (25 * q) * 4 + 0) by (nonlinear_arith)
            requires
                y == 100 * q + 0,
        ;
        lemma_fundamental_div_mod_converse(y, 4, 25 * q, 0);
    }
    if y % 400 == 0 {
        let q = y / 400;
        assert(y == (4 * q) * 100 + 0) by (nonlinear_arith)
            requires
                y == 400 * q + 0,
        ;
        lemma_fundamental_div_mod_converse(y, 100, 4 * q, 0);
    }
}

/// A year has 365 days, or 366 in a leap year.
pub proof fn lemma_year_length(y: int)
    ensures
        days_before_year(y + 1) == days_before_year(y) + 365 + (if is_leap_year(y) { 1int } else { 0int }),
        days_before_month(y, 13) == 365 + (if is_leap_year(y) { 1int } else { 0int }),
{
    lemma_div_step(y - 1, 4);
    lemma_div_step(y - 1, 100);
    lemma_div_step(y - 1, 400);
    lemma_divisible_by_factor(y);
    reveal_with_fuel(days_before_month, 13);
}

proof fn lemma_years_increase(a: int, b: int)
    requires
        a <= b,
    ensures
        days_before_year(a) + 365 * (b - a) <= days_before_year(b),
    decreases b - a,
{
    if a < b {
        lemma_years_increase(a, b - 1);
        lemma_year_length(b - 1);
    }
}

proof fn lemma_months_increase(y: int, m1: int, m2: int)
    requires
        1 <= m1 < m2 <= 13,
    ensures
        days_before_month(y, m1) + days_in_month(y, m1) <= days_before_month(y, m2),
    decreases m2 - m1,
{
    if m1 + 1 < m2 {
        lemma_months_increase(y, m1, m2 - 1);
    }
}

/// Day numbers follow calendar order.
pub proof fn lemma_number_increases(a: DateView, b: DateView)
    requires
        a.is_valid(),
        b.is_valid(),
        a.precedes(b),
    ensures
        a.number() < b.number(),
{
    if a.year < b.year {
        lemma_months_increase(a.year, a.month, 13);
        lemma_year_length(a.year);
        lemma_years_increase(a.year + 1, b.year);
        if b.month > 1 {
            lemma_months_increase(b.year, 1, b.month);
        }
    } else if a.month < b.month {
        lemma_months_increase(a.year, a.month, b.month);
    }
}

/// Two valid dates with the same day number are the same date.
pub proof fn lemma_number_injective(a: DateView, b: DateView)
    requires
        a.is_valid(),
        b.is_valid(),
        a.number() == b.number(),
    ensures
        a == b,
{
    if a.precedes(b) {
        lemma_number_increases(a, b);
    } else if b.precedes(a) {
        lemma_number_increases(b, a);
    }
}

/// A date is determined by its year, month and day.
pub proof fn lemma_view_injective(a: Date, b: Date)
    requires
        a@ == b@,
    ensures
        a == b,
{
}

/// Every valid date has a day number inside the supported range.
pub proof fn lemma_number_in_range(a: DateView)
    requires
        a.is_valid(),
    ensures
        min_day_number() <= a.number() <= max_day_number(),
{
    let lo = ymd(MIN_YEAR as int, 1, 1);
    let hi = ymd(MAX_YEAR as int, 12, 31);
    if lo.precedes(a) {
        lemma_number_increases(lo, a);
    }
    if a.precedes(hi) {
        lemma_number_increases(a, hi);
    }
}

/// Relies on `NaiveDate::from_ymd_opt`: it gives a date exactly for the valid year, month
/// and day triples of its supported range.
#[verifier::external_body]
fn ymd_exists(year: i32, month: u32, day: u32) -> (r: bool)
    ensures
        r == ymd(year as int, month as int, day as int).is_valid(),
{
    NaiveDate::from_ymd_opt(year, month, day).is_some()
}

/// Relies on `Datelike::num_days_from_ce`: days counted with January 1 of year 1 as day 1.
#[verifier::external_body]
fn num_days_from_ce(d: &Date) -> (r: i32)
    requires
        d@.is_valid(),
    ensures
        r == d@.number(),
{
    NaiveDate::from_ymd_opt(d.year, d.month, d.day).unwrap().num_days_from_ce()
}

/// Relies on `NaiveDate::from_num_days_from_ce_opt`: the date with the given day number,
/// `None` outside the supported range.
#[verifier::external_body]
fn from_num_days_from_ce(n: i32) -> (r: Option<Date>)
    ensures
        r is Some <==> min_day_number() <= n <= max_day_number(),
        r matches Some(d) ==> d@.is_valid() && d@.number() == n,
{
    NaiveDate::from_num_days_from_ce_opt(n).map(|d| Date { year: d.year(), month: d.month(), day: d.day() })
}

/// Relies on `Datelike::weekday` and `Weekday::num_days_from_monday`.
#[verifier::external_body]
fn weekday_from_monday(d: &Date) -> (r: u32)
    requires
        d@.is_valid(),
    ensures
        r == d@.weekday_index(),
{
    NaiveDate::from_ymd_opt(d.year, d.month, d.day).unwrap().weekday().num_days_from_monday()
}

impl Date {
    pub fn year(&self) -> (r: i32)
        ensures
            r == self@.year,
    {
        self.year
    }

    pub fn month(&self) -> (r: u32)
        ensures
            r == self@.month,
    {
        self.month
    }

    pub fn day(&self) -> (r: u32)
        ensures
            r == self@.day,
    {
        self.day
    }

    /// The day's number, January 1 of year 1 being day 1.
    pub fn num_days_from_ce(&self) -> (r: i32)
        ensures
            r == self@.number(),
            self@.is_valid(),
            min_day_number() <= r <= max_day_number(),
    {
        proof {
            use_type_invariant(self);
            lemma_number_in_range(self@);
        }
        num_days_from_ce(self)
    }

    pub fn weekday(&self) -> (r: Weekday)
        ensures
            r.index() == self@.weekday_index(),
    {
        proof {
            use_type_invariant(self);
        }
        Weekday::from_index(weekday_from_monday(self))
    }

    /// The date `n` days later (earlier for negative `n`), `None` outside the supported range.
    pub fn checked_add_days(&self, n: i64) -> (r: Option<Date>)
        ensures
            r is Some <==> min_day_number() <= self@.number() + n <= max_day_number(),
            r matches Some(d) ==> d@.is_valid() && d@.number() == self@.number() + n,
    {
        let start = self.num_days_from_ce() as i64;
        if n < -0x1_0000_0000 || n > 0x1_0000_0000 {
            proof {
                lemma_day_number_bounds();
            }
            return None;
        }
        let t = start + n;
        if t < i32::MIN as i64 || t > i32::MAX as i64 {
            proof {
                lemma_day_number_bounds();
            }
            None
        } else {
            from_num_days_from_ce(t as i32)
        }
    }

    /// Strictly later in calendar order.
    pub fn is_after(&self, other: &Date) -> (r: bool)
        ensures
            r == other@.precedes(self@),
    {
        other.year < self.year || (other.year == self.year && (other.month < self.month || (
        other.month == self.month && other.day < self.day)))
    }
}

/// Day `day` of the given month, or the month's last day when the month is shorter.
pub(crate) fn ymd_clamped(year: i32, month: u32, day: u32) -> (r: Date)
    requires
        MIN_YEAR <= year <= MAX_YEAR,
        1 <= month <= 12,
        1 <= day,
    ensures
        r@ == clamp_day(year as int, month as int, day as int),
{
    let ghost last = days_in_month(year as int, month as int);
    let mut d = day;
    while !ymd_exists(year, month, d)
        invariant
            MIN_YEAR <= year <= MAX_YEAR,
            1 <= month <= 12,
            last == days_in_month(year as int, month as int),
            1 <= d <= day,
            (if day < last { day as int } else { last }) <= d,
            28 <= last,
        decreases d,
    {
        d = d - 1;
    }
    Date { year, month, day: d }
}

/// Relies on `Local::now` and `DateTime::date_naive`: today's date in the local time zone.
#[verifier::external_body]
pub(crate) fn today() -> (r: Date) {
    let d = chrono::Local::now().date_naive();
    Date { year: d.year(), month: d.month(), day: d.day() }
}

/// Builds the date `year`-`month`-`day`, failing when no such date exists.
pub fn naive_ymd(year: i32, month: u32, day: u32) -> (r: Result<Date, MoolahCoreError>)
    ensures
        r is Ok <==> ymd(year as int, month as int, day as int).is_valid(),
        r matches Ok(d) ==> d@ == ymd(year as int, month as int, day as int),
        r is Err ==> r == Err::<Date, MoolahCoreError>(
            MoolahCoreError::InvalidDate { year, month, day },
        ),
{
    if ymd_exists(year, month, day) {
        Ok(Date { year, month, day })
    } else {
        Err(MoolahCoreError::InvalidDate { year, month, day })
    }
}

} // verus!
