pub mod custom_delta;
pub mod daily_delta;
pub mod monthly_delta;
pub mod one_time_delta;
pub mod weekly_delta;
pub mod yearly_delta;

use crate::date::Date;
use crate::errors::MoolahCoreError;
use vstd::prelude::*;

pub use custom_delta::CustomDelta;
pub use daily_delta::DailyDelta;
pub use monthly_delta::{MonthDay, MonthlyDelta, MultiMonthDuration};
pub use one_time_delta::OneTimeDelta;
pub use weekly_delta::WeeklyDelta;
pub use yearly_delta::{MultiYearDuration, YearlyDelta};

verus! {

/// A non-negative quantity: an amount in cents, or a percentage.
#[derive(Clone, Copy, Debug, PartialEq, Eq, Structural)]
pub struct PositiveF64(i64);

impl PositiveF64 {
    #[verifier::type_invariant]
    spec fn non_negative(self) -> bool {
        self.0 >= 0
    }
}

impl View for PositiveF64 {
    type V = int;

    closed spec fn view(&self) -> int {
        self.0 as int
    }
}

impl PositiveF64 {
    /// Wraps `value`, failing when it is negative.
    pub fn try_new(value: i64) -> (r: Result<PositiveF64, MoolahCoreError>)
        ensures
            r is Ok <==> value >= 0,
            r matches Ok(p) ==> p@ == value,
            r is Err ==> r == Err::<PositiveF64, MoolahCoreError>(
                MoolahCoreError::UnexpectedNegative(value),
            ),
    {
        if value < 0 {
            Err(MoolahCoreError::UnexpectedNegative(value))
        } else {
            Ok(PositiveF64(value))
        }
    }

    pub fn get(&self) -> (r: i64)
        ensures
            r == self@,
            r >= 0,
    {
        proof {
            use_type_invariant(self);
        }
        self.0
    }
}

pub closed spec fn positive_from(value: int) -> Result<PositiveF64, MoolahCoreError> {
    if value < 0 {
        Err(MoolahCoreError::UnexpectedNegative(value as i64))
    } else {
        Ok(PositiveF64(value as i64))
    }
}

impl vstd::std_specs::convert::TryFromSpecImpl<i64> for PositiveF64 {
    open spec fn obeys_try_from_spec() -> bool {
        true
    }

    closed spec fn try_from_spec(v: i64) -> Result<PositiveF64, MoolahCoreError> {
        positive_from(v as int)
    }
}

impl TryFrom<i64> for PositiveF64 {
    type Error = MoolahCoreError;

    fn try_from(value: i64) -> (r: Result<PositiveF64, MoolahCoreError>)
        ensures
            r is Ok <==> value >= 0,
            r matches Ok(p) ==> p@ == value,
            r is Err ==> r == Err::<PositiveF64, MoolahCoreError>(
                MoolahCoreError::UnexpectedNegative(value),
            ),
    {
        PositiveF64::try_new(value)
    }
}

/// The size of a spread around a nominal value.
#[derive(Clone, Copy, Debug, PartialEq, Eq, Structural)]
pub enum UncertaintyType {
    /// An absolute amount, in cents.
    Dollars(PositiveF64),
    /// A share of the nominal value's magnitude, in percent.
    Percent(PositiveF64),
}

/// How far the real value of a delta may stray from its nominal value.
#[derive(Clone, Copy, Debug, PartialEq, Eq, Structural)]
#[allow(inconsistent_fields)]
pub enum Uncertainty {
    /// The same spread below and above.
    Balanced(UncertaintyType),
    /// One spread below and another above.
    Unbalanced { low: UncertaintyType, high: UncertaintyType },
    /// Explicit lowest and highest values.
    Bounds { low: i64, high: i64 },
}

pub open spec fn abs(x: int) -> int {
    if x < 0 { -x } else { x }
}

/// How far a spread reaches from `value`; a percentage is rounded down to the cent.
pub open spec fn spread(value: int, t: UncertaintyType) -> int {
    match t {
        UncertaintyType::Dollars(a) => a@,
        UncertaintyType::Percent(p) => p@ * abs(value) / 100,
    }
}

/// The highest value a delta of nominal `value` may take.
pub open spec fn max_bound(value: int, u: Option<Uncertainty>) -> int {
    match u {
        None => value,
        Some(Uncertainty::Balanced(t)) => value + spread(value, t),
        Some(Uncertainty::Unbalanced { low: _, high }) => value + spread(value, high),
        Some(Uncertainty::Bounds { low: _, high }) => high as int,
    }
}

/// The lowest value a delta of nominal `value` may take.
pub open spec fn min_bound(value: int, u: Option<Uncertainty>) -> int {
    match u {
        None => value,
        Some(Uncertainty::Balanced(t)) => value - spread(value, t),
        Some(Uncertainty::Unbalanced { low, high: _ }) => value - spread(value, low),
        Some(Uncertainty::Bounds { low, high: _ }) => low as int,
    }
}

/// Explicit bounds, when given, hold the nominal value.
pub open spec fn bounds_hold(value: int, u: Option<Uncertainty>) -> bool {
    match u {
        Some(Uncertainty::Bounds { low, high }) => low <= value <= high,
        _ => true,
    }
}

fn spread_of(value: i64, t: &UncertaintyType) -> (r: i128)
    ensures
        r == spread(value as int, *t),
        0 <= r <= 0x4000_0000_0000_0000_0000_0000_0000_0000,
{
    match t {
        UncertaintyType::Dollars(a) => a.get() as i128,
        UncertaintyType::Percent(p) => {
            let pv = p.get() as i128;
            let magnitude: i128 = if value < 0 { -(value as i128) } else { value as i128 };
            assert(0 <= pv * magnitude <= 0x8000_0000_0000_0000 * 0x8000_0000_0000_0000)
                by (nonlinear_arith)
                requires
                    0 <= pv <= 0x8000_0000_0000_0000,
                    0 <= magnitude <= 0x8000_0000_0000_0000,
            ;
            let product = pv * magnitude;
            assert(product / 100 <= product) by (nonlinear_arith)
                requires
                    product >= 0,
            ;
            product / 100
        },
    }
}

/// Explicit bounds with `low` above `high` hold no value at all.
pub proof fn lemma_inverted_bounds_never_hold(low: i64, high: i64, value: int)
    requires
        low > high,
    ensures
        !bounds_hold(value, Some(Uncertainty::Bounds { low, high })),
{
}

/// Checks that `low <= value <= high`.
pub fn reasonable_bounds(low: i64, high: i64, value: i64) -> (r: Result<(), MoolahCoreError>)
    ensures
        r is Ok <==> low <= value <= high,
        r is Err ==> r == Err::<(), MoolahCoreError>(
            MoolahCoreError::IllogicalUncertaintyBounds { low, high, value },
        ),
{
    if low <= value && value <= high {
        Ok(())
    } else {
        Err(MoolahCoreError::IllogicalUncertaintyBounds { low, high, value })
    }
}

/// Checks explicit bounds, if any, against the nominal value.
fn check_uncertainty(value: i64, uncertainty: &Option<Uncertainty>) -> (r: Result<(), MoolahCoreError>)
    ensures
        r is Ok <==> bounds_hold(value as int, *uncertainty),
        r is Err ==> (*uncertainty matches Some(Uncertainty::Bounds { low, high }) && r == Err::<
            (),
            MoolahCoreError,
        >(MoolahCoreError::IllogicalUncertaintyBounds { low, high, value })),
{
    if let Some(Uncertainty::Bounds { low, high }) = uncertainty {
        reasonable_bounds(*low, *high, value)
    } else {
        Ok(())
    }
}

/// A scheduled change of an amount: a name, a nominal value in cents, an optional
/// uncertainty, and the dates on which it applies.
pub trait Delta {
    spec fn spec_name(&self) -> Seq<char>;

    spec fn spec_value(&self) -> int;

    spec fn spec_uncertainty(&self) -> Option<Uncertainty>;

    spec fn spec_dates(&self) -> Seq<Date>;

    fn name(&self) -> (r: &str)
        ensures
            r@ == self.spec_name(),
    ;

    fn value(&self) -> (r: i64)
        ensures
            r == self.spec_value(),
    ;

    fn uncertainty(&self) -> (r: &Option<Uncertainty>)
        ensures
            *r == self.spec_uncertainty(),
    ;

    fn dates(&self) -> (r: &[Date])
        ensures
            r@ == self.spec_dates(),
    ;

    /// The highest value that one occurrence may take.
    fn max_uncertainty_value(&self) -> (r: i128)
        ensures
            r == max_bound(self.spec_value(), self.spec_uncertainty()),
            -0x4000_0000_0000_0000_8000_0000_0000_0000 <= r <= 0x4000_0000_0000_0000_8000_0000_0000_0000,
    {
        let value = self.value();
        match self.uncertainty() {
            Some(Uncertainty::Balanced(t)) => value as i128 + spread_of(value, t),
            Some(Uncertainty::Unbalanced { low: _, high }) => value as i128 + spread_of(value, high),
            Some(Uncertainty::Bounds { low: _, high }) => *high as i128,
            None => value as i128,
        }
    }

    /// The lowest value that one occurrence may take.
    fn min_uncertainty_value(&self) -> (r: i128)
        ensures
            r == min_bound(self.spec_value(), self.spec_uncertainty()),
            -0x4000_0000_0000_0000_8000_0000_0000_0000 <= r <= 0x4000_0000_0000_0000_8000_0000_0000_0000,
    {
        let value = self.value();
        match self.uncertainty() {
            Some(Uncertainty::Balanced(t)) => value as i128 - spread_of(value, t),
            Some(Uncertainty::Unbalanced { low, high: _ }) => value as i128 - spread_of(value, low),
            Some(Uncertainty::Bounds { low, high: _ }) => *low as i128,
            None => value as i128,
        }
    }
}

} // verus!
