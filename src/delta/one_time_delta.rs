use super::{bounds_hold, check_uncertainty, Delta, Uncertainty};
use crate::date::{today, Date};
use crate::errors::MoolahCoreError;
use vstd::prelude::*;

verus! {

/// A delta that applies on a single date.
pub struct OneTimeDelta {
    name: String,
    value: i64,
    uncertainty: Option<Uncertainty>,
    date: Date,
    dates: Vec<Date>,
}

impl OneTimeDelta {
    /// A one-off delta; fails when explicit uncertainty bounds miss `value`.
    pub fn try_new(name: String, value: i64, uncertainty: Option<Uncertainty>, date: Date) -> (r:
        Result<OneTimeDelta, MoolahCoreError>)
        ensures
            r is Ok <==> bounds_hold(value as int, uncertainty),
            r is Err ==> (uncertainty matches Some(Uncertainty::Bounds { low, high }) && r == Err::<
                OneTimeDelta,
                MoolahCoreError,
            >(MoolahCoreError::IllogicalUncertaintyBounds { low, high, value })),
            r matches Ok(d) ==> {
                &&& d.spec_name() == name@
                &&& d.spec_value() == value
                &&& d.spec_uncertainty() == uncertainty
                &&& d.spec_date() == date
                &&& d.spec_dates() == seq![date]
            },
    {
        check_uncertainty(value, &uncertainty)?;
        Ok(OneTimeDelta { name, value, uncertainty, date, dates: vec![date] })
    }

    pub closed spec fn spec_date(&self) -> Date {
        self.date
    }

    pub fn date(&self) -> (r: &Date)
        ensures
            *r == self.spec_date(),
    {
        &self.date
    }
}

impl Delta for OneTimeDelta {
    closed spec fn spec_name(&self) -> Seq<char> {
        self.name@
    }

    closed spec fn spec_value(&self) -> int {
        self.value as int
    }

    closed spec fn spec_uncertainty(&self) -> Option<Uncertainty> {
        self.uncertainty
    }

    closed spec fn spec_dates(&self) -> Seq<Date> {
        self.dates@
    }

    fn name(&self) -> (r: &str) {
        self.name.as_str()
    }

    fn value(&self) -> (r: i64) {
        self.value
    }

    fn uncertainty(&self) -> (r: &Option<Uncertainty>) {
        &self.uncertainty
    }

    fn dates(&self) -> (r: &[Date]) {
        self.dates.as_slice()
    }
}

impl Default for OneTimeDelta {
    /// A nameless delta of value zero that applies today.
    fn default() -> (r: OneTimeDelta)
        ensures
            r.spec_name().len() == 0,
            r.spec_value() == 0,
            r.spec_uncertainty() is None,
            r.spec_dates() == seq![r.spec_date()],
    {
        let today = today();
        OneTimeDelta { name: String::new(), value: 0, uncertainty: None, date: today, dates: vec![today] }
    }
}

} // verus!
