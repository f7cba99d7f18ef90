use super::{bounds_hold, check_uncertainty, Delta, Uncertainty};
use crate::date::Date;
use crate::errors::MoolahCoreError;
use vstd::prelude::*;

verus! {

/// A delta that applies on dates chosen by the caller, taken as given.
pub struct CustomDelta {
    name: String,
    value: i64,
    uncertainty: Option<Uncertainty>,
    dates: Vec<Date>,
}

impl CustomDelta {
    /// A delta on the given dates; fails when explicit uncertainty bounds miss `value`.
    pub fn try_new(name: String, value: i64, uncertainty: Option<Uncertainty>, dates: Vec<Date>) -> (r:
        Result<CustomDelta, MoolahCoreError>)
        ensures
            r is Ok <==> bounds_hold(value as int, uncertainty),
            r is Err ==> (uncertainty matches Some(Uncertainty::Bounds { low, high }) && r == Err::<
                CustomDelta,
                MoolahCoreError,
            >(MoolahCoreError::IllogicalUncertaintyBounds { low, high, value })),
            r matches Ok(d) ==> {
                &&& d.spec_name() == name@
                &&& d.spec_value() == value
                &&& d.spec_uncertainty() == uncertainty
                &&& d.spec_dates() == dates@
            },
    {
        check_uncertainty(value, &uncertainty)?;
        Ok(CustomDelta { name, value, uncertainty, dates })
    }
}

impl Delta for CustomDelta {
    closed spec fn spec_name(&self) -> Seq<char> {
        self.name@
    }

    closed spec fn spec_value(&self) -> int {
        self.value as int
    }

    closed spec fn spec_uncertainty(&self) -> Option<Uncertainty> {
        self.uncertainty
    }

    closed spec fn spec_dates(&self) -> Seq<Date> {
        self.dates@
    }

    fn name(&self) -> (r: &str) {
        self.name.as_str()
    }

    fn value(&self) -> (r: i64) {
        self.value
    }

    fn uncertainty(&self) -> (r: &Option<Uncertainty>) {
        &self.uncertainty
    }

    fn dates(&self) -> (r: &[Date]) {
        self.dates.as_slice()
    }
}

impl Default for CustomDelta {
    /// A nameless delta of value zero with no dates.
    fn default() -> (r: CustomDelta)
        ensures
            r.spec_name().len() == 0,
            r.spec_value() == 0,
            r.spec_uncertainty() is None,
            r.spec_dates().len() == 0,
    {
        CustomDelta { name: String::new(), value: 0, uncertainty: None, dates: Vec::new() }
    }
}

} // verus!
