//! Forecasts of an account balance from a starting value and scheduled deltas: one-off,
//! daily, weekly, monthly, yearly or on chosen dates, each with an optional uncertainty.
//!
//! Amounts are integers in cents; percentages are whole percent.

pub mod date;
pub mod delta;
pub mod errors;
pub mod prediction;

pub use date::{naive_ymd, Date, Weekday};
pub use delta::{
    reasonable_bounds, CustomDelta, DailyDelta, Delta, MonthDay, MonthlyDelta, MultiMonthDuration,
    MultiYearDuration, OneTimeDelta, PositiveF64, Uncertainty, UncertaintyType, WeeklyDelta,
    YearlyDelta,
};
pub use errors::MoolahCoreError;
pub use prediction::{AnyDelta, Prediction, PredictionState};
