use chrono::Datelike;
use moolah_core::{naive_ymd, Date, Delta, PositiveF64, Uncertainty, UncertaintyType, OneTimeDelta};

fn ymd(year: i32, month: u32, day: u32) -> Date {
    naive_ymd(year, month, day).unwrap()
}

fn today() -> Date {
    let t = chrono::Local::now().date_naive();
    ymd(t.year(), t.month(), t.day())
}

#[test]
fn one_time_delta_test_default() {
    let d = OneTimeDelta::default();

    assert_eq!(d.name(), "");
    assert_eq!(d.value(), 0);
    assert!(d.uncertainty().is_none());
    assert_eq!(*d.date(), today());
    assert_eq!(d.dates(), &[today()]);
}

#[test]
fn test_dates() {
    let date = ymd(2022, 10, 30);
    let d = OneTimeDelta::try_new(String::from("test"), 100000, None, date)
        .expect("Could not build OneTimeDelta");

    assert_eq!(d.dates().len(), 1);
    assert!(d.dates().contains(&date));
}

#[test]
fn one_time_delta_test_reasonable_bounds() {
    let date = ymd(2022, 10, 30);

    assert!(OneTimeDelta::try_new(
        String::from("test"),
        0,
        Some(Uncertainty::Bounds {
            low: 0,
            high: 0
        }),
        date
    )
    .is_ok());

    assert!(OneTimeDelta::try_new(
        String::from("test"),
        0,
        Some(Uncertainty::Bounds {
            low: 0,
            high: 10
        }),
        date
    )
    .is_ok());

    assert!(OneTimeDelta::try_new(
        String::from("test"),
        0,
        Some(Uncertainty::Bounds {
            low: -10,
            high: 0
        }),
        date
    )
    .is_ok());

    assert!(OneTimeDelta::try_new(
        String::from("test"),
        0,
        Some(Uncertainty::Bounds {
            low: -10,
            high: 10
        }),
        date
    )
    .is_ok());

    assert!(OneTimeDelta::try_new(
        String::from("test"),
        -100,
        Some(Uncertainty::Bounds {
            low: -10,
            high: 10
        }),
        date
    )
    .is_err());

    assert!(OneTimeDelta::try_new(
        String::from("test"),
        100,
        Some(Uncertainty::Bounds {
            low: -10,
            high: 10
        }),
        date
    )
    .is_err());

    assert!(OneTimeDelta::try_new(
        String::from("test"),
        0,
        Some(Uncertainty::Bounds {
            low: 10,
            high: -10
        }),
        date
    )
    .is_err());
}

#[test]
fn test_balanced_uncertainty() {
    let date = ymd(2022, 10, 30);

    // dollar uncertainty w/ positive value
    let d = OneTimeDelta::try_new(
        String::from("test"),
        100000,
        Some(Uncertainty::Balanced(UncertaintyType::Dollars(PositiveF64::try_new(300).unwrap()))),
        date,
    )
    .expect("Could not build OneTimeDelta");
    assert_eq!(d.max_uncertainty_value(), 100300);
    assert_eq!(d.min_uncertainty_value(), 99700);

    // dollar uncertainty w/ negative value
    let d = OneTimeDelta::try_new(
        String::from("test"),
        -100000,
        Some(Uncertainty::Balanced(UncertaintyType::Dollars(PositiveF64::try_new(300).unwrap()))),
        date,
    )
    .expect("Could not build OneTimeDelta");
    assert_eq!(d.max_uncertainty_value(), -99700);
    assert_eq!(d.min_uncertainty_value(), -100300);

    // percent uncertainty w/ positive value
    let d = OneTimeDelta::try_new(
        String::from("test"),
        100000,
        Some(Uncertainty::Balanced(UncertaintyType::Percent(PositiveF64::try_new(3).unwrap()))),
        date,
    )
    .expect("Could not build OneTimeDelta");
    assert_eq!(d.max_uncertainty_value(), 103000);
    assert_eq!(d.min_uncertainty_value(), 97000);

    // percent uncertainty w/ negative value
    let d = OneTimeDelta::try_new(
        String::from("test"),
        -100000,
        Some(Uncertainty::Balanced(UncertaintyType::Percent(PositiveF64::try_new(3).unwrap()))),
        date,
    )
    .expect("Could not build OneTimeDelta");
    assert_eq!(d.max_uncertainty_value(), -97000);
    assert_eq!(d.min_uncertainty_value(), -103000);
}
