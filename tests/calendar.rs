use moolah_core::{
    naive_ymd, Date, MoolahCoreError, MonthDay, MultiMonthDuration, MultiYearDuration, Weekday,
};

fn ymd(year: i32, month: u32, day: u32) -> Date {
    naive_ymd(year, month, day).unwrap()
}

fn months(n_months: u32) -> MultiMonthDuration {
    MonthDay::try_new(1).unwrap() * n_months
}

#[test]
fn naive_ymd_accepts_real_dates_only() {
    assert!(naive_ymd(2024, 2, 29).is_ok());
    assert_eq!(
        naive_ymd(2023, 2, 29),
        Err(MoolahCoreError::InvalidDate { year: 2023, month: 2, day: 29 })
    );
    assert!(naive_ymd(2022, 13, 1).is_err());
    assert!(naive_ymd(2022, 4, 31).is_err());
    assert!(naive_ymd(2022, 1, 0).is_err());
    assert!(naive_ymd(1900, 2, 29).is_err());
    assert!(naive_ymd(2000, 2, 29).is_ok());
    assert!(naive_ymd(262142, 12, 31).is_ok());
    assert!(naive_ymd(262143, 1, 1).is_err());
    assert!(naive_ymd(-262143, 1, 1).is_ok());
    assert!(naive_ymd(-262144, 12, 31).is_err());
}

#[test]
fn date_fields() {
    let d = ymd(2022, 10, 28);
    assert_eq!((d.year(), d.month(), d.day()), (2022, 10, 28));
}

#[test]
fn day_numbers() {
    assert_eq!(ymd(1, 1, 1).num_days_from_ce(), 1);
    assert_eq!(ymd(1970, 1, 1).num_days_from_ce(), 719_163);
    assert_eq!(ymd(0, 1, 1).num_days_from_ce(), -365);
    assert_eq!(ymd(2, 1, 1).num_days_from_ce(), 366);
}

#[test]
fn weekdays() {
    assert_eq!(ymd(2022, 12, 19).weekday(), Weekday::Mon);
    assert_eq!(ymd(1970, 1, 1).weekday(), Weekday::Thu);
    assert_eq!(ymd(2022, 11, 2).weekday(), Weekday::Wed);
    assert_eq!(Weekday::Sun.num_days_from_monday(), 6);
}

#[test]
fn adding_days() {
    assert_eq!(ymd(2022, 12, 31).checked_add_days(1), Some(ymd(2023, 1, 1)));
    assert_eq!(ymd(2022, 3, 1).checked_add_days(-1), Some(ymd(2022, 2, 28)));
    assert_eq!(ymd(2024, 3, 1).checked_add_days(-1), Some(ymd(2024, 2, 29)));
    assert_eq!(ymd(2022, 10, 1).checked_add_days(30), Some(ymd(2022, 10, 31)));
    assert_eq!(ymd(262142, 12, 31).checked_add_days(1), None);
    assert_eq!(ymd(-262143, 1, 1).checked_add_days(-1), None);
}

#[test]
fn date_order() {
    assert!(ymd(2022, 11, 1).is_after(&ymd(2022, 10, 31)));
    assert!(!ymd(2022, 10, 31).is_after(&ymd(2022, 11, 1)));
    assert!(!ymd(2022, 10, 31).is_after(&ymd(2022, 10, 31)));
    assert!(ymd(2023, 1, 1).is_after(&ymd(2022, 12, 31)));
}

#[test]
fn adding_years_keeps_month_and_day() {
    let leap = ymd(2024, 2, 29);
    assert_eq!(MultiYearDuration::new(0).try_add(leap), Ok(leap));
    assert_eq!(MultiYearDuration::new(1).try_add(leap), Ok(ymd(2025, 2, 28)));
    assert_eq!(MultiYearDuration::new(4).try_add(leap), Ok(ymd(2028, 2, 29)));
    assert_eq!(MultiYearDuration::new(3).try_add(ymd(2022, 10, 31)), Ok(ymd(2025, 10, 31)));
}

#[test]
fn adding_years_past_the_range_fails() {
    assert_eq!(
        MultiYearDuration::new(1).try_add(ymd(262142, 6, 1)),
        Err(MoolahCoreError::DateOutOfRange)
    );
}

#[test]
fn adding_months_past_the_range_fails() {
    assert_eq!(months(1).try_add(ymd(262142, 12, 15)), Err(MoolahCoreError::DateOutOfRange));
    assert_eq!(months(1).try_add(ymd(262142, 11, 15)), Ok(ymd(262142, 12, 15)));
}

#[test]
fn adding_months_returns_to_the_day_after_short_months() {
    let d = ymd(2023, 1, 31);
    assert_eq!(months(1).try_add(d), Ok(ymd(2023, 2, 28)));
    assert_eq!(months(2).try_add(d), Ok(ymd(2023, 3, 31)));
    assert_eq!(months(13).try_add(d), Ok(ymd(2024, 2, 29)));
    assert_eq!(months(0).try_add(d), Ok(d));
}

#[test]
fn month_day_range() {
    assert_eq!(MonthDay::try_new(0), Err(MoolahCoreError::MonthDayOutOfRange(0)));
    assert_eq!(MonthDay::try_new(32), Err(MoolahCoreError::MonthDayOutOfRange(32)));
    assert_eq!(MonthDay::try_new(-3), Err(MoolahCoreError::MonthDayOutOfRange(-3)));
    assert_eq!(MonthDay::try_new(31).unwrap().day(), 31);
    assert_eq!(MonthDay::try_new(1).unwrap().day(), 1);
    assert_eq!(MonthDay::default().day(), 1);
    let from_u8: Result<MonthDay, MoolahCoreError> = 40u8.try_into();
    assert_eq!(from_u8, Err(MoolahCoreError::MonthDayOutOfRange(40)));
    let from_i32: Result<MonthDay, MoolahCoreError> = (-1i32).try_into();
    assert_eq!(from_i32, Err(MoolahCoreError::MonthDayOutOfRange(-1)));
}

#[test]
fn month_day_conversions() {
    let md = MonthDay::try_new(17).unwrap();
    assert_eq!(u32::from(md), 17);
    assert_eq!(u32::from(&md), 17);
    let ok: Result<MonthDay, MoolahCoreError> = 31u32.try_into();
    assert_eq!(ok.unwrap().day(), 31);
    let err: Result<MonthDay, MoolahCoreError> = 0u32.try_into();
    assert_eq!(err, Err(MoolahCoreError::MonthDayOutOfRange(0)));
}
