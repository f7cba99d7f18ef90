use moolah_core::{naive_ymd, Date, MonthDay, MultiMonthDuration};

fn ymd(year: i32, month: u32, day: u32) -> Date {
    naive_ymd(year, month, day).unwrap()
}

fn months(n_months: u32) -> MultiMonthDuration {
    let md: MonthDay = 1u32.try_into().unwrap();
    md * n_months
}

#[test]
fn test_mult_month_day() {
    let md: MonthDay = 17u32.try_into().unwrap();
    assert_eq!((md * 7).n_months, 7);
}

#[test]
fn test_add_multi_months() {
    let d = ymd(2022, 10, 31);

    assert_eq!(months(1).try_add(d).unwrap(), ymd(2022, 11, 30));
    assert_eq!(months(2).try_add(d).unwrap(), ymd(2022, 12, 31));
    assert_eq!(months(3).try_add(d).unwrap(), ymd(2023, 1, 31));
    assert_eq!(months(4).try_add(d).unwrap(), ymd(2023, 2, 28));
    assert_eq!(months(5).try_add(d).unwrap(), ymd(2023, 3, 31));
    assert_eq!(
        months(16).try_add(d).unwrap(),
        ymd(2024, 2, 29) // leap year
    );
}
