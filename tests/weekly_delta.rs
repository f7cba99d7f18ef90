use chrono::Datelike;
use moolah_core::delta::weekly_delta::{round_back_to_prev_weekday, round_up_to_next_weekday};
use moolah_core::{naive_ymd, Date, Delta, Uncertainty, WeeklyDelta, Weekday};

fn ymd(year: i32, month: u32, day: u32) -> Date {
    naive_ymd(year, month, day).unwrap()
}

fn today() -> Date {
    let t = chrono::Local::now().date_naive();
    ymd(t.year(), t.month(), t.day())
}

#[test]
fn weekly_delta_test_default() {
    let d = WeeklyDelta::default();
    let today = today();

    assert_eq!(d.name(), "");
    assert_eq!(d.value(), 0);
    assert!(d.uncertainty().is_none());
    assert_eq!(d.dates(), &[today]);
    assert_eq!(*d.start(), today);
    assert_eq!(*d.end(), today);
    assert_eq!(*d.on_weekday(), Weekday::Mon);
    assert_eq!(d.skip_weeks(), 0);
}

#[test]
fn weekly_delta_test_start_cannot_be_later_than_end() {
    let d = ymd(2022, 11, 1);
    assert!(
        WeeklyDelta::try_new(String::from("test"), 0, None, d, d, Some(Weekday::Mon), 0).is_ok()
    );
    assert!(WeeklyDelta::try_new(
        String::from("test"),
        0,
        None,
        d,
        d.checked_add_days(-1).unwrap(),
        Some(Weekday::Mon),
        0
    )
    .is_err());
}

#[test]
fn weekly_delta_test_reasonable_bounds() {
    let date = ymd(2022, 10, 30);

    assert!(WeeklyDelta::try_new(
        String::from("test"),
        0,
        Some(Uncertainty::Bounds {
            low: 0,
            high: 0
        }),
        date,
        date,
        Some(Weekday::Mon),
        0
    )
    .is_ok());

    assert!(WeeklyDelta::try_new(
        String::from("test"),
        0,
        Some(Uncertainty::Bounds {
            low: 0,
            high: 10
        }),
        date,
        date,
        Some(Weekday::Mon),
        0
    )
    .is_ok());

    assert!(WeeklyDelta::try_new(
        String::from("test"),
        0,
        Some(Uncertainty::Bounds {
            low: -10,
            high: 0
        }),
        date,
        date,
        Some(Weekday::Mon),
        0
    )
    .is_ok());

    assert!(WeeklyDelta::try_new(
        String::from("test"),
        0,
        Some(Uncertainty::Bounds {
            low: -10,
            high: 10
        }),
        date,
        date,
        Some(Weekday::Mon),
        0
    )
    .is_ok());

    assert!(WeeklyDelta::try_new(
        String::from("test"),
        -100,
        Some(Uncertainty::Bounds {
            low: -10,
            high: 10
        }),
        date,
        date,
        Some(Weekday::Mon),
        0
    )
    .is_err());

    assert!(WeeklyDelta::try_new(
        String::from("test"),
        100,
        Some(Uncertainty::Bounds {
            low: -10,
            high: 10
        }),
        date,
        date,
        Some(Weekday::Mon),
        0
    )
    .is_err());

    assert!(WeeklyDelta::try_new(
        String::from("test"),
        0,
        Some(Uncertainty::Bounds {
            low: 10,
            high: -10
        }),
        date,
        date,
        Some(Weekday::Mon),
        0
    )
    .is_err());
}

fn test_weekly_dates(
    start: Date,
    end: Date,
    weekday: Option<Weekday>,
    skip_weeks: u32,
    expected_dates: &[Date],
) {
    let d = WeeklyDelta::try_new(
        String::from("test"),
        0,
        None,
        start,
        end,
        weekday,
        skip_weeks,
    )
    .unwrap();

    let dates = d.dates();
    for date in expected_dates.iter() {
        assert!(dates.contains(date), "date = {:?}", date);
    }
    assert_eq!(dates.len(), expected_dates.len());
}

// Test where start & end falls on the specified weekday
#[test]
fn test_falls_on_weekday_skip_weeks_0() {
    let expected_dates = vec![
        ymd(2022, 12, 19),
        ymd(2022, 12, 26),
        ymd(2023, 1, 2),
        ymd(2023, 1, 9),
        ymd(2023, 1, 16),
    ];

    test_weekly_dates(
        ymd(2022, 12, 19),
        ymd(2023, 1, 16),
        Some(Weekday::Mon),
        0,
        &expected_dates,
    );
}

#[test]
fn test_falls_on_weekday_skip_weeks_1() {
    let expected_dates = vec![
        ymd(2022, 12, 19),
        ymd(2023, 1, 2),
        ymd(2023, 1, 16),
    ];

    test_weekly_dates(
        ymd(2022, 12, 19),
        ymd(2023, 1, 16),
        Some(Weekday::Mon),
        1,
        &expected_dates,
    );
}

#[test]
fn test_falls_on_weekday_skip_weeks_2() {
    let expected_dates = vec![
        ymd(2022, 12, 19),
        ymd(2023, 1, 9),
    ];

    test_weekly_dates(
        ymd(2022, 12, 19),
        ymd(2023, 1, 16),
        Some(Weekday::Mon),
        2,
        &expected_dates,
    );
}

#[test]
fn test_falls_on_weekday_skip_weeks_3() {
    let expected_dates = vec![
        ymd(2022, 12, 19),
        ymd(2023, 1, 16),
    ];

    test_weekly_dates(
        ymd(2022, 12, 19),
        ymd(2023, 1, 16),
        Some(Weekday::Mon),
        3,
        &expected_dates,
    );
}

#[test]
fn test_falls_on_weekday_skip_weeks_4() {
    let expected_dates = vec![ymd(2022, 12, 19)];

    test_weekly_dates(
        ymd(2022, 12, 19),
        ymd(2023, 1, 16),
        Some(Weekday::Mon),
        4,
        &expected_dates,
    );
}

#[test]
fn test_falls_on_weekday_skip_weeks_100() {
    let expected_dates = vec![ymd(2022, 12, 19)];

    test_weekly_dates(
        ymd(2022, 12, 19),
        ymd(2023, 1, 16),
        Some(Weekday::Mon),
        100,
        &expected_dates,
    );
}

// Test where start & end falls on weekday before specified
#[test]
fn test_falls_before_weekday_skip_weeks_0() {
    let expected_dates = vec![
        ymd(2022, 12, 21),
        ymd(2022, 12, 28),
        ymd(2023, 1, 4),
        ymd(2023, 1, 11),
    ];

    test_weekly_dates(
        ymd(2022, 12, 19),
        ymd(2023, 1, 16),
        Some(Weekday::Wed),
        0,
        &expected_dates,
    );
}

#[test]
fn test_falls_before_weekday_skip_weeks_1() {
    let expected_dates = vec![
        ymd(2022, 12, 21),
        ymd(2023, 1, 4),
    ];

    test_weekly_dates(
        ymd(2022, 12, 19),
        ymd(2023, 1, 16),
        Some(Weekday::Wed),
        1,
        &expected_dates,
    );
}

#[test]
fn test_falls_before_weekday_skip_weeks_2() {
    let expected_dates = vec![
        ymd(2022, 12, 21),
        ymd(2023, 1, 11),
    ];

    test_weekly_dates(
        ymd(2022, 12, 19),
        ymd(2023, 1, 16),
        Some(Weekday::Wed),
        2,
        &expected_dates,
    );
}

#[test]
fn test_falls_before_weekday_skip_weeks_3() {
    let expected_dates = vec![ymd(2022, 12, 21)];

    test_weekly_dates(
        ymd(2022, 12, 19),
        ymd(2023, 1, 16),
        Some(Weekday::Wed),
        3,
        &expected_dates,
    );
}

#[test]
fn test_falls_before_weekday_skip_weeks_100() {
    let expected_dates = vec![ymd(2022, 12, 21)];

    test_weekly_dates(
        ymd(2022, 12, 19),
        ymd(2023, 1, 16),
        Some(Weekday::Wed),
        100,
        &expected_dates,
    );
}

// Test where start & end falls on weekday after specified
#[test]
fn test_falls_after_weekday_skip_weeks_0() {
    let expected_dates = vec![
        ymd(2022, 12, 28),
        ymd(2023, 1, 4),
        ymd(2023, 1, 11),
        ymd(2023, 1, 18),
    ];

    test_weekly_dates(
        ymd(2022, 12, 23),
        ymd(2023, 1, 21),
        Some(Weekday::Wed),
        0,
        &expected_dates,
    );
}

#[test]
fn test_falls_after_weekday_skip_weeks_1() {
    let expected_dates = vec![
        ymd(2022, 12, 28),
        ymd(2023, 1, 11),
    ];

    test_weekly_dates(
        ymd(2022, 12, 23),
        ymd(2023, 1, 21),
        Some(Weekday::Wed),
        1,
        &expected_dates,
    );
}

#[test]
fn test_falls_after_weekday_skip_weeks_2() {
    let expected_dates = vec![
        ymd(2022, 12, 28),
        ymd(2023, 1, 18),
    ];

    test_weekly_dates(
        ymd(2022, 12, 23),
        ymd(2023, 1, 21),
        Some(Weekday::Wed),
        2,
        &expected_dates,
    );
}

#[test]
fn test_falls_after_weekday_skip_weeks_3() {
    let expected_dates = vec![ymd(2022, 12, 28)];

    test_weekly_dates(
        ymd(2022, 12, 23),
        ymd(2023, 1, 21),
        Some(Weekday::Wed),
        3,
        &expected_dates,
    );
}

#[test]
fn test_falls_after_weekday_skip_weeks_100() {
    let expected_dates = vec![ymd(2022, 12, 28)];

    test_weekly_dates(
        ymd(2022, 12, 23),
        ymd(2023, 1, 21),
        Some(Weekday::Wed),
        100,
        &expected_dates,
    );
}

#[test]
fn test_round_date_up() {
    let date = ymd(2022, 11, 2); // a Wednesday
    assert_eq!(round_up_to_next_weekday(&date, &Weekday::Mon).unwrap(), ymd(2022, 11, 7));
    assert_eq!(round_up_to_next_weekday(&date, &Weekday::Tue).unwrap(), ymd(2022, 11, 8));
    assert_eq!(round_up_to_next_weekday(&date, &Weekday::Wed).unwrap(), ymd(2022, 11, 2));
    assert_eq!(round_up_to_next_weekday(&date, &Weekday::Thu).unwrap(), ymd(2022, 11, 3));
    assert_eq!(round_up_to_next_weekday(&date, &Weekday::Fri).unwrap(), ymd(2022, 11, 4));
    assert_eq!(round_up_to_next_weekday(&date, &Weekday::Sat).unwrap(), ymd(2022, 11, 5));
    assert_eq!(round_up_to_next_weekday(&date, &Weekday::Sun).unwrap(), ymd(2022, 11, 6));
}

#[test]
fn test_round_date_back() {
    let date = ymd(2022, 11, 2); // a Wednesday
    assert_eq!(round_back_to_prev_weekday(&date, &Weekday::Mon).unwrap(), ymd(2022, 10, 31));
    assert_eq!(round_back_to_prev_weekday(&date, &Weekday::Tue).unwrap(), ymd(2022, 11, 1));
    assert_eq!(round_back_to_prev_weekday(&date, &Weekday::Wed).unwrap(), ymd(2022, 11, 2));
    assert_eq!(round_back_to_prev_weekday(&date, &Weekday::Thu).unwrap(), ymd(2022, 10, 27));
    assert_eq!(round_back_to_prev_weekday(&date, &Weekday::Fri).unwrap(), ymd(2022, 10, 28));
    assert_eq!(round_back_to_prev_weekday(&date, &Weekday::Sat).unwrap(), ymd(2022, 10, 29));
    assert_eq!(round_back_to_prev_weekday(&date, &Weekday::Sun).unwrap(), ymd(2022, 10, 30));
}
