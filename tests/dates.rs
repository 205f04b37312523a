use aqa_publisher::{parse_ymd, window, Date, SofrError, DEFAULT_LOOKBACK_WINDOW};

fn ymd(y: i32, m: u32, d: u32) -> Date {
    Date::from_ymd(y, m, d).unwrap()
}

#[test]
fn valid_lookback_14days() {
    let actual_end = ymd(2025, 10, 5);
    let actual_start = ymd(2025, 9, 21);
    let (calc_start, calc_end) = window(actual_end, DEFAULT_LOOKBACK_WINDOW);
    assert_eq!(calc_end, actual_end);
    assert_eq!(calc_start, actual_start);
    assert_eq!(calc_end.days_since(&calc_start) as u64, DEFAULT_LOOKBACK_WINDOW);
}

#[test]
fn valid_leap_lookback_14days() {
    let actual_end = ymd(2024, 3, 1);
    let actual_start = ymd(2024, 2, 16);
    let (calc_start, calc_end) = window(actual_end, DEFAULT_LOOKBACK_WINDOW);
    assert_eq!(calc_end, actual_end);
    assert_eq!(calc_start, actual_start);
    assert_eq!(calc_end.days_since(&calc_start) as u64, DEFAULT_LOOKBACK_WINDOW);
}

#[test]
fn valid_leap_lookback_45days() {
    let actual_end = ymd(2024, 3, 1);
    let actual_start = ymd(2024, 1, 16);
    let (calc_start, calc_end) = window(actual_end, 45);
    assert_eq!(calc_end, actual_end);
    assert_eq!(calc_start, actual_start);
    assert_eq!(calc_end.days_since(&calc_start) as u64, 45);
}

#[test]
fn well_formed_date() {
    assert_eq!(parse_ymd("2025-10-03").unwrap(), ymd(2025, 10, 3));
    assert_eq!(parse_ymd("2024-02-29").unwrap(), ymd(2024, 2, 29));
    assert_eq!(parse_ymd("2025-2-9").unwrap(), ymd(2025, 2, 9));
}

#[test]
fn trim_whitspace() {
    assert_eq!(parse_ymd("  2025-01-05  ").unwrap(), ymd(2025, 1, 5));
}

#[test]
fn reject_bad_formed_or_invalid_dates() {
    assert!(parse_ymd("03-10-2025").is_err());
    assert!(parse_ymd("2025-02-29").is_err());
    assert!(parse_ymd("2025-13-01").is_err());
    assert!(parse_ymd("2025-00-01").is_err());
    assert!(parse_ymd("2025-01-00").is_err());
    assert!(parse_ymd("not-a-date").is_err());
    assert!(parse_ymd("").is_err());
}

#[test]
fn accepts_us_date() {
    assert_eq!(parse_ymd("10/03/2025").unwrap(), ymd(2025, 10, 3));
    assert_eq!(parse_ymd("7/4/2025").unwrap(), ymd(2025, 7, 4));
}

#[test]
fn trims_whitespace_in_us_date() {
    assert_eq!(parse_ymd("  10/03/2025 ").unwrap(), ymd(2025, 10, 3));
}

#[test]
fn date_arithmetic_and_text() {
    let d = ymd(2025, 10, 7);
    assert_eq!(d.minus_days(7), ymd(2025, 9, 30));
    assert_eq!(d.plus_days(25), ymd(2025, 11, 1));
    assert_eq!(d.days_since(&ymd(2025, 9, 29)), 8);
    assert_eq!(d.to_iso_string().unwrap(), "2025-10-07");
    assert!(Date::from_ymd(2025, 2, 29).is_none());
    assert_eq!(ymd(1, 1, 1).day_number, 1);
    assert!(matches!(parse_ymd("2025/10/07"), Err(SofrError::MalformedDate)));
}
