use aqa_publisher::compound::compounding_segments;
use aqa_publisher::sources::{de_decimal2, parse_ofr_series};
use aqa_publisher::{compute_compounded_average, Date, SofrError, OFR};
use chrono::Datelike;

fn ymd(y: i32, m: u32, d: u32) -> Date {
    Date::from_ymd(y, m, d).unwrap()
}

fn make_row(date: Date, rate: &str) -> (Date, u64) {
    (date, de_decimal2(rate).unwrap())
}

fn is_weekday(d: Date) -> bool {
    let nd = chrono::NaiveDate::from_num_days_from_ce_opt(d.day_number).unwrap();
    nd.weekday().num_days_from_monday() < 5
}

#[test]
fn compute_compounded_basic() {
    let effective_date = ymd(2025, 10, 3);
    let mut data = vec![];
    for i in 0..45u64 {
        let date = effective_date.minus_days(44 - i);
        data.push(make_row(date, "4.00"));
    }
    let result = OFR::compute_compounded(effective_date, &data).unwrap();
    let diff = result.abs_diff(4_000_000);
    assert!(diff < 10_000, "Expected ~4.00, got {}", result);
}

#[test]
fn compute_compounded_with_weekends() {
    let effective_date = ymd(2025, 10, 3);
    let mut data = vec![];
    let start = effective_date.minus_days(44);
    for i in 0..45u64 {
        let date = start.plus_days(i);
        if is_weekday(date) {
            data.push(make_row(date, "4.25"));
        }
    }
    let result = OFR::compute_compounded(effective_date, &data).unwrap();
    let diff = result.abs_diff(4_250_000);
    assert!(diff < 10_000, "Expected ~4.25, got {}", result);
    let segs = compounding_segments(effective_date, &data).unwrap();
    assert_eq!(segs.iter().map(|s| s.1).sum::<u64>(), 30);
    assert!(segs.iter().any(|s| s.1 == 3));
}

#[test]
fn compute_compounded_insufficient_history() {
    let effective_date = ymd(2025, 10, 3);
    let data = vec![make_row(ymd(2025, 10, 3), "4.00")];
    let result = OFR::compute_compounded(effective_date, &data);
    assert!(result.is_err());
    assert!(result.unwrap_err().to_string().contains("insufficient history"));
}

#[test]
fn compute_compounded_empty_data() {
    let effective_date = ymd(2025, 10, 3);
    let data = vec![];
    let result = OFR::compute_compounded(effective_date, &data);
    assert!(result.is_err());
    assert!(result.unwrap_err().to_string().contains("no observations"));
}

#[test]
fn compute_compounded_filters_future_dates() {
    let effective_date = ymd(2025, 10, 3);
    let mut data = vec![];
    for i in 0..35u64 {
        let date = effective_date.minus_days(34 - i);
        data.push(make_row(date, "4.00"));
    }
    data.push(make_row(ymd(2025, 10, 4), "10.00"));
    data.push(make_row(ymd(2025, 10, 5), "10.00"));
    let result = OFR::compute_compounded(effective_date, &data).unwrap();
    let diff = result.abs_diff(4_000_000);
    assert!(diff < 10_000, "Future dates should be filtered out. Expected ~4.00, got {}", result);
}

#[test]
fn compute_compounded_realistic_variation() {
    let effective_date = ymd(2025, 10, 3);
    let mut data = vec![];
    let rates = ["4.29", "4.30", "4.31", "4.32", "4.30", "4.29", "4.28"];
    for i in 0..35u64 {
        let date = effective_date.minus_days(34 - i);
        let rate = rates[(i as usize) % rates.len()];
        data.push(make_row(date, rate));
    }
    let result = OFR::compute_compounded(effective_date, &data).unwrap();
    assert!(result > 4_270_000 && result < 4_330_000, "Expected rate in range [4.27, 4.33], got {}", result);
}

#[test]
fn parse_json_format() {
    let json = r#"[
        ["2025-09-20", 4.29],
        ["2025-09-23", 4.30],
        ["2025-09-24", 4.31],
        ["2025-10-01", 4.32],
        ["2025-10-02", 4.30],
        ["2025-10-03", 4.29]
    ]"#;
    let rows = parse_ofr_series(json.as_bytes()).unwrap();
    assert_eq!(rows.len(), 6);
    assert_eq!(rows[0].0, ymd(2025, 9, 20));
    assert_eq!(rows[0].1, 4_290_000);
    assert_eq!(rows[5].0, ymd(2025, 10, 3));
    assert_eq!(rows[5].1, 4_290_000);
}

#[test]
fn parse_integration() {
    let json = r#"[
        ["2025-09-03", 4.28], ["2025-09-04", 4.28], ["2025-09-05", 4.29], ["2025-09-06", 4.30],
        ["2025-09-09", 4.31], ["2025-09-10", 4.32], ["2025-09-11", 4.30], ["2025-09-12", 4.29],
        ["2025-09-13", 4.28], ["2025-09-16", 4.29], ["2025-09-17", 4.30], ["2025-09-18", 4.31],
        ["2025-09-19", 4.30], ["2025-09-20", 4.29], ["2025-09-23", 4.30], ["2025-09-24", 4.31],
        ["2025-09-25", 4.32], ["2025-09-26", 4.30], ["2025-09-27", 4.29], ["2025-09-30", 4.30],
        ["2025-10-01", 4.31], ["2025-10-02", 4.30], ["2025-10-03", 4.29]
    ]"#;
    let ofr = OFR;
    let result = ofr.parse(json.as_bytes()).unwrap();
    assert_eq!(result.0, ymd(2025, 10, 3));
    assert!(result.1 > 4_280_000 && result.1 < 4_320_000, "Expected scaled value around 4,300,000, got {}", result.1);
}

#[test]
fn flat_series_segments_are_daily() {
    let eff = ymd(2025, 10, 3);
    let data: Vec<(Date, u64)> = (0..45u64).map(|i| (eff.minus_days(44 - i), 4_000_000)).collect();
    let segs = compounding_segments(eff, &data).unwrap();
    assert_eq!(segs.len(), 30);
    assert!(segs.iter().all(|s| *s == (4_000_000, 1)));
    // rates exactly at 4% for 30 single days compound slightly above the simple rate
    let avg = compute_compounded_average(eff, &data).unwrap();
    assert!(avg >= 4_000_000 && avg < 4_010_000, "got {}", avg);
}

#[test]
fn carry_forward_from_before_the_period() {
    let eff = ymd(2025, 10, 31);
    // one rate long before the period, one change inside it
    let data = vec![(ymd(2025, 9, 1), 4_000_000u64), (ymd(2025, 10, 11), 5_000_000u64)];
    let segs = compounding_segments(eff, &data).unwrap();
    assert_eq!(segs, vec![(4_000_000, 10), (5_000_000, 20)]);
}

#[test]
fn compounding_errors() {
    let eff = ymd(2025, 10, 3);
    let future_only = vec![(ymd(2025, 10, 4), 4_000_000u64)];
    assert!(matches!(compute_compounded_average(eff, &future_only), Err(SofrError::NoData)));
    let recent_only = vec![(ymd(2025, 10, 1), 4_000_000u64)];
    assert!(matches!(compute_compounded_average(eff, &recent_only), Err(SofrError::InsufficientHistory)));
    assert!(matches!(parse_ofr_series(b"{\"a\": 1}"), Err(SofrError::MalformedJson)));
    assert!(matches!(OFR.parse(b"[]"), Err(SofrError::NoData)));
}

#[test]
fn later_entry_for_a_day_wins() {
    let eff = ymd(2025, 10, 31);
    let data = vec![
        (ymd(2025, 9, 1), 9_000_000u64),
        (ymd(2025, 10, 11), 6_000_000u64),
        (ymd(2025, 9, 1), 4_000_000u64),
        (ymd(2025, 10, 11), 5_000_000u64),
    ];
    let segs = compounding_segments(eff, &data).unwrap();
    assert_eq!(segs, vec![(4_000_000, 10), (5_000_000, 20)]);
}
