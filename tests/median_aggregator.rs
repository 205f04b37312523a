use aqa_publisher::{compute_validated_median, Date, SofrError};

fn ymd(y: i32, m: u32, d: u32) -> Date {
    Date::from_ymd(y, m, d).unwrap()
}

fn test_date() -> Date {
    ymd(2025, 10, 7)
}

#[test]
fn test_all_three_sources_agree() {
    let query_date = test_date();
    let rate = 4_293_200u64;
    let results = vec![("FRED", query_date, rate), ("NYFed", query_date, rate), ("OFR", query_date, rate)];
    let (median_date, median_value) = compute_validated_median(query_date, results).unwrap();
    assert_eq!(median_date, query_date);
    assert_eq!(median_value, rate);
}

#[test]
fn test_three_sources_with_median() {
    let query_date = test_date();
    let fred_rate = 4_293_200u64;
    let nyfed_rate = 4_303_200u64;
    let ofr_rate = 4_283_200u64;
    let results = vec![
        ("FRED", query_date, fred_rate),
        ("NYFed", query_date, nyfed_rate),
        ("OFR", query_date, ofr_rate),
    ];
    let (median_date, median_value) = compute_validated_median(query_date, results).unwrap();
    assert_eq!(median_date, query_date);
    assert_eq!(median_value, fred_rate);
}

#[test]
fn test_two_sources_agree_within_tolerance() {
    let query_date = test_date();
    let fred_rate = 4_293_200u64;
    let nyfed_rate = 4_333_200u64;
    let results = vec![("FRED", query_date, fred_rate), ("NYFed", query_date, nyfed_rate)];
    let (median_date, median_value) = compute_validated_median(query_date, results).unwrap();
    assert_eq!(median_date, query_date);
    assert_eq!(median_value, (fred_rate + nyfed_rate) / 2);
    assert_eq!(median_value, 4_313_200);
}

#[test]
fn test_two_sources_differ_by_exactly_5bps() {
    let query_date = test_date();
    let results = vec![("FRED", query_date, 4_293_200u64), ("NYFed", query_date, 4_343_200u64)];
    let result = compute_validated_median(query_date, results);
    assert!(result.is_ok());
}

#[test]
fn test_two_sources_differ_by_more_than_5bps() {
    let query_date = test_date();
    let results = vec![("FRED", query_date, 4_293_200u64), ("NYFed", query_date, 4_343_201u64)];
    let result = compute_validated_median(query_date, results);
    assert!(result.is_err());
    let err_msg = result.unwrap_err().to_string();
    assert!(err_msg.contains("differ by more than 5 bps"));
}

#[test]
fn test_fred_fails_two_sources_agree() {
    let query_date = test_date();
    let results = vec![("NYFed", query_date, 4_293_200u64), ("OFR", query_date, 4_303_200u64)];
    let result = compute_validated_median(query_date, results);
    assert!(result.is_ok());
}

#[test]
fn test_fred_fails_nyfed_ofr_differ_by_more_than_5bps() {
    let query_date = test_date();
    let results = vec![("NYFed", query_date, 4_293_200u64), ("OFR", query_date, 4_393_200u64)];
    let result = compute_validated_median(query_date, results);
    assert!(result.is_err());
    let err_msg = result.unwrap_err().to_string();
    assert!(err_msg.contains("differ by more than 5 bps"));
}

#[test]
fn test_only_one_source_succeeds() {
    let query_date = test_date();
    let results = vec![("FRED", query_date, 4_293_200u64)];
    let result = compute_validated_median(query_date, results);
    assert!(result.is_err());
    let err_msg = result.unwrap_err().to_string();
    assert!(err_msg.contains("Need at least 2 sources"));
}

#[test]
fn test_no_sources_succeed() {
    let query_date = test_date();
    let results: Vec<(&str, Date, u64)> = vec![];
    let result = compute_validated_median(query_date, results);
    assert!(result.is_err());
    let err_msg = result.unwrap_err().to_string();
    assert!(err_msg.contains("Need at least 2 sources"));
}

#[test]
fn test_three_sources_one_outlier_within_tolerance() {
    let query_date = test_date();
    let fred_rate = 4_293_200u64;
    let nyfed_rate = 4_333_200u64;
    let ofr_rate = 4_393_200u64;
    let results = vec![
        ("FRED", query_date, fred_rate),
        ("NYFed", query_date, nyfed_rate),
        ("OFR", query_date, ofr_rate),
    ];
    let result = compute_validated_median(query_date, results);
    assert!(result.is_ok());
    let (_, median_value) = result.unwrap();
    assert_eq!(median_value, nyfed_rate);
}

#[test]
fn test_three_sources_all_disagree() {
    let query_date = test_date();
    let results = vec![
        ("FRED", query_date, 4_000_000u64),
        ("NYFed", query_date, 4_100_000u64),
        ("OFR", query_date, 4_200_000u64),
    ];
    let result = compute_validated_median(query_date, results);
    assert!(result.is_err());
    let err_msg = result.unwrap_err().to_string();
    assert!(err_msg.contains("differ by more than 5 bps"));
}

#[test]
fn test_different_dates_uses_median_date() {
    let query_date = ymd(2025, 10, 7);
    let date1 = ymd(2025, 10, 7);
    let date2 = ymd(2025, 10, 6);
    let rate = 4_293_200u64;
    let results = vec![("FRED", date1, rate), ("NYFed", date1, rate), ("OFR", date2, rate)];
    let (median_date, _) = compute_validated_median(query_date, results).unwrap();
    assert!(median_date == date1 || median_date == date2);
}

#[test]
fn test_edge_case_very_small_rates() {
    let query_date = test_date();
    let results = vec![("Source1", query_date, 100u64), ("Source2", query_date, 200u64)];
    let result = compute_validated_median(query_date, results);
    assert!(result.is_ok());
}

#[test]
fn test_edge_case_large_rates() {
    let query_date = test_date();
    let results = vec![("Source1", query_date, 10_000_000u64), ("Source2", query_date, 10_040_000u64)];
    let result = compute_validated_median(query_date, results);
    assert!(result.is_ok());
}

#[test]
fn test_staleness_check_passes_within_7_days() {
    let query_date = test_date();
    let data_date = ymd(2025, 10, 2);
    let rate = 4_293_200u64;
    let results = vec![("FRED", data_date, rate), ("NYFed", data_date, rate), ("OFR", data_date, rate)];
    let result = compute_validated_median(query_date, results);
    assert!(result.is_ok());
}

#[test]
fn test_staleness_check_passes_exactly_7_days() {
    let query_date = test_date();
    let data_date = ymd(2025, 9, 30);
    let rate = 4_293_200u64;
    let results = vec![("FRED", data_date, rate), ("NYFed", data_date, rate), ("OFR", data_date, rate)];
    let result = compute_validated_median(query_date, results);
    assert!(result.is_ok());
}

#[test]
fn test_staleness_check_fails_over_7_days() {
    let query_date = test_date();
    let data_date = ymd(2025, 9, 29);
    let rate = 4_293_200u64;
    let results = vec![("FRED", data_date, rate), ("NYFed", data_date, rate), ("OFR", data_date, rate)];
    let result = compute_validated_median(query_date, results);
    assert!(result.is_err());
    let err_msg = result.unwrap_err().to_string();
    assert!(err_msg.contains("too stale"));
    assert!(err_msg.contains("8 days behind"));
}

#[test]
fn test_staleness_check_uses_median_date() {
    let query_date = test_date();
    let recent_date = ymd(2025, 10, 6);
    let old_date = ymd(2025, 9, 27);
    let rate = 4_293_200u64;
    let results = vec![("FRED", recent_date, rate), ("NYFed", recent_date, rate), ("OFR", old_date, rate)];
    let result = compute_validated_median(query_date, results);
    assert!(result.is_ok());
}

#[test]
fn test_staleness_check_median_fails() {
    let query_date = test_date();
    let recent_date = ymd(2025, 10, 6);
    let old_date = ymd(2025, 9, 27);
    let rate = 4_293_200u64;
    let results = vec![("FRED", old_date, rate), ("NYFed", old_date, rate), ("OFR", recent_date, rate)];
    let result = compute_validated_median(query_date, results);
    assert!(result.is_err());
    let err_msg = result.unwrap_err().to_string();
    assert!(err_msg.contains("too stale"));
}

#[test]
fn three_agreeing_sources_median_and_reference_rate() {
    let d = test_date();
    let results = vec![("FRED", d, 4_293_200u64), ("NYFed", d, 4_303_200u64), ("OFR", d, 4_283_200u64)];
    let (median_date, median_value) = compute_validated_median(d, results).unwrap();
    assert_eq!((median_date, median_value), (d, 4_293_200));
    assert_eq!(aqa_publisher::aqa_ref_rate(median_value), 3_702_437);
}

#[test]
fn staleness_boundary_at_seven_days() {
    let q = test_date();
    let stale = ymd(2025, 9, 29);
    let ok = ymd(2025, 9, 30);
    let r = vec![("A", stale, 4_293_200u64), ("B", stale, 4_293_200u64)];
    match compute_validated_median(q, r) {
        Err(SofrError::StaleData { median_date, days_behind }) => {
            assert_eq!(median_date, stale);
            assert_eq!(days_behind, 8);
        }
        other => panic!("expected stale data, got {:?}", other),
    }
    let r = vec![("A", ok, 4_293_200u64), ("B", ok, 4_293_200u64)];
    assert!(compute_validated_median(q, r).is_ok());
}

#[test]
fn even_count_uses_earlier_middle_date() {
    let q = test_date();
    let old = ymd(2025, 9, 20);
    let recent = ymd(2025, 10, 6);
    // the earlier of the two middle dates is checked: two sources 17 days behind
    let r = vec![("A", old, 4_293_200u64), ("B", recent, 4_293_200u64)];
    assert!(matches!(compute_validated_median(q, r), Err(SofrError::StaleData { .. })));
}

#[test]
fn implausible_rate_is_rejected_with_its_source() {
    let q = test_date();
    let r = vec![("A", q, 15_000_001u64), ("B", q, 15_000_000u64)];
    match compute_validated_median(q, r) {
        Err(SofrError::OutOfRange { source, value }) => {
            assert_eq!(source, "A");
            assert_eq!(value, 15_000_001);
        }
        other => panic!("expected out of range, got {:?}", other),
    }
    let r = vec![("A", q, 15_000_000u64), ("B", q, 14_990_000u64)];
    assert_eq!(compute_validated_median(q, r).unwrap().1, 14_995_000);
}

#[test]
fn three_sources_give_the_middle_rate_not_an_extreme() {
    let q = test_date();
    let d1 = ymd(2025, 10, 6);
    let d2 = ymd(2025, 10, 3);
    let r = vec![("A", d1, 4_400_000u64), ("B", d2, 4_290_000u64), ("C", q, 4_300_000u64)];
    assert_eq!(compute_validated_median(q, r).unwrap(), (q, 4_300_000));
}
