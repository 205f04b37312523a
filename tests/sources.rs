use aqa_publisher::sources::{parse_csv_for_latest, parse_csv_series};
use aqa_publisher::{Date, Fred, NYFed, SofrError};

fn ymd(y: i32, m: u32, d: u32) -> Date {
    Date::from_ymd(y, m, d).unwrap()
}

#[test]
fn fred_latest_row_skips_missing_values() {
    let body = "observation_date,SOFR30DAYAVG\n2025-10-01,4.29\n2025-10-02,4.30\n2025-10-03,.\n";
    assert_eq!(Fred.parse(body.as_bytes()).unwrap(), (ymd(2025, 10, 2), 4_300_000));
}

#[test]
fn nyfed_latest_row_in_descending_order() {
    let body = "Effective Date,Rate Type,30-Day Average SOFR,90-Day Average SOFR\n\
                10/03/2025,SOFRAI,4.29320,4.31\n\
                10/02/2025,SOFRAI,4.30000,4.31\n\
                10/01/2025,SOFRAI,4.31000,4.31\n";
    assert_eq!(NYFed.parse(body.as_bytes()).unwrap(), (ymd(2025, 10, 3), 4_293_200));
}

#[test]
fn overnight_series_keeps_order_and_drops_missing() {
    let body = "observation_date,SOFR\n2025-10-01,4.20\n2025-10-02,\n2025-10-03, 4.25 \n";
    let s = Fred::parse_overnight_rates(body.as_bytes()).unwrap();
    assert_eq!(s, vec![(ymd(2025, 10, 1), 4_200_000), (ymd(2025, 10, 3), 4_250_000)]);
    let body = "Effective Date,Rate (%)\n10/03/2025,4.25\n10/02/2025,4.24\n";
    let s = NYFed::parse_overnight_rates(body.as_bytes()).unwrap();
    assert_eq!(s, vec![(ymd(2025, 10, 3), 4_250_000), (ymd(2025, 10, 2), 4_240_000)]);
}

#[test]
fn csv_errors() {
    assert!(matches!(parse_csv_for_latest(b"observation_date,SOFR30DAYAVG\n", "observation_date", "SOFR30DAYAVG"), Err(SofrError::NoData)));
    assert!(matches!(parse_csv_for_latest(b"observation_date,SOFR30DAYAVG\n2025-10-01,.\n", "observation_date", "SOFR30DAYAVG"), Err(SofrError::NoData)));
    assert!(matches!(parse_csv_series(b"date,value\n2025-10-01,4.2\n", "observation_date", "SOFR"), Err(SofrError::MalformedCsv)));
    assert!(matches!(parse_csv_series(b"observation_date,SOFR\n2025-10-01,4.2,9\n", "observation_date", "SOFR"), Err(SofrError::MalformedCsv)));
    assert!(matches!(parse_csv_series(b"observation_date,SOFR\n2025-13-01,4.2\n", "observation_date", "SOFR"), Err(SofrError::MalformedDate)));
    assert!(matches!(parse_csv_series(b"observation_date,SOFR\n2025-10-01,abc\n", "observation_date", "SOFR"), Err(SofrError::MalformedNumber)));
    assert!(matches!(parse_csv_series(b"", "observation_date", "SOFR"), Ok(v) if v.is_empty()));
}
