use aqa_publisher::numeric::{aqa_ref_rate, aqa_scale};
use aqa_publisher::sources::{de_decimal2, de_scaled, de_scaled_opt};
use aqa_publisher::{adjust_basis, fmt_scaled_rate, percent_to_floored_u64, SofrError};

#[test]
fn decimal_scaling() {
    assert_eq!(fmt_scaled_rate(0), "0.00000000");
    assert_eq!(fmt_scaled_rate(1_000_000), "0.01000000");
    assert_eq!(fmt_scaled_rate(4_500_000), "0.04500000");
    assert_eq!(fmt_scaled_rate(100_000_000), "1.00000000");
    assert_eq!(fmt_scaled_rate(12_345_678), "0.12345678");
}

#[test]
fn basis_scaling() {
    assert_eq!(adjust_basis(0), 0);
    assert_eq!(adjust_basis(100_000_000), 101_458_333);
    assert_eq!(adjust_basis(5_000_000), 5_072_916);
}

#[test]
fn basic_integers() {
    assert_eq!(percent_to_floored_u64("0").unwrap(), 0);
    assert_eq!(percent_to_floored_u64("1").unwrap(), 1_000_000);
    assert_eq!(percent_to_floored_u64("100").unwrap(), 100_000_000);
    assert_eq!(percent_to_floored_u64("123456").unwrap(), 123_456_000_000);
}

#[test]
fn floor_decimals() {
    assert_eq!(percent_to_floored_u64("4.2932").unwrap(), 4_293_200);
    assert_eq!(percent_to_floored_u64("4.293199999999999683").unwrap(), 4_293_199);
    assert_eq!(percent_to_floored_u64("1.000000").unwrap(), 1_000_000);
    assert_eq!(percent_to_floored_u64("1.0000000000001").unwrap(), 1_000_000);
}

#[test]
fn floor_after_six_decimals() {
    assert_eq!(percent_to_floored_u64("2.123456").unwrap(), 2_123_456);
    assert_eq!(percent_to_floored_u64("2.1234560").unwrap(), 2_123_456);
    assert_eq!(percent_to_floored_u64("2.123456789").unwrap(), 2_123_456);
    assert_eq!(percent_to_floored_u64("0.0000009").unwrap(), 0);
}

#[test]
fn trim_whitespaces() {
    assert_eq!(percent_to_floored_u64("   4.5 ").unwrap(), 4_500_000);
    assert_eq!(percent_to_floored_u64("\t\n3.25\r").unwrap(), 3_250_000);
}

#[test]
fn reject_invalid() {
    assert!(percent_to_floored_u64("").is_err());
    assert!(percent_to_floored_u64(".").is_err());
    assert!(percent_to_floored_u64("..1").is_err());
    assert!(percent_to_floored_u64("abc").is_err());
    assert!(percent_to_floored_u64("-0.01").is_err());
}

#[test]
fn reject_exponent_notation() {
    assert!(percent_to_floored_u64("4.2e0").is_err());
    assert!(percent_to_floored_u64("1e2").is_err());
    assert!(percent_to_floored_u64("-1e2").is_err());
}

#[test]
fn parse_percent_error_kinds() {
    assert!(matches!(percent_to_floored_u64("  "), Err(SofrError::MissingValue)));
    assert!(matches!(percent_to_floored_u64("."), Err(SofrError::MissingValue)));
    assert!(matches!(percent_to_floored_u64("-4.5"), Err(SofrError::NegativeValue)));
    assert!(matches!(percent_to_floored_u64("4.5%"), Err(SofrError::MalformedNumber)));
    assert!(matches!(percent_to_floored_u64("1E2"), Err(SofrError::MalformedNumber)));
    assert!(matches!(percent_to_floored_u64("18446744073709.551615"), Ok(18_446_744_073_709_551_615)));
    assert!(matches!(percent_to_floored_u64("18446744073709.551616"), Err(SofrError::NumericOverflow)));
    assert!(matches!(percent_to_floored_u64("99999999999999999999"), Err(SofrError::NumericOverflow)));
    assert_eq!(percent_to_floored_u64(".5").unwrap(), 500_000);
    assert_eq!(percent_to_floored_u64("7.").unwrap(), 7_000_000);
}

#[test]
fn format_of_parse_is_the_fraction() {
    assert_eq!(fmt_scaled_rate(percent_to_floored_u64("4.5").unwrap()), "0.04500000");
    assert_eq!(fmt_scaled_rate(percent_to_floored_u64("4.293200").unwrap()), "0.04293200");
    assert_eq!(fmt_scaled_rate(percent_to_floored_u64("123.456789").unwrap()), "1.23456789");
    assert_eq!(fmt_scaled_rate(percent_to_floored_u64("0").unwrap()), "0.00000000");
}

#[test]
fn basis_bounds_on_values() {
    for r in [0u64, 1, 479, 480, 4_293_200, 15_000_000, 100_000_000] {
        let a = adjust_basis(r);
        assert!(a >= r);
        assert!((a as u128) * 480 <= (r as u128) * 487);
        assert!((r as u128) * 487 < (a as u128 + 1) * 480);
    }
}

#[test]
fn aqa_rate_of_a_typical_median() {
    // floor(floor(4_293_200 * 487 / 480) * 85 / 100)
    assert_eq!(adjust_basis(4_293_200), 4_355_809);
    assert_eq!(aqa_scale(4_355_809), 3_702_437);
    assert_eq!(aqa_ref_rate(4_293_200), 3_702_437);
    assert_eq!(fmt_scaled_rate(aqa_ref_rate(4_293_200)), "0.03702437");
}

#[test]
fn field_readers() {
    assert_eq!(de_scaled(" 4.30 ").unwrap(), 4_300_000);
    assert!(matches!(de_scaled("."), Err(SofrError::MissingValue)));
    assert_eq!(de_scaled_opt(".").unwrap(), None);
    assert_eq!(de_scaled_opt("").unwrap(), None);
    assert_eq!(de_scaled_opt("4.3").unwrap(), Some(4_300_000));
    assert!(de_scaled_opt("x").is_err());
}

#[test]
fn two_decimal_rounding_is_half_even() {
    assert_eq!(de_decimal2("4.29").unwrap(), 4_290_000);
    assert_eq!(de_decimal2("4.285").unwrap(), 4_280_000);
    assert_eq!(de_decimal2("4.295").unwrap(), 4_300_000);
    assert_eq!(de_decimal2("4.2850000001").unwrap(), 4_290_000);
    assert_eq!(de_decimal2("4.2849").unwrap(), 4_280_000);
    assert_eq!(de_decimal2("4.2851").unwrap(), 4_290_000);
    assert!(matches!(de_decimal2("-0.01"), Err(SofrError::NegativeValue)));
}
