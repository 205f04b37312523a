//! Error kinds of the rate pipeline.

use vstd::prelude::*;
use vstd::string::*;
use crate::date::Date;

verus! {

/// Why a step of the pipeline failed.
#[derive(Clone, Debug)]
pub enum SofrError {
    /// The signer key list is missing or malformed.
    ConfigError,
    /// A source could not be fetched after all attempts.
    SourceUnavailable { source: String, cause: String },
    /// A rate field is empty or a sole `"."`.
    MissingValue,
    /// A rate field is not a plain non-negative decimal.
    MalformedNumber,
    /// A rate field is negative.
    NegativeValue,
    /// A date field is neither `YYYY-MM-DD` nor `MM/DD/YYYY`, or not a calendar date.
    MalformedDate,
    /// A response body is not well-formed CSV with the expected columns.
    MalformedCsv,
    /// A response body is not the expected JSON shape.
    MalformedJson,
    /// No usable observation survived parsing.
    NoData,
    /// Fewer than two sources produced an observation.
    InsufficientSources { count: usize },
    /// No two sources lie within the agreement tolerance.
    SourcesDisagree,
    /// An observed rate lies outside the plausible band.
    OutOfRange { source: String, value: u64 },
    /// The median effective date lags the query date by too much.
    StaleData { median_date: Date, days_behind: i64 },
    /// The overnight series holds no value at or before the period start.
    InsufficientHistory,
    /// A signature could not be produced.
    SigningFailure,
    /// A scaled value does not fit its integer type.
    NumericOverflow,
    /// Every signer's vote submission failed.
    AllVotesFailed,
}

} // verus!

verus! {

fn push_text(out: &mut String, t: &str)
    ensures
        final(out)@ == old(out)@ + t@,
{
    out.append(t);
}

fn i64_text(n: i64) -> (r: String) {
    if n < 0 {
        let mut s = String::from_str("-");
        let m: u64 = if n == i64::MIN { 9_223_372_036_854_775_808u64 } else { (-n) as u64 };
        push_text(&mut s, crate::text::u64_text(m).as_str());
        s
    } else {
        crate::text::u64_text(n as u64)
    }
}

/// The message of an error kind that carries no data.
pub open spec fn fixed_message(e: SofrError) -> Option<Seq<char>> {
    match e {
        SofrError::ConfigError => Some("PUBLISHER_PRIVATE_KEY must hold one or more valid hex secret keys"@),
        SofrError::MissingValue => Some("missing percent value"@),
        SofrError::MalformedNumber => Some("malformed percent value"@),
        SofrError::NegativeValue => Some("negative percent not allowed"@),
        SofrError::MalformedDate => Some("invalid date format"@),
        SofrError::MalformedCsv => Some("malformed CSV body"@),
        SofrError::MalformedJson => Some("malformed JSON body"@),
        SofrError::NoData => Some("no observations available"@),
        SofrError::SourcesDisagree => Some("All pairs of sources differ by more than 5 bps"@),
        SofrError::InsufficientHistory => Some("insufficient history before the averaging period"@),
        SofrError::SigningFailure => Some("signing failed"@),
        SofrError::NumericOverflow => Some("overflow converting to u64"@),
        SofrError::AllVotesFailed => Some("All validator votes failed"@),
        _ => None,
    }
}

impl SofrError {
    /// A one-line description of the error.
    pub fn to_string(&self) -> (r: String)
        ensures
            fixed_message(*self) matches Some(m) ==> r@ == m,
    {
        match self {
            SofrError::ConfigError => String::from_str(
                "PUBLISHER_PRIVATE_KEY must hold one or more valid hex secret keys",
            ),
            SofrError::SourceUnavailable { source, cause } => {
                let mut s = source.clone();
                push_text(&mut s, " unavailable: ");
                push_text(&mut s, cause.as_str());
                s
            },
            SofrError::MissingValue => String::from_str("missing percent value"),
            SofrError::MalformedNumber => String::from_str("malformed percent value"),
            SofrError::NegativeValue => String::from_str("negative percent not allowed"),
            SofrError::MalformedDate => String::from_str("invalid date format"),
            SofrError::MalformedCsv => String::from_str("malformed CSV body"),
            SofrError::MalformedJson => String::from_str("malformed JSON body"),
            SofrError::NoData => String::from_str("no observations available"),
            SofrError::InsufficientSources { count } => {
                let mut s = String::from_str("Need at least 2 sources to succeed, got ");
                push_text(&mut s, crate::text::u64_text(*count as u64).as_str());
                s
            },
            SofrError::SourcesDisagree => String::from_str(
                "All pairs of sources differ by more than 5 bps",
            ),
            SofrError::OutOfRange { source, value } => {
                let mut s = String::from_str("Rate from ");
                push_text(&mut s, source.as_str());
                push_text(&mut s, " (");
                push_text(&mut s, crate::text::u64_text(*value).as_str());
                push_text(&mut s, ") is outside the plausible range");
                s
            },
            SofrError::StaleData { median_date, days_behind } => {
                let mut s = String::from_str("Data is too stale: median source date ");
                match median_date.to_iso_string() {
                    Some(d) => push_text(&mut s, d.as_str()),
                    None => push_text(&mut s, "(out of range)"),
                }
                push_text(&mut s, " is ");
                push_text(&mut s, i64_text(*days_behind).as_str());
                push_text(&mut s, " days behind query date (max 7 days allowed)");
                s
            },
            SofrError::InsufficientHistory => String::from_str(
                "insufficient history before the averaging period",
            ),
            SofrError::SigningFailure => String::from_str("signing failed"),
            SofrError::NumericOverflow => String::from_str("overflow converting to u64"),
            SofrError::AllVotesFailed => String::from_str("All validator votes failed"),
        }
    }
}

} // verus!
