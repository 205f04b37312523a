//! Calendar dates as day numbers, with chrono doing the calendar work.

use vstd::prelude::*;
use chrono::Datelike;
use crate::error::SofrError;
use crate::text::{trim_ascii, trim_ascii_str};

verus! {

/// A calendar date, held as its day number counted from 0001-01-01 (which is day 1).
#[derive(Clone, Copy, Debug, PartialEq, Eq, Structural, PartialOrd, Ord, Hash)]
pub struct Date {
    pub day_number: i32,
}

/// Day number of the proleptic Gregorian date `year-month-day`, if that date exists.
pub uninterp spec fn civil_day_number(year: int, month: int, day: int) -> Option<int>;

/// Day number that `NaiveDate::parse_from_str(text, format)` yields, if it succeeds.
pub uninterp spec fn parsed_day_number(text: Seq<char>, format: Seq<char>) -> Option<int>;

/// ISO `YYYY-MM-DD` text of a day number, if chrono can represent that day.
pub uninterp spec fn iso_text_of(day_number: int) -> Option<Seq<char>>;

/// Relies on chrono's `NaiveDate::from_ymd_opt`, read back through `num_days_from_ce`.
#[verifier::external_body]
fn chrono_day_number(year: i32, month: u32, day: u32) -> (r: Option<i32>)
    ensures
        r matches Some(n) ==> civil_day_number(year as int, month as int, day as int) == Some(n as int),
        r is None ==> civil_day_number(year as int, month as int, day as int) is None,
{
    chrono::NaiveDate::from_ymd_opt(year, month, day).map(|d| d.num_days_from_ce())
}

/// Relies on chrono's `NaiveDate::parse_from_str`, read back through `num_days_from_ce`.
#[verifier::external_body]
fn chrono_parse_day_number(text: &str, format: &str) -> (r: Option<i32>)
    ensures
        r matches Some(n) ==> parsed_day_number(text@, format@) == Some(n as int),
        r is None ==> parsed_day_number(text@, format@) is None,
{
    chrono::NaiveDate::parse_from_str(text, format).ok().map(|d| d.num_days_from_ce())
}

/// Relies on chrono's `NaiveDate::from_num_days_from_ce_opt` and its `Display`.
#[verifier::external_body]
fn chrono_iso_text(day_number: i32) -> (r: Option<String>)
    ensures
        r matches Some(t) ==> iso_text_of(day_number as int) == Some(t@),
        r is None ==> iso_text_of(day_number as int) is None,
{
    chrono::NaiveDate::from_num_days_from_ce_opt(day_number).map(|d| d.to_string())
}

/// Look-back length for published-average fetches.
pub const DEFAULT_LOOKBACK_WINDOW: u64 = 14;

impl Date {
    /// The date `year-month-day`, if it is a calendar date.
    pub fn from_ymd(year: i32, month: u32, day: u32) -> (r: Option<Date>)
        ensures
            r matches Some(d) ==> civil_day_number(year as int, month as int, day as int)
                == Some(d.day_number as int),
            r is None ==> civil_day_number(year as int, month as int, day as int) is None,
    {
        match chrono_day_number(year, month, day) {
            Some(n) => Some(Date { day_number: n }),
            None => None,
        }
    }

    /// Whole days from `other` to `self` (positive when `self` is later).
    pub fn days_since(&self, other: &Date) -> (r: i64)
        ensures
            r == self.day_number - other.day_number,
    {
        self.day_number as i64 - other.day_number as i64
    }

    /// The date `days` days earlier.
    pub fn minus_days(&self, days: u64) -> (r: Date)
        requires
            self.day_number - days >= i32::MIN,
        ensures
            r.day_number == self.day_number - days,
    {
        Date { day_number: (self.day_number as i64 - days as i64) as i32 }
    }

    /// The date `days` days later.
    pub fn plus_days(&self, days: u64) -> (r: Date)
        requires
            self.day_number + days <= i32::MAX,
        ensures
            r.day_number == self.day_number + days,
    {
        Date { day_number: (self.day_number as i64 + days as i64) as i32 }
    }

    /// `YYYY-MM-DD` text of the date, if chrono can represent it.
    pub fn to_iso_string(&self) -> (r: Option<String>)
        ensures
            r matches Some(t) ==> iso_text_of(self.day_number as int) == Some(t@),
            r is None ==> iso_text_of(self.day_number as int) is None,
    {
        chrono_iso_text(self.day_number)
    }
}

/// The inclusive window `[end - days, end]`.
pub fn window(end_date: Date, days: u64) -> (r: (Date, Date))
    requires
        end_date.day_number - days >= i32::MIN,
    ensures
        r.0.day_number == end_date.day_number - days,
        r.1 == end_date,
{
    (end_date.minus_days(days), end_date)
}

pub open spec fn iso_format() -> Seq<char> {
    seq!['%', 'Y', '-', '%', 'm', '-', '%', 'd']
}

pub open spec fn us_format() -> Seq<char> {
    seq!['%', 'm', '/', '%', 'd', '/', '%', 'Y']
}

/// What reading a date text gives: ISO `YYYY-MM-DD` first, then US `MM/DD/YYYY`.
pub open spec fn spec_parse_ymd(s: Seq<char>) -> Result<int, SofrError> {
    let t = trim_ascii(s);
    match parsed_day_number(t, iso_format()) {
        Some(n) => Ok(n),
        None => match parsed_day_number(t, us_format()) {
            Some(n) => Ok(n),
            None => Err(SofrError::MalformedDate),
        },
    }
}

/// Reads a date as `YYYY-MM-DD` or `MM/DD/YYYY`, ignoring surrounding ASCII whitespace.
pub fn parse_ymd(s: &str) -> (r: Result<Date, SofrError>)
    ensures
        r matches Ok(d) ==> spec_parse_ymd(s@) == Ok::<int, SofrError>(d.day_number as int),
        r matches Err(e) ==> spec_parse_ymd(s@) == Err::<int, SofrError>(e),
{
    let t = trim_ascii_str(s);
    let iso = "%Y-%m-%d";
    let us = "%m/%d/%Y";
    proof {
        reveal_strlit("%Y-%m-%d");
        reveal_strlit("%m/%d/%Y");
        assert(iso@ =~= iso_format());
        assert(us@ =~= us_format());
    }
    match chrono_parse_day_number(t, iso) {
        Some(n) => Ok(Date { day_number: n }),
        None => match chrono_parse_day_number(t, us) {
            Some(n) => Ok(Date { day_number: n }),
            None => Err(SofrError::MalformedDate),
        },
    }
}

} // verus!
