//! Parsing of the sources' responses: CSV series (FRED, NY Fed) and the OFR JSON series.

use vstd::prelude::*;
use vstd::string::*;
use crate::compound::{compute_compounded_average, latest_at_or_before, latest_at_or_before_exec};
use crate::date::{Date, parse_ymd, spec_parse_ymd};
use crate::error::SofrError;
use crate::numeric::{percent_to_floored_u64, spec_parse_percent};
use crate::text::{trim_ascii, trim_ascii_str};

verus! {

/// Rows of fields that the csv crate reads from `body` (header row included, every
/// field trimmed, all rows of one length), or `None` where it reports an error.
pub uninterp spec fn csv_table(body: Seq<u8>) -> Option<Seq<Seq<Seq<char>>>>;

/// Pairs `(text, number text)` that serde_json reads from a JSON array of
/// `[string, number]` pairs in `body`, or `None` where it reports an error.
pub uninterp spec fn json_pairs(body: Seq<u8>) -> Option<Seq<(Seq<char>, Seq<char>)>>;

pub open spec fn table_view(t: Seq<Vec<String>>) -> Seq<Seq<Seq<char>>> {
    t.map_values(|row: Vec<String>| row@.map_values(|f: String| f@))
}

pub open spec fn pairs_view(t: Seq<(String, String)>) -> Seq<(Seq<char>, Seq<char>)> {
    t.map_values(|p: (String, String)| (p.0@, p.1@))
}

/// Relies on the csv crate's `Reader` (no header handling, fields trimmed, rows of
/// equal length) and `StringRecord`.
#[verifier::external_body]
fn read_csv(body: &[u8]) -> (r: Option<Vec<Vec<String>>>)
    ensures
        r matches Some(t) ==> csv_table(body@) == Some(table_view(t@)),
        r is None ==> csv_table(body@) is None,
{
    let mut reader = csv::ReaderBuilder::new()
        .has_headers(false)
        .flexible(false)
        .trim(csv::Trim::All)
        .from_reader(body);
    reader.records().map(|rec| rec.ok().map(|r| r.iter().map(String::from).collect())).collect()
}

/// Relies on serde_json's `from_slice` into `Vec<(String, Number)>`, each number
/// rendered by its `Display`.
#[verifier::external_body]
fn read_json_pairs(body: &[u8]) -> (r: Option<Vec<(String, String)>>)
    ensures
        r matches Some(t) ==> json_pairs(body@) == Some(pairs_view(t@)),
        r is None ==> json_pairs(body@) is None,
{
    let rows: Vec<(String, serde_json::Number)> = serde_json::from_slice(body).ok()?;
    Some(rows.into_iter().map(|(d, n)| (d, n.to_string())).collect())
}

/// Two texts are the same characters.
pub fn str_eq(a: &str, b: &str) -> (r: bool)
    ensures
        r == (a@ == b@),
{
    let n = a.unicode_len();
    if n != b.unicode_len() {
        return false;
    }
    let mut i: usize = 0;
    while i < n
        invariant
            n == a@.len() == b@.len(),
            i <= n,
            forall|j: int| 0 <= j < i ==> a@[j] == b@[j],
        decreases n - i,
    {
        if a.get_char(i) != b.get_char(i) {
            return false;
        }
        i = i + 1;
    }
    assert(a@ =~= b@);
    true
}

/// Index of the first header equal to `name`, or -1.
pub open spec fn column_index(header: Seq<Seq<char>>, name: Seq<char>) -> int
    decreases header.len(),
{
    if header.len() == 0 {
        -1
    } else if column_index(header.drop_last(), name) >= 0 {
        column_index(header.drop_last(), name)
    } else if header.last() == name {
        header.len() - 1
    } else {
        -1
    }
}

/// A rate field that holds no value: empty or a sole `"."` once trimmed.
pub open spec fn is_missing_value(f: Seq<char>) -> bool {
    trim_ascii(f).len() == 0 || trim_ascii(f) =~= seq!['.']
}

/// What one data row gives: an observation, nothing (no value), or an error.
pub open spec fn row_entry(row: Seq<Seq<char>>, di: int, vi: int) -> Result<Option<(Date, u64)>, SofrError> {
    if di < 0 || vi < 0 || di >= row.len() || vi >= row.len() {
        Err(SofrError::MalformedCsv)
    } else {
        match spec_parse_ymd(row[di]) {
            Err(e) => Err(e),
            Ok(n) => if is_missing_value(row[vi]) {
                Ok(None)
            } else {
                match spec_parse_percent(row[vi]) {
                    Err(e) => Err(e),
                    Ok(v) => Ok(Some((Date { day_number: n as i32 }, v))),
                }
            },
        }
    }
}

/// Observations of the data rows in order; the first failing row decides the error.
pub open spec fn rows_series(rows: Seq<Seq<Seq<char>>>, di: int, vi: int) -> Result<Seq<(Date, u64)>, SofrError>
    decreases rows.len(),
{
    if rows.len() == 0 {
        Ok(seq![])
    } else {
        match rows_series(rows.drop_last(), di, vi) {
            Err(e) => Err(e),
            Ok(s) => match row_entry(rows.last(), di, vi) {
                Err(e) => Err(e),
                Ok(None) => Ok(s),
                Ok(Some(x)) => Ok(s.push(x)),
            },
        }
    }
}

/// The series a CSV body holds in the named date and value columns.
pub open spec fn csv_series(body: Seq<u8>, date_col: Seq<char>, value_col: Seq<char>) -> Result<Seq<(Date, u64)>, SofrError> {
    match csv_table(body) {
        None => Err(SofrError::MalformedCsv),
        Some(t) => if t.len() == 0 {
            Ok(seq![])
        } else if column_index(t[0], date_col) < 0 || column_index(t[0], value_col) < 0 {
            Err(SofrError::MalformedCsv)
        } else {
            rows_series(t.drop_first(), column_index(t[0], date_col), column_index(t[0], value_col))
        },
    }
}

/// The observation with the latest date (the later row wins a tie).
pub open spec fn latest_of(s: Seq<(Date, u64)>) -> Option<(Date, u64)> {
    latest_at_or_before(s, i32::MAX as int)
}

/// Strict date field: `YYYY-MM-DD` or `MM/DD/YYYY`.
pub fn de_date(s: &str) -> (r: Result<Date, SofrError>)
    ensures
        r matches Ok(d) ==> spec_parse_ymd(s@) == Ok::<int, SofrError>(d.day_number as int),
        r matches Err(e) ==> spec_parse_ymd(s@) == Err::<int, SofrError>(e),
{
    parse_ymd(s)
}

fn is_missing_exec(s: &str) -> (r: bool)
    ensures
        r == is_missing_value(s@),
{
    let t = trim_ascii_str(s);
    let n = t.unicode_len();
    if n == 0 {
        return true;
    }
    if n == 1 && t.get_char(0) == '.' {
        assert(t@ =~= seq!['.']);
        return true;
    }
    assert(!(t@ =~= seq!['.']));
    false
}

/// Strict rate field: a missing value is an error.
pub fn de_scaled(s: &str) -> (r: Result<u64, SofrError>)
    ensures
        r == spec_parse_percent(s@),
{
    percent_to_floored_u64(s)
}

/// Optional rate field: a missing value (empty or `"."`) is `None`.
pub fn de_scaled_opt(s: &str) -> (r: Result<Option<u64>, SofrError>)
    ensures
        is_missing_value(s@) ==> r == Ok::<Option<u64>, SofrError>(None),
        !is_missing_value(s@) ==> r == (match spec_parse_percent(s@) {
            Ok(v) => Ok::<Option<u64>, SofrError>(Some(v)),
            Err(e) => Err::<Option<u64>, SofrError>(e),
        }),
{
    if is_missing_exec(s) {
        return Ok(None);
    }
    match percent_to_floored_u64(s) {
        Ok(v) => Ok(Some(v)),
        Err(e) => Err(e),
    }
}

fn column_index_exec(header: &Vec<String>, name: &str) -> (r: Option<usize>)
    ensures
        r matches Some(i) ==> column_index(header@.map_values(|f: String| f@), name@) == i,
        r is None ==> column_index(header@.map_values(|f: String| f@), name@) == -1,
{
    let ghost h = header@.map_values(|f: String| f@);
    let mut i: usize = 0;
    assert(h.subrange(0, 0) =~= Seq::<Seq<char>>::empty());
    while i < header.len()
        invariant
            i <= header@.len(),
            h == header@.map_values(|f: String| f@),
            column_index(h.subrange(0, i as int), name@) == -1,
        decreases header.len() - i,
    {
        assert(h.subrange(0, i + 1).drop_last() =~= h.subrange(0, i as int));
        if str_eq(header[i].as_str(), name) {
            proof {
                lemma_column_index_prefix(h, name@, i as int + 1);
            }
            return Some(i);
        }
        i = i + 1;
    }
    assert(h.subrange(0, h.len() as int) =~= h);
    None
}

proof fn lemma_column_index_prefix(h: Seq<Seq<char>>, name: Seq<char>, k: int)
    requires
        0 <= k <= h.len(),
        column_index(h.subrange(0, k), name) >= 0,
    ensures
        column_index(h, name) == column_index(h.subrange(0, k), name),
    decreases h.len() - k,
{
    if k < h.len() {
        assert(h.subrange(0, k + 1).drop_last() =~= h.subrange(0, k));
        lemma_column_index_prefix(h, name, k + 1);
    } else {
        assert(h.subrange(0, k) =~= h);
    }
}

/// Reads the series of a CSV body from its named date and value columns.
///
/// The first row is the header; both columns must be in it. Rows whose value is
/// missing are dropped; a row with a malformed date or value fails the whole body.
pub fn parse_csv_series(body: &[u8], date_col: &str, value_col: &str) -> (r: Result<Vec<(Date, u64)>, SofrError>)
    ensures
        r matches Ok(v) ==> csv_series(body@, date_col@, value_col@) == Ok::<Seq<(Date, u64)>, SofrError>(v@),
        r matches Err(e) ==> csv_series(body@, date_col@, value_col@) == Err::<Seq<(Date, u64)>, SofrError>(e),
{
    let table = match read_csv(body) {
        Some(t) => t,
        None => {
            return Err(SofrError::MalformedCsv);
        },
    };
    let ghost tv = table_view(table@);
    let mut out: Vec<(Date, u64)> = Vec::new();
    if table.len() == 0 {
        return Ok(out);
    }
    assert(tv[0] == table@[0]@.map_values(|f: String| f@));
    let di = match column_index_exec(&table[0], date_col) {
        Some(x) => x,
        None => {
            return Err(SofrError::MalformedCsv);
        },
    };
    let vi = match column_index_exec(&table[0], value_col) {
        Some(x) => x,
        None => {
            return Err(SofrError::MalformedCsv);
        },
    };
    let ghost rows = tv.drop_first();
    let mut i: usize = 1;
    assert(rows.subrange(0, 0) =~= Seq::<Seq<Seq<char>>>::empty());
    while i < table.len()
        invariant
            1 <= i <= table@.len(),
            tv == table_view(table@),
            rows == tv.drop_first(),
            csv_table(body@) == Some(tv),
            tv.len() > 0,
            di as int == column_index(tv[0], date_col@),
            vi as int == column_index(tv[0], value_col@),
            rows_series(rows.subrange(0, i - 1), di as int, vi as int) == Ok::<Seq<(Date, u64)>, SofrError>(out@),
        decreases table.len() - i,
    {
        let row = &table[i];
        let ghost rv = rows[i - 1];
        assert(rv == row@.map_values(|f: String| f@));
        assert(rows.subrange(0, i as int).drop_last() =~= rows.subrange(0, i - 1));
        assert(rows.subrange(0, i as int).last() == rv);
        assert(rv.len() == row@.len());
        if di >= row.len() || vi >= row.len() {
            proof {
                lemma_rows_series_err(rows, i as int, di as int, vi as int);
            }
            return Err(SofrError::MalformedCsv);
        }
        assert(rv[di as int] == row@[di as int]@);
        assert(rv[vi as int] == row@[vi as int]@);
        let date = match de_date(row[di].as_str()) {
            Ok(d) => d,
            Err(e) => {
                proof {
                    lemma_rows_series_err(rows, i as int, di as int, vi as int);
                }
                return Err(e);
            },
        };
        match de_scaled_opt(row[vi].as_str()) {
            Ok(None) => {},
            Ok(Some(v)) => {
                out.push((date, v));
            },
            Err(e) => {
                proof {
                    lemma_rows_series_err(rows, i as int, di as int, vi as int);
                }
                return Err(e);
            },
        }
        i = i + 1;
    }
    assert(rows.subrange(0, rows.len() as int) =~= rows);
    Ok(out)
}

proof fn lemma_rows_series_err(rows: Seq<Seq<Seq<char>>>, i: int, di: int, vi: int)
    requires
        1 <= i <= rows.len(),
        rows_series(rows.subrange(0, i), di, vi) is Err,
    ensures
        rows_series(rows, di, vi) == rows_series(rows.subrange(0, i), di, vi),
    decreases rows.len() - i,
{
    if i < rows.len() {
        assert(rows.subrange(0, i + 1).drop_last() =~= rows.subrange(0, i));
        lemma_rows_series_err(rows, i + 1, di, vi);
    } else {
        assert(rows.subrange(0, i) =~= rows);
    }
}

} // verus!

verus! {

/// Picks the latest observation of a CSV series (the later row wins a tie).
pub fn parse_csv_for_latest(body: &[u8], date_col: &str, value_col: &str) -> (r: Result<(Date, u64), SofrError>)
    ensures
        csv_series(body@, date_col@, value_col@) matches Err(e) ==> r == Err::<(Date, u64), SofrError>(e),
        csv_series(body@, date_col@, value_col@) matches Ok(s) ==> r == (match latest_of(s) {
            Some(x) => Ok::<(Date, u64), SofrError>(x),
            None => Err::<(Date, u64), SofrError>(SofrError::NoData),
        }),
{
    let series = parse_csv_series(body, date_col, value_col)?;
    match latest_at_or_before_exec(&series, i32::MAX) {
        Some(x) => Ok(x),
        None => Err(SofrError::NoData),
    }
}

/// Some fractional digit after the sixth is not zero.
pub open spec fn past_six_nonzero(f: Seq<char>) -> bool {
    exists|j: int| 6 <= j < f.len() && f[j] != '0'
}

/// A percent text rounded half-to-even to two decimals, scaled.
pub open spec fn spec_round_percent_2dp(s: Seq<char>) -> Result<u64, SofrError> {
    match spec_parse_percent(s) {
        Err(e) => Err(e),
        Ok(floored) => {
            let q = floored / 10_000;
            let rem = floored % 10_000;
            let up = rem > 5_000 || (rem == 5_000 && (past_six_nonzero(
                crate::numeric::frac_part(trim_ascii(s)),
            ) || q % 2 == 1));
            if up {
                if (q + 1) * 10_000 > u64::MAX {
                    Err(SofrError::NumericOverflow)
                } else {
                    Ok(((q + 1) * 10_000) as u64)
                }
            } else {
                Ok((q * 10_000) as u64)
            }
        },
    }
}

fn past_six_nonzero_exec(s: &str) -> (r: bool)
    requires
        crate::numeric::is_plain_decimal(trim_ascii(s@)),
    ensures
        r == past_six_nonzero(crate::numeric::frac_part(trim_ascii(s@))),
{
    let t = trim_ascii_str(s);
    let n = t.unicode_len();
    let mut k: usize = 0;
    while k < n && crate::numeric::is_digit_char(t.get_char(k))
        invariant
            n == t@.len(),
            k <= n,
            crate::numeric::scan_digits(t@, 0) == crate::numeric::scan_digits(t@, k as int),
        decreases n - k,
    {
        k = k + 1;
    }
    proof {
        crate::numeric::lemma_scan_digits(t@, 0);
    }
    assert(crate::numeric::int_len(t@) == k);
    let ghost f = crate::numeric::frac_part(t@);
    if k >= n {
        return false;
    }
    let start = k + 1;
    assert(f =~= t@.subrange(start as int, n as int));
    let mut j: usize = if n - start > 6 { start + 6 } else { n };
    while j < n
        invariant
            n == t@.len(),
            t@ == trim_ascii(s@),
            f == crate::numeric::frac_part(t@),
            start <= n,
            f =~= t@.subrange(start as int, n as int),
            start + 6 <= j || j >= n,
            forall|x: int| 6 <= x < j - start ==> f[x] == '0',
        decreases n - j,
    {
        if t.get_char(j) != '0' {
            assert(f[j - start] != '0');
            assert(6 <= j - start < f.len());
            let ghost w = j - start;
            assert(6 <= w < f.len() && f[w] != '0');
            assert(past_six_nonzero(f));
            return true;
        }
        j = j + 1;
    }
    false
}

/// Reads an OFR number text as a percent rounded half-to-even to two decimals,
/// scaled (`4.29` becomes `4_290_000`).
pub fn de_decimal2(s: &str) -> (r: Result<u64, SofrError>)
    ensures
        r == spec_round_percent_2dp(s@),
{
    let floored = percent_to_floored_u64(s)?;
    let q = floored / 10_000;
    let rem = floored % 10_000;
    let up = rem > 5_000 || (rem == 5_000 && (past_six_nonzero_exec(s) || q % 2 == 1));
    if up {
        if q >= u64::MAX / 10_000 {
            return Err(SofrError::NumericOverflow);
        }
        Ok((q + 1) * 10_000)
    } else {
        Ok(q * 10_000)
    }
}

} // verus!

verus! {

/// The series that OFR's JSON pairs give, in order; the first failing pair decides the error.
pub open spec fn pairs_series(p: Seq<(Seq<char>, Seq<char>)>) -> Result<Seq<(Date, u64)>, SofrError>
    decreases p.len(),
{
    if p.len() == 0 {
        Ok(seq![])
    } else {
        match pairs_series(p.drop_last()) {
            Err(e) => Err(e),
            Ok(s) => match spec_parse_ymd(p.last().0) {
                Err(e) => Err(e),
                Ok(n) => match spec_round_percent_2dp(p.last().1) {
                    Err(e) => Err(e),
                    Ok(v) => Ok(s.push((Date { day_number: n as i32 }, v))),
                },
            },
        }
    }
}

/// The overnight series of an OFR JSON body.
pub open spec fn ofr_series(body: Seq<u8>) -> Result<Seq<(Date, u64)>, SofrError> {
    match json_pairs(body) {
        None => Err(SofrError::MalformedJson),
        Some(p) => pairs_series(p),
    }
}

/// What OFR's parse gives for a series: the latest date and the average computed on it.
pub open spec fn ofr_outcome(s: Seq<(Date, u64)>) -> Result<(Date, u64), SofrError> {
    if s.len() == 0 {
        Err(SofrError::NoData)
    } else {
        let eff = latest_of(s)->Some_0.0;
        if eff.day_number - 30 < i32::MIN || latest_at_or_before(s, eff.day_number - 30) is None {
            Err(SofrError::InsufficientHistory)
        } else {
            match crate::compound::compounded_scaled(crate::compound::period_segments(eff, s)) {
                Some(v) => Ok((eff, v)),
                None => Err(SofrError::NumericOverflow),
            }
        }
    }
}

proof fn lemma_latest_self(s: Seq<(Date, u64)>, d: int)
    requires
        latest_at_or_before(s, d) is Some,
    ensures
        latest_at_or_before(s, d)->Some_0.0.day_number <= d,
        latest_at_or_before(s, latest_at_or_before(s, d)->Some_0.0.day_number as int) is Some,
    decreases s.len(),
{
    let prev = latest_at_or_before(s.drop_last(), d);
    if prev is Some {
        lemma_latest_self(s.drop_last(), d);
        let x = latest_at_or_before(s, d)->Some_0;
        if x != prev->Some_0 {
            assert(x == s.last());
        } else {
            crate::compound::lemma_latest_mono(
                s.drop_last(),
                prev->Some_0.0.day_number as int,
                x.0.day_number as int,
            );
        }
    }
}

/// The overnight series of an OFR JSON body: `[date, number]` pairs, each number
/// rounded half-to-even to two decimals.
pub fn parse_ofr_series(body: &[u8]) -> (r: Result<Vec<(Date, u64)>, SofrError>)
    ensures
        r matches Ok(v) ==> ofr_series(body@) == Ok::<Seq<(Date, u64)>, SofrError>(v@),
        r matches Err(e) ==> ofr_series(body@) == Err::<Seq<(Date, u64)>, SofrError>(e),
{
    let pairs = match read_json_pairs(body) {
        Some(p) => p,
        None => {
            return Err(SofrError::MalformedJson);
        },
    };
    let ghost pv = pairs_view(pairs@);
    let mut out: Vec<(Date, u64)> = Vec::new();
    let mut i: usize = 0;
    assert(pv.subrange(0, 0) =~= Seq::<(Seq<char>, Seq<char>)>::empty());
    while i < pairs.len()
        invariant
            i <= pairs@.len(),
            pv == pairs_view(pairs@),
            json_pairs(body@) == Some(pv),
            pairs_series(pv.subrange(0, i as int)) == Ok::<Seq<(Date, u64)>, SofrError>(out@),
        decreases pairs.len() - i,
    {
        assert(pv.subrange(0, i + 1).drop_last() =~= pv.subrange(0, i as int));
        assert(pv.subrange(0, i + 1).last() == pv[i as int]);
        assert(pv[i as int] == (pairs@[i as int].0@, pairs@[i as int].1@));
        let date = match de_date(pairs[i].0.as_str()) {
            Ok(d) => d,
            Err(e) => {
                proof {
                    lemma_pairs_series_err(pv, i as int + 1);
                }
                return Err(e);
            },
        };
        let value = match de_decimal2(pairs[i].1.as_str()) {
            Ok(v) => v,
            Err(e) => {
                proof {
                    lemma_pairs_series_err(pv, i as int + 1);
                }
                return Err(e);
            },
        };
        out.push((date, value));
        i = i + 1;
    }
    assert(pv.subrange(0, pv.len() as int) =~= pv);
    Ok(out)
}

proof fn lemma_pairs_series_err(p: Seq<(Seq<char>, Seq<char>)>, i: int)
    requires
        1 <= i <= p.len(),
        pairs_series(p.subrange(0, i)) is Err,
    ensures
        pairs_series(p) == pairs_series(p.subrange(0, i)),
    decreases p.len() - i,
{
    if i < p.len() {
        assert(p.subrange(0, i + 1).drop_last() =~= p.subrange(0, i));
        lemma_pairs_series_err(p, i + 1);
    } else {
        assert(p.subrange(0, i) =~= p);
    }
}

/// St. Louis FRED: the published 30-day average (`SOFR30DAYAVG`) and overnight
/// series (`SOFR`), as CSV.
#[derive(Clone, Copy, Debug)]
pub struct Fred;

impl Fred {
    pub fn name(&self) -> (r: &'static str)
        ensures
            r@ == "St. Louis FRED"@,
    {
        "St. Louis FRED"
    }

    /// The latest published 30-day average of a `SOFR30DAYAVG` CSV body.
    pub fn parse(&self, body: &[u8]) -> (r: Result<(Date, u64), SofrError>)
        ensures
            csv_series(body@, "observation_date"@, "SOFR30DAYAVG"@) matches Err(e) ==> r == Err::<
                (Date, u64),
                SofrError,
            >(e),
            csv_series(body@, "observation_date"@, "SOFR30DAYAVG"@) matches Ok(s) ==> r == (
            match latest_of(s) {
                Some(x) => Ok::<(Date, u64), SofrError>(x),
                None => Err::<(Date, u64), SofrError>(SofrError::NoData),
            }),
    {
        parse_csv_for_latest(body, "observation_date", "SOFR30DAYAVG")
    }

    /// The overnight series of a `SOFR` CSV body.
    pub fn parse_overnight_rates(body: &[u8]) -> (r: Result<Vec<(Date, u64)>, SofrError>)
        ensures
            r matches Ok(v) ==> csv_series(body@, "observation_date"@, "SOFR"@) == Ok::<
                Seq<(Date, u64)>,
                SofrError,
            >(v@),
            r matches Err(e) ==> csv_series(body@, "observation_date"@, "SOFR"@) == Err::<
                Seq<(Date, u64)>,
                SofrError,
            >(e),
    {
        parse_csv_series(body, "observation_date", "SOFR")
    }
}

/// NY Fed Markets Data: the SOFR averages (`30-Day Average SOFR`) and the SOFR
/// series (`Rate (%)`), as CSV in descending date order.
#[derive(Clone, Copy, Debug)]
pub struct NYFed;

impl NYFed {
    pub fn name(&self) -> (r: &'static str)
        ensures
            r@ == "NY Fed"@,
    {
        "NY Fed"
    }

    /// The latest published 30-day average of a SOFR averages CSV body.
    pub fn parse(&self, body: &[u8]) -> (r: Result<(Date, u64), SofrError>)
        ensures
            csv_series(body@, "Effective Date"@, "30-Day Average SOFR"@) matches Err(e) ==> r
                == Err::<(Date, u64), SofrError>(e),
            csv_series(body@, "Effective Date"@, "30-Day Average SOFR"@) matches Ok(s) ==> r == (
            match latest_of(s) {
                Some(x) => Ok::<(Date, u64), SofrError>(x),
                None => Err::<(Date, u64), SofrError>(SofrError::NoData),
            }),
    {
        parse_csv_for_latest(body, "Effective Date", "30-Day Average SOFR")
    }

    /// The overnight series of a SOFR CSV body.
    pub fn parse_overnight_rates(body: &[u8]) -> (r: Result<Vec<(Date, u64)>, SofrError>)
        ensures
            r matches Ok(v) ==> csv_series(body@, "Effective Date"@, "Rate (%)"@) == Ok::<
                Seq<(Date, u64)>,
                SofrError,
            >(v@),
            r matches Err(e) ==> csv_series(body@, "Effective Date"@, "Rate (%)"@) == Err::<
                Seq<(Date, u64)>,
                SofrError,
            >(e),
    {
        parse_csv_series(body, "Effective Date", "Rate (%)")
    }
}

/// Office of Financial Research: the overnight SOFR series (`FNYR-SOFR-A`) as
/// JSON, from which the 30-day average is computed.
#[derive(Clone, Copy, Debug)]
pub struct OFR;

impl OFR {
    pub fn name(&self) -> (r: &'static str)
        ensures
            r@ == "OFR (computed)"@,
    {
        "OFR (computed)"
    }

    /// The 30-day compounded average published on `effective_date`, computed
    /// from overnight observations (an empty list has no data).
    pub fn compute_compounded(effective_date: Date, data: &Vec<(Date, u64)>) -> (r: Result<u64, SofrError>)
        requires
            effective_date.day_number - 30 >= i32::MIN,
        ensures
            latest_at_or_before(data@, effective_date.day_number as int) is None ==> r == Err::<
                u64,
                SofrError,
            >(SofrError::NoData),
            latest_at_or_before(data@, effective_date.day_number as int) is Some
                && latest_at_or_before(data@, effective_date.day_number - 30) is None ==> r
                == Err::<u64, SofrError>(SofrError::InsufficientHistory),
            latest_at_or_before(data@, effective_date.day_number - 30) is Some ==> r == (
            match crate::compound::compounded_scaled(
                crate::compound::period_segments(effective_date, data@),
            ) {
                Some(v) => Ok::<u64, SofrError>(v),
                None => Err::<u64, SofrError>(SofrError::NumericOverflow),
            }),
    {
        compute_compounded_average(effective_date, data)
    }

    /// The latest date of an OFR JSON body and the 30-day average computed on it.
    pub fn parse(&self, body: &[u8]) -> (r: Result<(Date, u64), SofrError>)
        ensures
            ofr_series(body@) matches Err(e) ==> r == Err::<(Date, u64), SofrError>(e),
            ofr_series(body@) matches Ok(s) ==> r == ofr_outcome(s),
    {
        let series = parse_ofr_series(body)?;
        if series.len() == 0 {
            return Err(SofrError::NoData);
        }
        let effective = match latest_at_or_before_exec(&series, i32::MAX) {
            Some(x) => x.0,
            None => {
                return Err(SofrError::NoData);
            },
        };
        proof {
            lemma_latest_self(series@, i32::MAX as int);
        }
        if effective.day_number < i32::MIN + 30 {
            return Err(SofrError::InsufficientHistory);
        }
        let v = compute_compounded_average(effective, &series)?;
        Ok((effective, v))
    }
}

} // verus!
