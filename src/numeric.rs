//! Fixed-point rate primitives: a scaled rate is an integer where `1% == 1_000_000`.

use vstd::prelude::*;
use vstd::string::*;
use crate::error::SofrError;
use vstd::arithmetic::div_mod::lemma_fundamental_div_mod;
use crate::text::{
    all_digits, chars_to_string, digit_value, digits_val, is_ascii_ws, is_digit, lemma_digits_val_concat,
    lemma_nat_text, lemma_padded_text, lemma_pow10_add, lemma_pow10_positive, nat_text, trim_back, trim_front,
    padded_text, pow10, push_nat_text, push_padded_text, trim_ascii, trim_ascii_str,
};

verus! {

/// Scaled units in one percent.
pub const SCALE: u64 = 1_000_000;

/// Largest integer part whose scaled value can still fit in a `u64`.
const MAX_WHOLE_PERCENT: u64 = 18_446_744_073_709;

/// End of the run of digits of `t` that starts at `i`.
pub open spec fn scan_digits(t: Seq<char>, i: int) -> int
    decreases t.len() - i,
{
    if 0 <= i < t.len() && is_digit(t[i]) {
        scan_digits(t, i + 1)
    } else {
        i
    }
}

/// Length of the integer part of a decimal text.
pub open spec fn int_len(t: Seq<char>) -> int {
    scan_digits(t, 0)
}

/// `t` is a plain decimal: digits, optionally one `.` and more digits, not `.` alone.
pub open spec fn is_plain_decimal(t: Seq<char>) -> bool {
    let k = int_len(t);
    (k == t.len() && k > 0) || (k < t.len() && t[k] == '.' && scan_digits(t, k + 1) == t.len()
        && t.len() > 1)
}

pub open spec fn int_part(t: Seq<char>) -> Seq<char> {
    t.subrange(0, int_len(t))
}

pub open spec fn frac_part(t: Seq<char>) -> Seq<char> {
    if int_len(t) >= t.len() {
        seq![]
    } else {
        t.subrange(int_len(t) + 1, t.len() as int)
    }
}

pub open spec fn min_nat(a: nat, b: nat) -> nat {
    if a <= b { a } else { b }
}

/// The first six fractional digits as millionths, the rest dropped.
pub open spec fn frac_millionths(f: Seq<char>) -> nat {
    let m = min_nat(6, f.len());
    digits_val(f.subrange(0, m as int)) * pow10((6 - m) as nat)
}

/// `floor(value(t) * 1_000_000)` for a plain decimal `t`.
pub open spec fn scaled_value(t: Seq<char>) -> nat {
    digits_val(int_part(t)) * 1_000_000 + frac_millionths(frac_part(t))
}

/// What reading a percent text gives.
pub open spec fn spec_parse_percent(s: Seq<char>) -> Result<u64, SofrError> {
    let t = trim_ascii(s);
    if t.len() == 0 || t =~= seq!['.'] {
        Err(SofrError::MissingValue)
    } else if t[0] == '-' {
        Err(SofrError::NegativeValue)
    } else if !is_plain_decimal(t) {
        Err(SofrError::MalformedNumber)
    } else if scaled_value(t) > u64::MAX {
        Err(SofrError::NumericOverflow)
    } else {
        Ok(scaled_value(t) as u64)
    }
}

/// The text `{:.8}` gives for `n / 100_000_000`.
pub open spec fn fmt_scaled_text(n: nat) -> Seq<char> {
    nat_text(n / 100_000_000) + seq!['.'] + padded_text(n % 100_000_000, 8)
}

/// `floor(r * 365.25 / 360)`, the ACT/360 to ACT/365.25 conversion.
pub open spec fn spec_adjust_basis(r: nat) -> nat {
    r * 487 / 480
}

/// `floor(r * 85 / 100)`.
pub open spec fn spec_aqa_scale(r: nat) -> nat {
    r * 85 / 100
}

pub proof fn lemma_scan_digits(t: Seq<char>, i: int)
    requires
        0 <= i <= t.len(),
    ensures
        i <= scan_digits(t, i) <= t.len(),
        forall|j: int| i <= j < scan_digits(t, i) ==> is_digit(#[trigger] t[j]),
        scan_digits(t, i) == t.len() || !is_digit(t[scan_digits(t, i)]),
    decreases t.len() - i,
{
    if i < t.len() && is_digit(t[i]) {
        lemma_scan_digits(t, i + 1);
    }
}

proof fn lemma_digits_val_prefix_mono(t: Seq<char>, i: int, k: int)
    requires
        0 <= i <= k <= t.len(),
    ensures
        digits_val(t.subrange(0, i)) <= digits_val(t.subrange(0, k)),
    decreases k - i,
{
    if i < k {
        lemma_digits_val_prefix_mono(t, i, k - 1);
        assert(t.subrange(0, k).drop_last() =~= t.subrange(0, k - 1));
    }
}

pub fn is_digit_char(c: char) -> (r: bool)
    ensures
        r == is_digit(c),
{
    '0' <= c && c <= '9'
}

fn digit_of(c: char) -> (d: u64)
    requires
        is_digit(c),
    ensures
        d == digit_value(c),
        d < 10,
{
    (c as u32 - '0' as u32) as u64
}

/// Value of the digits `t[from..to]`, or `None` once it exceeds `limit`.
fn digits_upto(t: &str, from: usize, to: usize, limit: u64) -> (r: Option<u64>)
    requires
        from <= to <= t@.len(),
        forall|j: int| from <= j < to ==> is_digit(#[trigger] t@[j]),
        limit <= MAX_WHOLE_PERCENT,
    ensures
        r matches Some(v) ==> v == digits_val(t@.subrange(from as int, to as int)) && v <= limit,
        r is None ==> digits_val(t@.subrange(from as int, to as int)) > limit,
{
    let ghost u = t@.subrange(from as int, to as int);
    let mut v: u64 = 0;
    let mut i: usize = from;
    while i < to
        invariant
            from <= i <= to <= t@.len(),
            forall|j: int| from <= j < to ==> is_digit(#[trigger] t@[j]),
            u == t@.subrange(from as int, to as int),
            v == digits_val(u.subrange(0, i - from)),
            v <= limit,
            limit <= MAX_WHOLE_PERCENT,
        decreases to - i,
    {
        let d = digit_of(t.get_char(i));
        proof {
            assert(u.subrange(0, i + 1 - from).drop_last() =~= u.subrange(0, i - from));
            assert(u.subrange(0, i + 1 - from).last() == t@[i as int]);
        }
        v = v * 10 + d;
        i = i + 1;
        if v > limit {
            proof {
                lemma_digits_val_prefix_mono(u, i - from, u.len() as int);
                assert(u.subrange(0, u.len() as int) =~= u);
            }
            return None;
        }
    }
    proof {
        assert(u.subrange(0, i - from) =~= u);
    }
    Some(v)
}

/// Parses a percent text into a scaled rate (`1% == 1_000_000`), flooring past six decimals.
///
/// Surrounding ASCII whitespace is ignored. Empty text and a sole `"."` are
/// missing values; a leading `-` is a negative value; anything but digits with at
/// most one `.` is malformed (so exponent notation is refused).
pub fn percent_to_floored_u64(s: &str) -> (r: Result<u64, SofrError>)
    ensures
        r == spec_parse_percent(s@),
{
    let t = trim_ascii_str(s);
    let n = t.unicode_len();
    if n == 0 {
        return Err(SofrError::MissingValue);
    }
    if n == 1 && t.get_char(0) == '.' {
        assert(t@ =~= seq!['.']);
        return Err(SofrError::MissingValue);
    }
    assert(!(t@ =~= seq!['.']));
    if t.get_char(0) == '-' {
        return Err(SofrError::NegativeValue);
    }
    let mut k: usize = 0;
    while k < n && is_digit_char(t.get_char(k))
        invariant
            n == t@.len(),
            k <= n,
            scan_digits(t@, 0) == scan_digits(t@, k as int),
        decreases n - k,
    {
        k = k + 1;
    }
    let frac_start: usize;
    if k == n {
        frac_start = n;
    } else {
        if t.get_char(k) != '.' {
            return Err(SofrError::MalformedNumber);
        }
        let mut j: usize = k + 1;
        while j < n && is_digit_char(t.get_char(j))
            invariant
                n == t@.len(),
                k < j <= n,
                scan_digits(t@, k + 1) == scan_digits(t@, j as int),
            decreases n - j,
        {
            j = j + 1;
        }
        if j != n {
            return Err(SofrError::MalformedNumber);
        }
        frac_start = k + 1;
    }
    proof {
        lemma_scan_digits(t@, 0);
        if k < n {
            lemma_scan_digits(t@, k + 1);
        }
    }
    assert(is_plain_decimal(t@));
    let whole = match digits_upto(t, 0, k, MAX_WHOLE_PERCENT) {
        Some(v) => v,
        None => {
            return Err(SofrError::NumericOverflow);
        },
    };
    let frac_len = n - frac_start;
    let m: usize = if frac_len < 6 { frac_len } else { 6 };
    let ghost f = frac_part(t@);
    assert(int_len(t@) == k as int);
    assert(f.len() == frac_len);
    assert(f.subrange(0, m as int) =~= t@.subrange(frac_start as int, (frac_start + m) as int));
    let mut millionths = match digits_upto(t, frac_start, frac_start + m, 999_999) {
        Some(v) => v,
        None => {
            proof {
                assert(false) by {
                    lemma_digits_bound(f.subrange(0, m as int));
                    assert(pow10(m as nat) <= 1_000_000) by {
                        lemma_pow10_mono(m as nat, 6);
                        reveal_with_fuel(pow10, 7);
                    }
                }
            }
            return Err(SofrError::NumericOverflow);
        },
    };
    let mut e: usize = m;
    proof {
        lemma_digits_bound(f.subrange(0, m as int));
        assert(pow10(0) == 1);
        assert(millionths == digits_val(t@.subrange(frac_start as int, (frac_start + m) as int)));
        assert(millionths == digits_val(f.subrange(0, m as int)));
        assert(millionths == digits_val(f.subrange(0, m as int)) * pow10(0));
    }
    while e < 6
        invariant
            m <= e <= 6,
            m <= f.len(),
            millionths == digits_val(f.subrange(0, m as int)) * pow10((e - m) as nat),
            millionths < pow10(e as nat),
        decreases 6 - e,
    {
        proof {
            let a = digits_val(f.subrange(0, m as int));
            assert(pow10((e + 1 - m) as nat) == 10 * pow10((e - m) as nat));
            assert(pow10((e + 1) as nat) == 10 * pow10(e as nat));
            reveal_with_fuel(pow10, 7);
            lemma_pow10_mono(e as nat, 5);
            assert(a * (10 * pow10((e - m) as nat)) == (a * pow10((e - m) as nat)) * 10)
                by (nonlinear_arith);
        }
        millionths = millionths * 10;
        e = e + 1;
    }
    let total: u128 = whole as u128 * 1_000_000 + millionths as u128;
    if total > u64::MAX as u128 {
        return Err(SofrError::NumericOverflow);
    }
    Ok(total as u64)
}

pub proof fn lemma_pow10_mono(a: nat, b: nat)
    requires
        a <= b,
    ensures
        pow10(a) <= pow10(b),
    decreases b,
{
    if a < b {
        lemma_pow10_mono(a, (b - 1) as nat);
        lemma_pow10_positive((b - 1) as nat);
    }
}

pub proof fn lemma_digits_bound(s: Seq<char>)
    requires
        all_digits(s),
    ensures
        digits_val(s) < pow10(s.len()),
    decreases s.len(),
{
    if s.len() > 0 {
        let s1 = s.drop_last();
        assert(all_digits(s1)) by {
            assert forall|i: int| 0 <= i < s1.len() implies is_digit(#[trigger] s1[i]) by {
                assert(s1[i] == s[i]);
            }
        }
        lemma_digits_bound(s1);
        assert(is_digit(s[s.len() - 1]));
        assert(pow10(s.len()) == 10 * pow10(s1.len()));
    }
}

/// Renders a scaled rate as the decimal fraction it stands for, with eight places:
/// `4_500_000` becomes `"0.04500000"`.
pub fn fmt_scaled_rate(scaled_rate: u64) -> (r: String)
    ensures
        r@ == fmt_scaled_text(scaled_rate as nat),
{
    let mut v: Vec<char> = Vec::new();
    push_nat_text(&mut v, scaled_rate / 100_000_000);
    v.push('.');
    push_padded_text(&mut v, scaled_rate % 100_000_000, 8);
    assert(v@ =~= fmt_scaled_text(scaled_rate as nat));
    chars_to_string(v)
}

/// Converts a scaled rate from an ACT/360 to an ACT/365.25 basis: `floor(r * 487 / 480)`.
pub fn adjust_basis(scaled_rate: u64) -> (r: u64)
    requires
        spec_adjust_basis(scaled_rate as nat) <= u64::MAX,
    ensures
        r == spec_adjust_basis(scaled_rate as nat),
{
    ((scaled_rate as u128 * 487) / 480) as u64
}

/// Applies the 85% AQA scalar: `floor(r * 85 / 100)`.
pub fn aqa_scale(scaled_rate: u64) -> (r: u64)
    ensures
        r == spec_aqa_scale(scaled_rate as nat),
{
    ((scaled_rate as u128 * 85) / 100) as u64
}

/// The AQA reference rate of a median 30-day average: basis adjustment, then the scalar.
pub fn aqa_ref_rate(median_rate: u64) -> (r: u64)
    requires
        spec_adjust_basis(median_rate as nat) <= u64::MAX,
    ensures
        r == spec_aqa_scale(spec_adjust_basis(median_rate as nat)),
{
    aqa_scale(adjust_basis(median_rate))
}

} // verus!

verus! {

/// A basis-adjusted rate is never below the rate, and exceeds it by at most
/// the ratio `487/480 - 1`, less than one unit short of the exact product.
pub proof fn lemma_adjust_basis_bounds(r: nat)
    ensures
        r <= spec_adjust_basis(r),
        spec_adjust_basis(r) * 480 <= r * 487,
        r * 487 < (spec_adjust_basis(r) + 1) * 480,
{
    let a = spec_adjust_basis(r);
    lemma_fundamental_div_mod((r * 487) as int, 480);
    assert(0 <= (r * 487) as int % 480 < 480);
}

/// End of the leading whitespace that `trim_front` drops.
proof fn lemma_trim_front_offset(s: Seq<char>) -> (a: int)
    ensures
        0 <= a <= s.len(),
        trim_front(s) == s.subrange(a, s.len() as int),
        forall|j: int| 0 <= j < a ==> is_ascii_ws(#[trigger] s[j]),
    decreases s.len(),
{
    if s.len() > 0 && is_ascii_ws(s[0]) {
        let t = s.drop_first();
        let b = lemma_trim_front_offset(t);
        assert(t.subrange(b, t.len() as int) =~= s.subrange(b + 1, s.len() as int));
        assert forall|j: int| 0 <= j < b + 1 implies is_ascii_ws(#[trigger] s[j]) by {
            if j > 0 {
                assert(s[j] == t[j - 1]);
            }
        }
        b + 1
    } else {
        assert(s.subrange(0, s.len() as int) =~= s);
        0
    }
}

/// Start of the trailing whitespace that `trim_back` drops.
proof fn lemma_trim_back_offset(s: Seq<char>) -> (b: int)
    ensures
        0 <= b <= s.len(),
        trim_back(s) == s.subrange(0, b),
        forall|j: int| b <= j < s.len() ==> is_ascii_ws(#[trigger] s[j]),
    decreases s.len(),
{
    if s.len() > 0 && is_ascii_ws(s.last()) {
        let t = s.drop_last();
        let b = lemma_trim_back_offset(t);
        assert(t.subrange(0, b) =~= s.subrange(0, b));
        assert forall|j: int| b <= j < s.len() implies is_ascii_ws(#[trigger] s[j]) by {
            if j < s.len() - 1 {
                assert(s[j] == t[j]);
            }
        }
        b
    } else {
        assert(s.subrange(0, s.len() as int) =~= s);
        s.len() as int
    }
}

/// Every plain decimal consists of digits and at most one `.`.
proof fn lemma_plain_decimal_chars(t: Seq<char>, x: int)
    requires
        is_plain_decimal(t),
        0 <= x < t.len(),
    ensures
        is_digit(t[x]) || t[x] == '.',
{
    lemma_scan_digits(t, 0);
    let k = int_len(t);
    if k < t.len() {
        lemma_scan_digits(t, k + 1);
    }
}

/// Percent parsing refuses every text that is negative (a leading `-` once
/// trimmed) and every text in exponent notation (one holding `e` or `E`).
pub proof fn lemma_parse_percent_rejects(s: Seq<char>)
    ensures
        trim_ascii(s).len() > 0 && trim_ascii(s)[0] == '-' ==> spec_parse_percent(s) is Err,
        forall|i: int| 0 <= i < s.len() && (s[i] == 'e' || s[i] == 'E')
            ==> spec_parse_percent(s) is Err,
{
    assert forall|i: int| 0 <= i < s.len() && (s[i] == 'e' || s[i] == 'E') implies
        spec_parse_percent(s) is Err by {
        let a = lemma_trim_front_offset(s);
        let u = trim_front(s);
        let b = lemma_trim_back_offset(u);
        let t = trim_ascii(s);
        assert(i >= a);
        assert(u[i - a] == s[i]);
        assert(i - a < b);
        assert(t[i - a] == s[i]);
        if is_plain_decimal(t) {
            lemma_plain_decimal_chars(t, i - a);
        }
    }
}

/// `scan_digits` stops exactly at the first non-digit after a run of digits.
proof fn lemma_scan_digits_at(t: Seq<char>, i: int, m: int)
    requires
        0 <= i <= m <= t.len(),
        forall|j: int| i <= j < m ==> is_digit(#[trigger] t[j]),
        m == t.len() || !is_digit(t[m]),
    ensures
        scan_digits(t, i) == m,
    decreases m - i,
{
    if i < m {
        lemma_scan_digits_at(t, i + 1, m);
    }
}

/// Formatting the parse of a percent text with at most six decimals gives that
/// percent as a decimal fraction with eight places: the formatted text reads
/// back as exactly one hundredth of the input.
pub proof fn lemma_format_parse_round_trip(s: Seq<char>)
    requires
        is_plain_decimal(trim_ascii(s)),
        frac_part(trim_ascii(s)).len() <= 6,
        scaled_value(trim_ascii(s)) <= u64::MAX,
    ensures
        spec_parse_percent(s) is Ok,
        ({
            let t = trim_ascii(s);
            let f = fmt_scaled_text(spec_parse_percent(s)->Ok_0 as nat);
            &&& is_plain_decimal(f)
            &&& frac_part(f).len() == 8
            &&& digits_val(int_part(f) + frac_part(f)) * 100 * pow10(frac_part(t).len())
                == digits_val(int_part(t) + frac_part(t)) * pow10(8)
        }),
{
    let t = trim_ascii(s);
    lemma_scan_digits(t, 0);
    let k = int_len(t);
    if k < t.len() {
        lemma_scan_digits(t, k + 1);
    }
    assert(t.len() > 0);
    assert(!(t =~= seq!['.'])) by {
        if t =~= seq!['.'] {
            assert(k == 0);
        }
    }
    assert(t[0] != '-') by {
        lemma_plain_decimal_chars(t, 0);
    }
    let n = scaled_value(t);
    assert(spec_parse_percent(s) == Ok::<u64, SofrError>(n as u64));
    let q = n / 100_000_000;
    let r = n % 100_000_000;
    let head = nat_text(q);
    let tail = padded_text(r, 8);
    let f = fmt_scaled_text(n);
    lemma_nat_text(q);
    lemma_padded_text(r, 8);
    assert(f =~= head + seq!['.'] + tail);
    assert forall|j: int| 0 <= j < head.len() implies is_digit(#[trigger] f[j]) by {
        assert(f[j] == head[j]);
    }
    lemma_scan_digits_at(f, 0, head.len() as int);
    assert forall|j: int| head.len() + 1 <= j < f.len() implies is_digit(#[trigger] f[j]) by {
        assert(f[j] == tail[j - head.len() - 1]);
    }
    lemma_scan_digits_at(f, head.len() as int + 1, f.len() as int);
    assert(int_part(f) =~= head);
    assert(frac_part(f) =~= tail);
    // the formatted text's digits spell n
    lemma_digits_val_concat(head, tail);
    reveal_with_fuel(pow10, 9);
    assert(pow10(8) == 100_000_000);
    lemma_fundamental_div_mod(n as int, 100_000_000);
    assert(digits_val(head + tail) == n);
    // the input's digits spell n / 10^(6 - |frac|)
    let ip = int_part(t);
    let fp = frac_part(t);
    let kf = fp.len();
    assert(fp.subrange(0, kf as int) =~= fp);
    lemma_digits_val_concat(ip, fp);
    let w = digits_val(ip);
    let d = digits_val(fp);
    assert(n == w * 1_000_000 + d * pow10((6 - kf) as nat));
    lemma_pow10_add(kf, (6 - kf) as nat);
    assert(pow10(6) == 1_000_000);
    let pk = pow10(kf);
    let pr = pow10((6 - kf) as nat);
    assert(pk * pr == 1_000_000);
    assert((w * 1_000_000 + d * pr) * 100 * pk == (w * pk + d) * 100_000_000)
        by (nonlinear_arith)
        requires
            pk * pr == 1_000_000,
    ;
}

} // verus!
