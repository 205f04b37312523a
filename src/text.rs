//! Character-level helpers: ASCII trimming and decimal rendering of integers.

use vstd::prelude::*;
use vstd::string::*;
use vstd::arithmetic::div_mod::lemma_breakdown;

verus! {

/// ASCII whitespace as `char::is_ascii_whitespace` defines it.
pub open spec fn is_ascii_ws(c: char) -> bool {
    c == ' ' || c == '\t' || c == '\n' || c == '\r' || c == '\x0c'
}

pub open spec fn trim_front(s: Seq<char>) -> Seq<char>
    decreases s.len(),
{
    if s.len() > 0 && is_ascii_ws(s[0]) {
        trim_front(s.drop_first())
    } else {
        s
    }
}

pub open spec fn trim_back(s: Seq<char>) -> Seq<char>
    decreases s.len(),
{
    if s.len() > 0 && is_ascii_ws(s.last()) {
        trim_back(s.drop_last())
    } else {
        s
    }
}

/// `s` without leading and trailing ASCII whitespace.
pub open spec fn trim_ascii(s: Seq<char>) -> Seq<char> {
    trim_back(trim_front(s))
}

pub open spec fn digit_char(d: nat) -> char {
    if d == 0 { '0' }
    else if d == 1 { '1' }
    else if d == 2 { '2' }
    else if d == 3 { '3' }
    else if d == 4 { '4' }
    else if d == 5 { '5' }
    else if d == 6 { '6' }
    else if d == 7 { '7' }
    else if d == 8 { '8' }
    else { '9' }
}

pub open spec fn is_digit(c: char) -> bool {
    '0' <= c && c <= '9'
}

pub open spec fn digit_value(c: char) -> nat {
    (c as u32 - '0' as u32) as nat
}

/// Value of a run of decimal digits, most significant first.
pub open spec fn digits_val(s: Seq<char>) -> nat
    decreases s.len(),
{
    if s.len() == 0 {
        0
    } else {
        digits_val(s.drop_last()) * 10 + digit_value(s.last())
    }
}

pub open spec fn all_digits(s: Seq<char>) -> bool {
    forall|i: int| 0 <= i < s.len() ==> is_digit(#[trigger] s[i])
}

pub open spec fn pow10(n: nat) -> nat
    decreases n,
{
    if n == 0 { 1 } else { 10 * pow10((n - 1) as nat) }
}

/// Shortest decimal text of `n`.
pub open spec fn nat_text(n: nat) -> Seq<char>
    decreases n,
{
    if n < 10 {
        seq![digit_char(n)]
    } else {
        nat_text(n / 10).push(digit_char(n % 10))
    }
}

/// The last `w` decimal digits of `n`, with leading zeros.
pub open spec fn padded_text(n: nat, w: nat) -> Seq<char>
    decreases w,
{
    if w == 0 {
        seq![]
    } else {
        padded_text(n / 10, (w - 1) as nat).push(digit_char(n % 10))
    }
}

pub proof fn lemma_pow10_positive(n: nat)
    ensures
        pow10(n) >= 1,
    decreases n,
{
    if n > 0 {
        lemma_pow10_positive((n - 1) as nat);
    }
}

pub proof fn lemma_pow10_add(a: nat, b: nat)
    ensures
        pow10(a + b) == pow10(a) * pow10(b),
    decreases a,
{
    if a > 0 {
        let c = (a - 1) as nat;
        lemma_pow10_add(c, b);
        assert(pow10(c + b + 1) == 10 * pow10(c + b));
        assert(pow10(c + 1) == 10 * pow10(c));
        assert(c + b + 1 == a + b);
        assert(c + 1 == a);
        assert(10 * (pow10(c) * pow10(b)) == (10 * pow10(c)) * pow10(b)) by (nonlinear_arith);
        assert(pow10(a + b) == 10 * pow10(c + b));
        assert(pow10(a) == 10 * pow10(c));
    } else {
        assert(pow10(0) == 1);
        assert(a + b == b);
    }
}

pub proof fn lemma_digit_char_value(d: nat)
    requires
        d < 10,
    ensures
        is_digit(digit_char(d)),
        digit_value(digit_char(d)) == d,
{
}

pub proof fn lemma_nat_text(n: nat)
    ensures
        digits_val(nat_text(n)) == n,
        all_digits(nat_text(n)),
        nat_text(n).len() >= 1,
    decreases n,
{
    let t = nat_text(n);
    if n < 10 {
        lemma_digit_char_value(n);
        assert(t.drop_last() =~= seq![]);
        assert(t.last() == digit_char(n));
        assert(digits_val(t) == digits_val(t.drop_last()) * 10 + digit_value(t.last()));
    } else {
        lemma_nat_text(n / 10);
        lemma_digit_char_value(n % 10);
        assert(t.drop_last() =~= nat_text(n / 10));
        assert(t.last() == digit_char(n % 10));
        assert(digits_val(t) == digits_val(t.drop_last()) * 10 + digit_value(t.last()));
        assert forall|i: int| 0 <= i < t.len() implies is_digit(#[trigger] t[i]) by {
            if i < t.len() - 1 {
                assert(t[i] == nat_text(n / 10)[i]);
            }
        }
    }
}

pub proof fn lemma_padded_text(n: nat, w: nat)
    ensures
        digits_val(padded_text(n, w)) == n % pow10(w),
        all_digits(padded_text(n, w)),
        padded_text(n, w).len() == w,
    decreases w,
{
    if w > 0 {
        let w1 = (w - 1) as nat;
        lemma_padded_text(n / 10, w1);
        lemma_digit_char_value(n % 10);
        let t = padded_text(n, w);
        assert(t.drop_last() =~= padded_text(n / 10, w1));
        assert(t.last() == digit_char(n % 10));
        assert(digits_val(t) == digits_val(t.drop_last()) * 10 + digit_value(t.last()));
        lemma_pow10_positive(w1);
        let p = pow10(w1);
        assert(pow10(w) == 10 * p);
        lemma_breakdown(n as int, 10, p as int);
        assert forall|i: int| 0 <= i < t.len() implies is_digit(#[trigger] t[i]) by {
            if i < t.len() - 1 {
                assert(t[i] == padded_text(n / 10, w1)[i]);
            }
        }
    }
}

/// `digits_val` of a concatenation.
pub proof fn lemma_digits_val_concat(a: Seq<char>, b: Seq<char>)
    ensures
        digits_val(a + b) == digits_val(a) * pow10(b.len()) + digits_val(b),
    decreases b.len(),
{
    if b.len() == 0 {
        assert(a + b =~= a);
        assert(pow10(0) == 1);
        assert(digits_val(b) == 0);
    } else {
        let b1 = b.drop_last();
        lemma_digits_val_concat(a, b1);
        assert((a + b).drop_last() =~= a + b1);
        let x = digits_val(a);
        let p = pow10(b1.len());
        let y = digits_val(b1);
        assert((a + b).last() == b.last());
        assert(digits_val(a + b) == digits_val(a + b1) * 10 + digit_value(b.last()));
        assert(pow10(b.len()) == 10 * p);
        assert(digits_val(b) == y * 10 + digit_value(b.last()));
        assert((x * p + y) * 10 == x * (10 * p) + y * 10) by (nonlinear_arith);
    }
}

/// Builds a `String` from its characters, in order.
#[verifier::external_body]
pub(crate) fn chars_to_string(v: Vec<char>) -> (r: String)
    ensures
        r@ == v@,
{
    v.into_iter().collect()
}

pub fn ascii_digit(d: u64) -> (c: char)
    requires
        d < 10,
    ensures
        c == digit_char(d as nat),
{
    if d == 0 { '0' }
    else if d == 1 { '1' }
    else if d == 2 { '2' }
    else if d == 3 { '3' }
    else if d == 4 { '4' }
    else if d == 5 { '5' }
    else if d == 6 { '6' }
    else if d == 7 { '7' }
    else if d == 8 { '8' }
    else { '9' }
}

/// Appends the shortest decimal text of `n`.
pub fn push_nat_text(out: &mut Vec<char>, n: u64)
    ensures
        final(out)@ == old(out)@ + nat_text(n as nat),
    decreases n,
{
    if n >= 10 {
        push_nat_text(out, n / 10);
        out.push(ascii_digit(n % 10));
    } else {
        out.push(ascii_digit(n));
    }
}

/// Appends the last `w` decimal digits of `n`, zero-padded.
pub fn push_padded_text(out: &mut Vec<char>, n: u64, w: u64)
    ensures
        final(out)@ == old(out)@ + padded_text(n as nat, w as nat),
    decreases w,
{
    if w > 0 {
        push_padded_text(out, n / 10, w - 1);
        out.push(ascii_digit(n % 10));
    }
}

/// Decimal text of an unsigned integer.
pub fn u64_text(n: u64) -> (r: String)
    ensures
        r@ == nat_text(n as nat),
{
    let mut v: Vec<char> = Vec::new();
    push_nat_text(&mut v, n);
    assert(v@ =~= nat_text(n as nat));
    chars_to_string(v)
}

proof fn lemma_trim_front_skip(s: Seq<char>, i: int)
    requires
        0 <= i <= s.len(),
        forall|j: int| 0 <= j < i ==> is_ascii_ws(#[trigger] s[j]),
        i == s.len() || !is_ascii_ws(s[i]),
    ensures
        trim_front(s) == s.subrange(i, s.len() as int),
    decreases i,
{
    if i == 0 {
        assert(s.subrange(0, s.len() as int) =~= s);
    } else {
        let t = s.drop_first();
        assert forall|j: int| 0 <= j < i - 1 implies is_ascii_ws(#[trigger] t[j]) by {
            assert(t[j] == s[j + 1]);
        }
        lemma_trim_front_skip(t, i - 1);
        assert(t.subrange(i - 1, t.len() as int) =~= s.subrange(i, s.len() as int));
    }
}

proof fn lemma_trim_back_skip(s: Seq<char>, k: int)
    requires
        0 <= k <= s.len(),
        forall|j: int| k <= j < s.len() ==> is_ascii_ws(#[trigger] s[j]),
        k == 0 || !is_ascii_ws(s[k - 1]),
    ensures
        trim_back(s) == s.subrange(0, k),
    decreases s.len() - k,
{
    if k == s.len() {
        assert(s.subrange(0, k) =~= s);
    } else {
        let t = s.drop_last();
        lemma_trim_back_skip(t, k);
        assert(t.subrange(0, k) =~= s.subrange(0, k));
    }
}

pub fn is_ws_char(c: char) -> (r: bool)
    ensures
        r == is_ascii_ws(c),
{
    c == ' ' || c == '\t' || c == '\n' || c == '\r' || c == '\x0c'
}

/// `s` without leading and trailing ASCII whitespace.
pub fn trim_ascii_str(s: &str) -> (r: &str)
    ensures
        r@ == trim_ascii(s@),
{
    let n = s.unicode_len();
    let mut i: usize = 0;
    while i < n && is_ws_char(s.get_char(i))
        invariant
            n == s@.len(),
            i <= n,
            forall|j: int| 0 <= j < i ==> is_ascii_ws(#[trigger] s@[j]),
        decreases n - i,
    {
        i = i + 1;
    }
    proof {
        lemma_trim_front_skip(s@, i as int);
    }
    let mut k: usize = n;
    while k > i && is_ws_char(s.get_char(k - 1))
        invariant
            n == s@.len(),
            i <= k <= n,
            forall|j: int| k <= j < n ==> is_ascii_ws(#[trigger] s@[j]),
        decreases k - i,
    {
        k = k - 1;
    }
    let ghost f = s@.subrange(i as int, n as int);
    proof {
        assert forall|j: int| k - i <= j < f.len() implies is_ascii_ws(#[trigger] f[j]) by {
            assert(f[j] == s@[j + i]);
        }
        lemma_trim_back_skip(f, k - i);
        assert(f.subrange(0, k - i) =~= s@.subrange(i as int, k as int));
    }
    s.substring_char(i, k)
}

} // verus!
