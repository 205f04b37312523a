//! Cross-source validation and median selection of 30-day averages.

use vstd::prelude::*;
use vstd::string::*;
use crate::date::Date;
use crate::error::SofrError;

verus! {

/// Largest gap, in scaled units (5 basis points), that still counts as agreement.
pub const MAX_DIFF_BPS: u64 = 50_000;

/// Upper bound of a plausible rate (15%). Rates are unsigned, so the lower bound of
/// -5% is met by every rate that passes this one: a value whose signed reading
/// would be below -5% is above `i64::MAX`, far above this bound.
pub const MAX_RATE: u64 = 15_000_000;

/// Most days the median effective date may lag the query date.
pub const MAX_STALENESS_DAYS: i64 = 7;

/// An observation without its source name: effective date and scaled rate.
pub open spec fn obs_of(results: Seq<(&str, Date, u64)>) -> Seq<(Date, u64)> {
    results.map_values(|o: (&str, Date, u64)| (o.1, o.2))
}

pub open spec fn abs_diff(a: u64, b: u64) -> int {
    if a >= b { a - b } else { b - a }
}

/// Some two observations lie within the agreement tolerance.
pub open spec fn has_close_pair(s: Seq<(Date, u64)>) -> bool {
    exists|i: int, j: int|
        0 <= i < j < s.len() && #[trigger] abs_diff(s[i].1, s[j].1) <= MAX_DIFF_BPS
}

/// Index of the first implausible rate at or after `i`, or the length.
pub open spec fn first_implausible(s: Seq<(Date, u64)>, i: int) -> int
    decreases s.len() - i,
{
    if i < 0 || i >= s.len() {
        s.len() as int
    } else if s[i].1 > MAX_RATE {
        i
    } else {
        first_implausible(s, i + 1)
    }
}

/// `s` (sorted by `key`) with `x` inserted after every element whose key is not above its own.
pub open spec fn insert_by<T>(s: Seq<T>, x: T, key: spec_fn(T) -> int) -> Seq<T>
    decreases s.len(),
{
    if s.len() == 0 {
        seq![x]
    } else if key(s.last()) <= key(x) {
        s.push(x)
    } else {
        insert_by(s.drop_last(), x, key).push(s.last())
    }
}

/// Stable insertion sort by `key`.
pub open spec fn sort_by<T>(s: Seq<T>, key: spec_fn(T) -> int) -> Seq<T>
    decreases s.len(),
{
    if s.len() == 0 {
        seq![]
    } else {
        insert_by(sort_by(s.drop_last(), key), s.last(), key)
    }
}

pub open spec fn day_key() -> spec_fn(Date) -> int {
    |d: Date| d.day_number as int
}

pub open spec fn rate_key() -> spec_fn((Date, u64)) -> int {
    |o: (Date, u64)| o.1 as int
}

/// The date used for staleness: the middle date, the earlier of the two middle ones when even.
pub open spec fn staleness_date(s: Seq<(Date, u64)>) -> Date {
    sort_by(s.map_values(|o: (Date, u64)| o.0), day_key())[(s.len() - 1) / 2]
}

pub open spec fn days_behind(query: Date, s: Seq<(Date, u64)>) -> int {
    query.day_number - staleness_date(s).day_number
}

/// Median by rate: the middle observation, or for an even count the lower middle's
/// date with the truncated mean of the two middle rates.
pub open spec fn median_of(s: Seq<(Date, u64)>) -> (Date, u64) {
    let r = sort_by(s, rate_key());
    let m = (s.len() / 2) as int;
    if s.len() % 2 == 0 {
        (r[m - 1].0, ((r[m - 1].1 + r[m].1) / 2) as u64)
    } else {
        r[m]
    }
}

/// `e` reports the rate `value` of the source `name` as implausible.
pub open spec fn is_out_of_range(e: SofrError, name: &str, value: u64) -> bool {
    match e {
        SofrError::OutOfRange { source, value: v } => source@ == name@ && v == value,
        _ => false,
    }
}

/// The validated median, when every check passes.
pub open spec fn validated_median(query: Date, s: Seq<(Date, u64)>) -> Option<(Date, u64)> {
    if s.len() >= 2 && has_close_pair(s) && first_implausible(s, 0) == s.len()
        && days_behind(query, s) <= MAX_STALENESS_DAYS {
        Some(median_of(s))
    } else {
        None
    }
}

proof fn lemma_first_implausible(s: Seq<(Date, u64)>, i: int)
    requires
        0 <= i <= s.len(),
    ensures
        i <= first_implausible(s, i) <= s.len(),
        forall|j: int| i <= j < first_implausible(s, i) ==> s[j].1 <= MAX_RATE,
        first_implausible(s, i) < s.len() ==> s[first_implausible(s, i)].1 > MAX_RATE,
    decreases s.len() - i,
{
    if i < s.len() && s[i].1 <= MAX_RATE {
        lemma_first_implausible(s, i + 1);
    }
}

proof fn lemma_insert_by_at<T>(s: Seq<T>, x: T, key: spec_fn(T) -> int, p: int)
    requires
        0 <= p <= s.len(),
        forall|j: int| p <= j < s.len() ==> key(#[trigger] s[j]) > key(x),
        p == 0 || key(s[p - 1]) <= key(x),
    ensures
        insert_by(s, x, key) == s.insert(p, x),
        insert_by(s, x, key).len() == s.len() + 1,
    decreases s.len() - p,
{
    if s.len() == 0 {
        assert(s.insert(p, x) =~= seq![x]);
    } else if p == s.len() {
        assert(s.insert(p, x) =~= s.push(x));
    } else {
        let t = s.drop_last();
        lemma_insert_by_at(t, x, key, p);
        assert(s.insert(p, x) =~= t.insert(p, x).push(s.last()));
    }
}

proof fn lemma_sort_by_len<T>(s: Seq<T>, key: spec_fn(T) -> int)
    ensures
        sort_by(s, key).len() == s.len(),
    decreases s.len(),
{
    if s.len() > 0 {
        lemma_sort_by_len(s.drop_last(), key);
        lemma_insert_by_len(sort_by(s.drop_last(), key), s.last(), key);
    }
}

proof fn lemma_insert_by_len<T>(s: Seq<T>, x: T, key: spec_fn(T) -> int)
    ensures
        insert_by(s, x, key).len() == s.len() + 1,
    decreases s.len(),
{
    if s.len() > 0 && key(s.last()) > key(x) {
        lemma_insert_by_len(s.drop_last(), x, key);
    }
}

fn abs_diff_u64(a: u64, b: u64) -> (r: u64)
    ensures
        r == abs_diff(a, b),
{
    if a >= b { a - b } else { b - a }
}

/// Stable insertion sort of effective dates.
fn sort_dates(v: &Vec<Date>) -> (r: Vec<Date>)
    ensures
        r@ == sort_by(v@, day_key()),
{
    let mut out: Vec<Date> = Vec::new();
    let mut i: usize = 0;
    while i < v.len()
        invariant
            i <= v@.len(),
            out@ == sort_by(v@.subrange(0, i as int), day_key()),
        decreases v.len() - i,
    {
        let x = v[i];
        let ghost old_out = out@;
        proof {
            lemma_sort_by_len(v@.subrange(0, i as int), day_key());
        }
        let mut p: usize = out.len();
        while p > 0 && out[p - 1].day_number > x.day_number
            invariant
                p <= out@.len(),
                out@ == old_out,
                forall|j: int| p <= j < out@.len() ==> day_key()(#[trigger] out@[j]) > day_key()(x),
            decreases p,
        {
            p = p - 1;
        }
        proof {
            lemma_insert_by_at(out@, x, day_key(), p as int);
            assert(v@.subrange(0, i + 1).drop_last() =~= v@.subrange(0, i as int));
        }
        out.insert(p, x);
        i = i + 1;
    }
    assert(v@.subrange(0, v@.len() as int) =~= v@);
    out
}

/// Stable insertion sort of observations by rate.
fn sort_by_rate(v: &Vec<(Date, u64)>) -> (r: Vec<(Date, u64)>)
    ensures
        r@ == sort_by(v@, rate_key()),
{
    let mut out: Vec<(Date, u64)> = Vec::new();
    let mut i: usize = 0;
    while i < v.len()
        invariant
            i <= v@.len(),
            out@ == sort_by(v@.subrange(0, i as int), rate_key()),
        decreases v.len() - i,
    {
        let x = v[i];
        let ghost old_out = out@;
        proof {
            lemma_sort_by_len(v@.subrange(0, i as int), rate_key());
        }
        let mut p: usize = out.len();
        while p > 0 && out[p - 1].1 > x.1
            invariant
                p <= out@.len(),
                out@ == old_out,
                forall|j: int| p <= j < out@.len() ==> rate_key()(#[trigger] out@[j]) > rate_key()(x),
            decreases p,
        {
            p = p - 1;
        }
        proof {
            lemma_insert_by_at(out@, x, rate_key(), p as int);
            assert(v@.subrange(0, i + 1).drop_last() =~= v@.subrange(0, i as int));
        }
        out.insert(p, x);
        i = i + 1;
    }
    assert(v@.subrange(0, v@.len() as int) =~= v@);
    out
}

/// Validates the sources' observations against each other and returns the median
/// `(date, rate)`.
///
/// The checks run in order, and the first that fails decides the error: at
/// least two observations; some pair within 5 basis points; every rate at most
/// 15%; the middle effective date (the earlier middle one for an even count) no
/// more than seven days before `query_date`.
pub fn compute_validated_median(query_date: Date, results: Vec<(&str, Date, u64)>) -> (r: Result<
    (Date, u64),
    SofrError,
>)
    ensures
        obs_of(results@).len() < 2 ==> r == Err::<(Date, u64), SofrError>(
            SofrError::InsufficientSources { count: results@.len() as usize },
        ),
        obs_of(results@).len() >= 2 && !has_close_pair(obs_of(results@)) ==> r == Err::<
            (Date, u64),
            SofrError,
        >(SofrError::SourcesDisagree),
        obs_of(results@).len() >= 2 && has_close_pair(obs_of(results@)) && first_implausible(
            obs_of(results@),
            0,
        ) < results@.len() ==> r is Err && is_out_of_range(
            r->Err_0,
            results@[first_implausible(obs_of(results@), 0)].0,
            results@[first_implausible(obs_of(results@), 0)].2,
        ),
        obs_of(results@).len() >= 2 && has_close_pair(obs_of(results@)) && first_implausible(
            obs_of(results@),
            0,
        ) == results@.len() && days_behind(query_date, obs_of(results@)) > MAX_STALENESS_DAYS
            ==> r == Err::<(Date, u64), SofrError>(
            SofrError::StaleData {
                median_date: staleness_date(obs_of(results@)),
                days_behind: days_behind(query_date, obs_of(results@)) as i64,
            },
        ),
        validated_median(query_date, obs_of(results@)) matches Some(m) ==> r == Ok::<
            (Date, u64),
            SofrError,
        >(m),
{
    let ghost s = obs_of(results@);
    let n = results.len();
    assert(s.len() == n);
    if n < 2 {
        return Err(SofrError::InsufficientSources { count: n });
    }
    // agreement: some pair within tolerance
    let mut found = false;
    let mut i: usize = 0;
    while i < n && !found
        invariant
            n == results@.len(),
            s == obs_of(results@),
            i <= n,
            found ==> has_close_pair(s),
            !found ==> forall|a: int, b: int|
                0 <= a < i && a < b < n ==> #[trigger] abs_diff(s[a].1, s[b].1) > MAX_DIFF_BPS,
        decreases n - i + (if found { 0int } else { 1int }),
    {
        let mut j: usize = i + 1;
        while j < n && !found
            invariant
                n == results@.len(),
                s == obs_of(results@),
                i < n,
                i + 1 <= j <= n,
                found ==> has_close_pair(s),
                !found ==> forall|a: int, b: int|
                    0 <= a < i && a < b < n ==> #[trigger] abs_diff(s[a].1, s[b].1)
                        > MAX_DIFF_BPS,
                !found ==> forall|b: int| i < b < j ==> #[trigger] abs_diff(s[i as int].1, s[b].1)
                    > MAX_DIFF_BPS,
            decreases n - j + (if found { 0int } else { 1int }),
        {
            if abs_diff_u64(results[i].2, results[j].2) <= MAX_DIFF_BPS {
                assert(abs_diff(s[i as int].1, s[j as int].1) <= MAX_DIFF_BPS);
                found = true;
            } else {
                j = j + 1;
            }
        }
        if !found {
            i = i + 1;
        }
    }
    if !found {
        assert(!has_close_pair(s));
        return Err(SofrError::SourcesDisagree);
    }
    // plausibility of every rate
    let mut k: usize = 0;
    proof {
        lemma_first_implausible(s, 0);
    }
    while k < n
        invariant
            n == results@.len(),
            s == obs_of(results@),
            k <= n,
            n >= 2,
            has_close_pair(s),
            first_implausible(s, 0) == first_implausible(s, k as int),
        decreases n - k,
    {
        if results[k].2 > MAX_RATE {
            assert(s[k as int].1 == results@[k as int].2);
            assert(first_implausible(s, k as int) == k);
            let source = String::from_str(results[k].0);
            assert(source@ == results@[k as int].0@);
            let e = SofrError::OutOfRange { source, value: results[k].2 };
            return Err(e);
        }
        assert(s[k as int].1 == results@[k as int].2);
        k = k + 1;
    }
    // staleness of the middle effective date
    let mut dates: Vec<Date> = Vec::new();
    let mut obs: Vec<(Date, u64)> = Vec::new();
    let mut q: usize = 0;
    while q < n
        invariant
            n == results@.len(),
            s == obs_of(results@),
            q <= n,
            dates@ == s.subrange(0, q as int).map_values(|o: (Date, u64)| o.0),
            obs@ == s.subrange(0, q as int),
        decreases n - q,
    {
        dates.push(results[q].1);
        obs.push((results[q].1, results[q].2));
        q = q + 1;
        assert(dates@ =~= s.subrange(0, q as int).map_values(|o: (Date, u64)| o.0));
        assert(obs@ =~= s.subrange(0, q as int));
    }
    assert(s.subrange(0, n as int) =~= s);
    let sorted_dates = sort_dates(&dates);
    proof {
        lemma_sort_by_len(dates@, day_key());
    }
    let median_date = sorted_dates[(n - 1) / 2];
    let behind = query_date.days_since(&median_date);
    if behind > MAX_STALENESS_DAYS {
        return Err(SofrError::StaleData { median_date, days_behind: behind });
    }
    // median by rate
    let sorted = sort_by_rate(&obs);
    proof {
        lemma_sort_by_len(obs@, rate_key());
    }
    let m = n / 2;
    if n % 2 == 0 {
        let lo = sorted[m - 1];
        let hi = sorted[m];
        Ok((lo.0, ((lo.1 as u128 + hi.1 as u128) / 2) as u64))
    } else {
        Ok(sorted[m])
    }
}

} // verus!

verus! {

pub open spec fn min3(a: u64, b: u64, c: u64) -> u64 {
    if a <= b && a <= c { a } else if b <= c { b } else { c }
}

pub open spec fn max3(a: u64, b: u64, c: u64) -> u64 {
    if a >= b && a >= c { a } else if b >= c { b } else { c }
}

proof fn lemma_sort3<T>(x: T, y: T, z: T, key: spec_fn(T) -> int)
    ensures
        ({
            let r = sort_by(seq![x, y, z], key);
            &&& r.len() == 3
            &&& key(r[0]) <= key(r[1]) <= key(r[2])
            &&& (r == seq![x, y, z] || r == seq![y, x, z] || r == seq![x, z, y] || r == seq![y, z, x]
                || r == seq![z, x, y] || r == seq![z, y, x])
        }),
{
    let s = seq![x, y, z];
    assert(s.drop_last() =~= seq![x, y]);
    assert(seq![x, y].drop_last() =~= seq![x]);
    assert(seq![x].drop_last() =~= Seq::<T>::empty());
    reveal_with_fuel(sort_by, 4);
    reveal_with_fuel(insert_by, 4);
    assert(sort_by(seq![x], key) =~= seq![x]);
    let s2 = sort_by(seq![x, y], key);
    if key(x) <= key(y) {
        assert(s2 =~= seq![x, y]);
    } else {
        assert(s2 =~= seq![y, x]);
    }
    let r = sort_by(s, key);
    assert(r == insert_by(s2, z, key));
    assert(s2.drop_last() =~= seq![s2[0]]);
    assert(seq![s2[0]].drop_last() =~= Seq::<T>::empty());
    if key(s2[1]) <= key(z) {
        assert(r =~= seq![s2[0], s2[1], z]);
    } else if key(s2[0]) <= key(z) {
        assert(r =~= seq![s2[0], z, s2[1]]);
    } else {
        assert(r =~= seq![z, s2[0], s2[1]]);
    }
}

/// For three observations of which some pair agrees within 5 basis points, all
/// plausible and with a middle date at most seven days before the query, the
/// aggregate is one of the three observations and its rate is the middle one.
pub proof fn lemma_three_sources_median(query: Date, a: (Date, u64), b: (Date, u64), c: (Date, u64))
    requires
        has_close_pair(seq![a, b, c]),
        a.1 <= MAX_RATE,
        b.1 <= MAX_RATE,
        c.1 <= MAX_RATE,
        days_behind(query, seq![a, b, c]) <= MAX_STALENESS_DAYS,
    ensures
        validated_median(query, seq![a, b, c]) matches Some(m) && (m == a || m == b || m == c)
            && m.1 == a.1 + b.1 + c.1 - min3(a.1, b.1, c.1) - max3(a.1, b.1, c.1),
{
    let s = seq![a, b, c];
    reveal_with_fuel(first_implausible, 4);
    assert(first_implausible(s, 0) == 3);
    lemma_sort3(a, b, c, rate_key());
    let r = sort_by(s, rate_key());
    assert(median_of(s) == r[1]);
}

} // verus!
