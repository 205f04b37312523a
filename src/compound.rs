//! Independent 30-day compounded average (ACT/360) from overnight rates.

use vstd::prelude::*;
use crate::date::Date;
use crate::decimal::{
    Dec, dec_add, dec_div, dec_int, dec_mul, dec_sub, dec_to_u64, dec_trunc_u64, decimal_add,
    decimal_div, decimal_mul, decimal_sub,
};
use crate::error::SofrError;

verus! {

/// Calendar days in the averaging period.
pub const PERIOD_DAYS: u64 = 30;

/// The rate an overnight series holds for `day` (a later entry for the same day wins).
pub open spec fn series_lookup(s: Seq<(Date, u64)>, day: int) -> Option<u64>
    decreases s.len(),
{
    if s.len() == 0 {
        None
    } else if s.last().0.day_number == day {
        Some(s.last().1)
    } else {
        series_lookup(s.drop_last(), day)
    }
}

/// The entry with the latest date at or before `day` (a later entry wins a tie).
pub open spec fn latest_at_or_before(s: Seq<(Date, u64)>, day: int) -> Option<(Date, u64)>
    decreases s.len(),
{
    if s.len() == 0 {
        None
    } else {
        let prev = latest_at_or_before(s.drop_last(), day);
        let x = s.last();
        if x.0.day_number <= day && (prev is None || prev->Some_0.0.day_number <= x.0.day_number) {
            Some(x)
        } else {
            prev
        }
    }
}

/// Segments `(rate, n)` from `day` on: the current segment began at `seg_start` at
/// `rate`; each later day in the series through `end` begins a new one.
pub open spec fn segments_from(s: Seq<(Date, u64)>, seg_start: int, rate: u64, day: int, end: int) -> Seq<
    (u64, u64),
>
    decreases end + 1 - day,
{
    if day > end {
        seq![(rate, (end + 1 - seg_start) as u64)]
    } else {
        match series_lookup(s, day) {
            Some(r) => seq![(rate, (day - seg_start) as u64)] + segments_from(s, day, r, day + 1, end),
            None => segments_from(s, seg_start, rate, day + 1, end),
        }
    }
}

/// The period of the average published on `effective`: `[effective - 30, effective - 1]`,
/// starting at the rate in force on its first day.
pub open spec fn period_segments(effective: Date, s: Seq<(Date, u64)>) -> Seq<(u64, u64)> {
    let start = effective.day_number - 30;
    segments_from(s, start, latest_at_or_before(s, start)->Some_0.1, start + 1, effective.day_number - 1)
}

/// Sum of the day counts of a segment list.
pub open spec fn total_days(segs: Seq<(u64, u64)>) -> int
    decreases segs.len(),
{
    if segs.len() == 0 {
        0
    } else {
        segs[0].1 + total_days(segs.drop_first())
    }
}

/// `factor * (1 + (rate / 1_000_000 / 100) * n / 360)`, in rust_decimal's arithmetic.
pub open spec fn compound_step(factor: Dec, seg: (u64, u64)) -> Option<Dec> {
    match decimal_div(dec_int(seg.0 as int), dec_int(1_000_000)) {
        None => None,
        Some(pct) => match decimal_div(pct, dec_int(100)) {
            None => None,
            Some(frac) => match decimal_mul(frac, dec_int(seg.1 as int)) {
                None => None,
                Some(p) => match decimal_div(p, dec_int(360)) {
                    None => None,
                    Some(t) => match decimal_add(dec_int(1), t) {
                        None => None,
                        Some(g) => decimal_mul(factor, g),
                    },
                },
            },
        },
    }
}

/// Product of the growth factors of all segments.
pub open spec fn compound_factor(segs: Seq<(u64, u64)>) -> Option<Dec>
    decreases segs.len(),
{
    if segs.len() == 0 {
        Some(dec_int(1))
    } else {
        match compound_factor(segs.drop_last()) {
            None => None,
            Some(f) => compound_step(f, segs.last()),
        }
    }
}

/// `floor((factor - 1) * (360 / 30) * 100 * 1_000_000)`: the annualized average, scaled.
pub open spec fn compounded_scaled(segs: Seq<(u64, u64)>) -> Option<u64> {
    match compound_factor(segs) {
        None => None,
        Some(f) => match decimal_sub(f, dec_int(1)) {
            None => None,
            Some(g) => match decimal_div(dec_int(360), dec_int(30)) {
                None => None,
                Some(k) => match decimal_mul(g, k) {
                    None => None,
                    Some(avg) => match decimal_mul(avg, dec_int(100)) {
                        None => None,
                        Some(x) => match decimal_mul(x, dec_int(1_000_000)) {
                            None => None,
                            Some(y) => dec_to_u64(y),
                        },
                    },
                },
            },
        },
    }
}

proof fn lemma_segments_total(s: Seq<(Date, u64)>, seg_start: int, rate: u64, day: int, end: int)
    requires
        seg_start < day <= end + 1,
        end + 1 - seg_start <= u64::MAX,
    ensures
        total_days(segments_from(s, seg_start, rate, day, end)) == end + 1 - seg_start,
        forall|i: int| 0 <= i < segments_from(s, seg_start, rate, day, end).len()
            ==> #[trigger] segments_from(s, seg_start, rate, day, end)[i].1 >= 1,
    decreases end + 1 - day,
{
    let segs = segments_from(s, seg_start, rate, day, end);
    if day > end {
        assert(segs.drop_first() =~= Seq::<(u64, u64)>::empty());
        assert(total_days(segs.drop_first()) == 0);
        assert(segs[0].1 == end + 1 - seg_start);
    } else {
        match series_lookup(s, day) {
            Some(r) => {
                lemma_segments_total(s, day, r, day + 1, end);
                let rest = segments_from(s, day, r, day + 1, end);
                assert(segs.drop_first() =~= rest);
                assert(segs[0].1 == day - seg_start);
                assert forall|i: int| 0 <= i < segs.len() implies #[trigger] segs[i].1 >= 1 by {
                    if i > 0 {
                        assert(segs[i] == rest[i - 1]);
                    }
                }
            },
            None => {
                lemma_segments_total(s, seg_start, rate, day + 1, end);
            },
        }
    }
}

fn series_lookup_exec(v: &Vec<(Date, u64)>, day: i32) -> (r: Option<u64>)
    ensures
        r == series_lookup(v@, day as int),
{
    let mut i: usize = v.len();
    assert(v@.subrange(0, v@.len() as int) =~= v@);
    while i > 0
        invariant
            i <= v@.len(),
            series_lookup(v@, day as int) == series_lookup(v@.subrange(0, i as int), day as int),
        decreases i,
    {
        let ghost p = v@.subrange(0, i as int);
        assert(p.drop_last() =~= v@.subrange(0, i - 1));
        if v[i - 1].0.day_number == day {
            return Some(v[i - 1].1);
        }
        i = i - 1;
    }
    assert(v@.subrange(0, 0) =~= Seq::<(Date, u64)>::empty());
    None
}

pub(crate) fn latest_at_or_before_exec(v: &Vec<(Date, u64)>, day: i32) -> (r: Option<(Date, u64)>)
    ensures
        r == latest_at_or_before(v@, day as int),
{
    let mut best: Option<(Date, u64)> = None;
    let mut i: usize = 0;
    assert(v@.subrange(0, 0) =~= Seq::<(Date, u64)>::empty());
    while i < v.len()
        invariant
            i <= v@.len(),
            best == latest_at_or_before(v@.subrange(0, i as int), day as int),
        decreases v.len() - i,
    {
        let x = v[i];
        assert(v@.subrange(0, i + 1).drop_last() =~= v@.subrange(0, i as int));
        if x.0.day_number <= day {
            match best {
                None => {
                    best = Some(x);
                },
                Some(b) => {
                    if b.0.day_number <= x.0.day_number {
                        best = Some(x);
                    }
                },
            }
        }
        i = i + 1;
    }
    assert(v@.subrange(0, v@.len() as int) =~= v@);
    best
}

/// Splits the 30-day period before `effective_date` into segments `(rate, n)`: the
/// period starts at the rate of the latest entry at or before its first day, and
/// each later day that has an entry begins a new segment. The day counts sum to 30.
pub fn compounding_segments(effective_date: Date, overnight_rates: &Vec<(Date, u64)>) -> (r: Result<
    Vec<(u64, u64)>,
    SofrError,
>)
    requires
        effective_date.day_number - 30 >= i32::MIN,
    ensures
        latest_at_or_before(overnight_rates@, effective_date.day_number - 30) is None ==> r
            == Err::<Vec<(u64, u64)>, SofrError>(SofrError::InsufficientHistory),
        latest_at_or_before(overnight_rates@, effective_date.day_number - 30) is Some ==> (r matches Ok(
            segs,
        ) && segs@ == period_segments(effective_date, overnight_rates@) && total_days(segs@)
            == PERIOD_DAYS),
{
    let start = effective_date.day_number as i64 - 30;
    let end = effective_date.day_number as i64 - 1;
    let initial = match latest_at_or_before_exec(overnight_rates, start as i32) {
        Some(x) => x,
        None => {
            return Err(SofrError::InsufficientHistory);
        },
    };
    let ghost s = overnight_rates@;
    let mut segs: Vec<(u64, u64)> = Vec::new();
    let mut rate = initial.1;
    let mut seg_start = start;
    let mut day = start + 1;
    while day <= end
        invariant
            s == overnight_rates@,
            start == effective_date.day_number - 30,
            end == effective_date.day_number - 1,
            start <= seg_start < day <= end + 1,
            start >= i32::MIN,
            end <= i32::MAX,
            segments_from(s, start as int, initial.1, start + 1, end as int) == segs@ + segments_from(
                s,
                seg_start as int,
                rate,
                day as int,
                end as int,
            ),
        decreases end + 1 - day,
    {
        let ghost rest = segments_from(s, seg_start as int, rate, day as int, end as int);
        match series_lookup_exec(overnight_rates, day as i32) {
            Some(r) => {
                let ghost tail = segments_from(s, day as int, r, day + 1, end as int);
                assert(rest == seq![(rate, (day - seg_start) as u64)] + tail);
                let ghost before = segs@;
                segs.push((rate, (day - seg_start) as u64));
                assert(segs@ + tail =~= before + rest);
                seg_start = day;
                rate = r;
            },
            None => {},
        }
        day = day + 1;
    }
    let ghost last = seq![(rate, (end + 1 - seg_start) as u64)];
    assert(segments_from(s, seg_start as int, rate, day as int, end as int) == last);
    let ghost before = segs@;
    segs.push((rate, (end + 1 - seg_start) as u64));
    proof {
        assert(segs@ =~= before + last);
        lemma_segments_total(s, start as int, initial.1, start + 1, end as int);
    }
    Ok(segs)
}

} // verus!

verus! {

fn compound_step_exec(factor: Dec, seg: (u64, u64)) -> (r: Option<Dec>)
    ensures
        r == compound_step(factor, seg),
{
    let pct = dec_div(Dec { mantissa: seg.0 as i128, scale: 0 }, Dec { mantissa: 1_000_000, scale: 0 })?;
    let frac = dec_div(pct, Dec { mantissa: 100, scale: 0 })?;
    let p = dec_mul(frac, Dec { mantissa: seg.1 as i128, scale: 0 })?;
    let t = dec_div(p, Dec { mantissa: 360, scale: 0 })?;
    let g = dec_add(Dec { mantissa: 1, scale: 0 }, t)?;
    dec_mul(factor, g)
}

/// Compounds the segments and annualizes over 30 days: the scaled average
/// `floor(((prod (1 + r_k / 100 * n_k / 360)) - 1) * 360 / 30 * 100 * 1_000_000)`,
/// with rates given scaled and the arithmetic done by rust_decimal.
pub fn compound_segments(segs: &Vec<(u64, u64)>) -> (r: Result<u64, SofrError>)
    ensures
        r == (match compounded_scaled(segs@) {
            Some(v) => Ok::<u64, SofrError>(v),
            None => Err::<u64, SofrError>(SofrError::NumericOverflow),
        }),
{
    let mut factor = Dec { mantissa: 1, scale: 0 };
    let mut i: usize = 0;
    assert(segs@.subrange(0, 0) =~= Seq::<(u64, u64)>::empty());
    while i < segs.len()
        invariant
            i <= segs@.len(),
            compound_factor(segs@.subrange(0, i as int)) == Some(factor),
        decreases segs.len() - i,
    {
        assert(segs@.subrange(0, i + 1).drop_last() =~= segs@.subrange(0, i as int));
        match compound_step_exec(factor, segs[i]) {
            Some(f) => {
                factor = f;
            },
            None => {
                proof {
                    lemma_compound_factor_none(segs@, i + 1);
                }
                return Err(SofrError::NumericOverflow);
            },
        }
        i = i + 1;
    }
    assert(segs@.subrange(0, segs@.len() as int) =~= segs@);
    let res = (|| -> (o: Option<u64>)
        ensures
            o == compounded_scaled(segs@),
        {
            let g = dec_sub(factor, Dec { mantissa: 1, scale: 0 })?;
            let k = dec_div(Dec { mantissa: 360, scale: 0 }, Dec { mantissa: 30, scale: 0 })?;
            let avg = dec_mul(g, k)?;
            let x = dec_mul(avg, Dec { mantissa: 100, scale: 0 })?;
            let y = dec_mul(x, Dec { mantissa: 1_000_000, scale: 0 })?;
            dec_trunc_u64(y)
        })();
    match res {
        Some(v) => Ok(v),
        None => Err(SofrError::NumericOverflow),
    }
}

pub(crate) proof fn lemma_latest_mono(s: Seq<(Date, u64)>, d1: int, d2: int)
    requires
        d1 <= d2,
    ensures
        latest_at_or_before(s, d1) is Some ==> latest_at_or_before(s, d2) is Some,
    decreases s.len(),
{
    if s.len() > 0 {
        lemma_latest_mono(s.drop_last(), d1, d2);
    }
}

proof fn lemma_compound_factor_none(segs: Seq<(u64, u64)>, i: int)
    requires
        0 <= i <= segs.len(),
        compound_factor(segs.subrange(0, i)) is None,
    ensures
        compound_factor(segs) is None,
    decreases segs.len() - i,
{
    if i < segs.len() {
        assert(segs.subrange(0, i + 1).drop_last() =~= segs.subrange(0, i));
        lemma_compound_factor_none(segs, i + 1);
    } else {
        assert(segs.subrange(0, i) =~= segs);
    }
}

/// The 30-day compounded average that would be published on `effective_date`,
/// computed from an overnight series (entries after `effective_date` play no part).
pub fn compute_compounded_average(effective_date: Date, overnight_rates: &Vec<(Date, u64)>) -> (r:
    Result<u64, SofrError>)
    requires
        effective_date.day_number - 30 >= i32::MIN,
    ensures
        latest_at_or_before(overnight_rates@, effective_date.day_number as int) is None ==> r
            == Err::<u64, SofrError>(SofrError::NoData),
        latest_at_or_before(overnight_rates@, effective_date.day_number as int) is Some
            && latest_at_or_before(overnight_rates@, effective_date.day_number - 30) is None ==> r
            == Err::<u64, SofrError>(SofrError::InsufficientHistory),
        latest_at_or_before(overnight_rates@, effective_date.day_number - 30) is Some ==> r == (
        match compounded_scaled(period_segments(effective_date, overnight_rates@)) {
            Some(v) => Ok::<u64, SofrError>(v),
            None => Err::<u64, SofrError>(SofrError::NumericOverflow),
        }),
{
    if overnight_rates.len() == 0 {
        return Err(SofrError::NoData);
    }
    if latest_at_or_before_exec(overnight_rates, effective_date.day_number).is_none() {
        proof {
            lemma_latest_mono(overnight_rates@, effective_date.day_number - 30, effective_date.day_number as int);
        }
        return Err(SofrError::NoData);
    }
    let segs = compounding_segments(effective_date, overnight_rates)?;
    compound_segments(&segs)
}

} // verus!
