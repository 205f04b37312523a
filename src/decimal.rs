//! Decimal arithmetic through rust_decimal, on values held as mantissa and scale.

use vstd::prelude::*;
use rust_decimal::Decimal;

verus! {

/// A decimal number `mantissa / 10^scale`, as rust_decimal represents it.
#[derive(Clone, Copy, Debug, PartialEq, Eq, Structural)]
pub struct Dec {
    pub mantissa: i128,
    pub scale: u32,
}

/// What rust_decimal's `Decimal::checked_mul` gives.
pub uninterp spec fn decimal_mul(a: Dec, b: Dec) -> Option<Dec>;

/// What rust_decimal's `Decimal::checked_div` gives.
pub uninterp spec fn decimal_div(a: Dec, b: Dec) -> Option<Dec>;

/// What rust_decimal's `Decimal::checked_add` gives.
pub uninterp spec fn decimal_add(a: Dec, b: Dec) -> Option<Dec>;

/// What rust_decimal's `Decimal::checked_sub` gives.
pub uninterp spec fn decimal_sub(a: Dec, b: Dec) -> Option<Dec>;

/// The integer `n` as a decimal of scale 0.
pub open spec fn dec_int(n: int) -> Dec {
    Dec { mantissa: n as i128, scale: 0 }
}

pub open spec fn pow10_int(n: nat) -> int
    decreases n,
{
    if n == 0 { 1 } else { 10 * pow10_int((n - 1) as nat) }
}

/// The integer part of a decimal as a `u64`, as `trunc` then `to_u64` give it.
pub open spec fn dec_to_u64(d: Dec) -> Option<u64> {
    if d.scale > 28 {
        None
    } else if d.mantissa >= 0 {
        if d.mantissa as int / pow10_int(d.scale as nat) <= u64::MAX {
            Some((d.mantissa as int / pow10_int(d.scale as nat)) as u64)
        } else {
            None
        }
    } else if -(d.mantissa as int) < pow10_int(d.scale as nat) {
        Some(0)
    } else {
        None
    }
}

/// Relies on rust_decimal's `Decimal::checked_mul`; operands that rust_decimal
/// cannot represent give `None`.
#[verifier::external_body]
pub(crate) fn dec_mul(a: Dec, b: Dec) -> (r: Option<Dec>)
    ensures
        r == decimal_mul(a, b),
{
    let x = Decimal::try_from_i128_with_scale(a.mantissa, a.scale).ok()?;
    let y = Decimal::try_from_i128_with_scale(b.mantissa, b.scale).ok()?;
    x.checked_mul(y).map(|v| Dec { mantissa: v.mantissa(), scale: v.scale() })
}

/// Relies on rust_decimal's `Decimal::checked_div`; operands that rust_decimal
/// cannot represent give `None`.
#[verifier::external_body]
pub(crate) fn dec_div(a: Dec, b: Dec) -> (r: Option<Dec>)
    ensures
        r == decimal_div(a, b),
{
    let x = Decimal::try_from_i128_with_scale(a.mantissa, a.scale).ok()?;
    let y = Decimal::try_from_i128_with_scale(b.mantissa, b.scale).ok()?;
    x.checked_div(y).map(|v| Dec { mantissa: v.mantissa(), scale: v.scale() })
}

/// Relies on rust_decimal's `Decimal::checked_add`; operands that rust_decimal
/// cannot represent give `None`.
#[verifier::external_body]
pub(crate) fn dec_add(a: Dec, b: Dec) -> (r: Option<Dec>)
    ensures
        r == decimal_add(a, b),
{
    let x = Decimal::try_from_i128_with_scale(a.mantissa, a.scale).ok()?;
    let y = Decimal::try_from_i128_with_scale(b.mantissa, b.scale).ok()?;
    x.checked_add(y).map(|v| Dec { mantissa: v.mantissa(), scale: v.scale() })
}

/// Relies on rust_decimal's `Decimal::checked_sub`; operands that rust_decimal
/// cannot represent give `None`.
#[verifier::external_body]
pub(crate) fn dec_sub(a: Dec, b: Dec) -> (r: Option<Dec>)
    ensures
        r == decimal_sub(a, b),
{
    let x = Decimal::try_from_i128_with_scale(a.mantissa, a.scale).ok()?;
    let y = Decimal::try_from_i128_with_scale(b.mantissa, b.scale).ok()?;
    x.checked_sub(y).map(|v| Dec { mantissa: v.mantissa(), scale: v.scale() })
}

/// The integer part of a decimal as a `u64`, if it fits (truncation toward zero).
pub fn dec_trunc_u64(d: Dec) -> (r: Option<u64>)
    ensures
        r == dec_to_u64(d),
{
    if d.scale > 28 {
        return None;
    }
    let mut p: i128 = 1;
    let mut i: u32 = 0;
    while i < d.scale
        invariant
            i <= d.scale <= 28,
            p == pow10_int(i as nat),
            1 <= p,
        decreases d.scale - i,
    {
        proof {
            lemma_pow10_int_bound(i as nat);
        }
        p = p * 10;
        i = i + 1;
    }
    if d.mantissa >= 0 {
        let q = d.mantissa / p;
        if q <= u64::MAX as i128 {
            Some(q as u64)
        } else {
            None
        }
    } else if d.mantissa > -p {
        Some(0)
    } else {
        None
    }
}

proof fn lemma_pow10_int_bound(n: nat)
    requires
        n < 28,
    ensures
        1 <= pow10_int(n) <= 1_000_000_000_000_000_000_000_000_000int,
{
    lemma_pow10_int_mono(n, 27);
    reveal_with_fuel(pow10_int, 28);
}

proof fn lemma_pow10_int_mono(a: nat, b: nat)
    requires
        a <= b,
    ensures
        1 <= pow10_int(a) <= pow10_int(b),
    decreases b,
{
    if a < b {
        lemma_pow10_int_mono(a, (b - 1) as nat);
    } else if a > 0 {
        lemma_pow10_int_mono((a - 1) as nat, (a - 1) as nat);
    }
}

} // verus!
