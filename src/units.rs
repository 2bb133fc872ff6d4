//! Typed physical quantities in fixed point, and the integer blend they share.
use vstd::prelude::*;

verus! {

/// Fixed-point units per SI unit.
pub const SCALE: i64 = 1_000_000;

/// Half a turn in microradians (pi rounded to six decimals).
pub const HALF_TURN: i64 = 3_141_593;

/// A length in micrometers.
#[derive(Clone, Copy, Debug, PartialEq, Eq, Structural)]
pub struct Length {
    pub micrometers: i64,
}

/// An angle in microradians.
#[derive(Clone, Copy, Debug, PartialEq, Eq, Structural)]
pub struct Angle {
    pub microradians: i64,
}

/// An angular velocity in microradians per second.
#[derive(Clone, Copy, Debug, PartialEq, Eq, Structural)]
pub struct AngularVelocity {
    pub microradians_per_second: i64,
}

/// A linear velocity in micrometers per second.
#[derive(Clone, Copy, Debug, PartialEq, Eq, Structural)]
pub struct Velocity {
    pub micrometers_per_second: i64,
}

/// A time in microseconds.
#[derive(Clone, Copy, Debug, PartialEq, Eq, Structural)]
pub struct Time {
    pub microseconds: i64,
}

/// The affine blend `a + (b - a) * num / den`, with the offset from `a`
/// rounded toward zero, so that the result never leaves the range between
/// `a` and `b`.
pub open spec fn blend(a: int, b: int, num: int, den: int) -> int {
    if a <= b {
        a + (b - a) * num / den
    } else {
        a - (a - b) * num / den
    }
}

proof fn lemma_scaled_le(d: nat, num: nat, den: nat)
    requires
        num <= den,
        den > 0,
    ensures
        d * num / den <= d,
        d * num / den >= 0,
{
    assert(d * num <= den * d) by (nonlinear_arith)
        requires num <= den;
    vstd::arithmetic::div_mod::lemma_div_is_ordered(d * num as int, den * d as int, den as int);
    vstd::arithmetic::div_mod::lemma_div_multiples_vanish(d as int, den as int);
    vstd::arithmetic::div_mod::lemma_div_pos_is_pos(d * num as int, den as int);
}

/// The blend at the start of the interval is the start value.
pub proof fn lemma_blend_at_start(a: int, b: int, den: int)
    requires
        den > 0,
    ensures
        blend(a, b, 0, den) == a,
{
}

/// The blend at the end of the interval is the end value.
pub proof fn lemma_blend_at_end(a: int, b: int, den: int)
    requires
        den > 0,
    ensures
        blend(a, b, den, den) == b,
{
    let d = if a <= b { b - a } else { a - b };
    vstd::arithmetic::div_mod::lemma_div_multiples_vanish(d, den);
    assert(d * den == den * d) by (nonlinear_arith);
}

/// The blend lies between its two end values.
pub proof fn lemma_blend_between(a: int, b: int, num: int, den: int)
    requires
        0 <= num <= den,
        den > 0,
    ensures
        a <= b ==> a <= blend(a, b, num, den) <= b,
        b < a ==> b <= blend(a, b, num, den) <= a,
{
    if a <= b {
        lemma_scaled_le((b - a) as nat, num as nat, den as nat);
    } else {
        lemma_scaled_le((a - b) as nat, num as nat, den as nat);
    }
}

/// Blends two fixed-point values over the fraction `num / den`.
pub fn blend_i64(a: i64, b: i64, num: u64, den: u64) -> (r: i64)
    requires
        num <= den,
        den > 0,
    ensures
        r == blend(a as int, b as int, num as int, den as int),
{
    proof {
        lemma_blend_between(a as int, b as int, num as int, den as int);
    }
    let diff: i128 = b as i128 - a as i128;
    if diff >= 0 {
        let d: u128 = diff as u128;
        assert(d * (num as u128) <= u128::MAX) by (nonlinear_arith)
            requires d <= u64::MAX, num <= u64::MAX;
        let q: u128 = d * (num as u128) / (den as u128);
        (a as i128 + q as i128) as i64
    } else {
        let d: u128 = (-diff) as u128;
        assert(d * (num as u128) <= u128::MAX) by (nonlinear_arith)
            requires d <= u64::MAX, num <= u64::MAX;
        let q: u128 = d * (num as u128) / (den as u128);
        (a as i128 - q as i128) as i64
    }
}

/// `v` is within one fixed-point unit of the exact affine blend
/// `a + (b - a) * num / den`, the comparison made after scaling by `den`.
pub open spec fn near_blend(v: int, a: int, b: int, num: int, den: int) -> bool {
    -den < v * den - (a * den + (b - a) * num) < den
}

/// The rounded blend is within one unit of the exact affine blend.
pub proof fn lemma_blend_close(a: int, b: int, num: int, den: int)
    requires
        0 <= num <= den,
        den > 0,
    ensures
        near_blend(blend(a, b, num, den), a, b, num, den),
{
    let d = if a <= b { b - a } else { a - b };
    assert(d * num >= 0) by (nonlinear_arith)
        requires d >= 0, num >= 0;
    let q = d * num / den;
    let rem = d * num % den;
    vstd::arithmetic::div_mod::lemma_fundamental_div_mod(d * num, den);
    vstd::arithmetic::div_mod::lemma_mod_bound(d * num, den);
    assert(d * num == den * q + rem);
    let v = blend(a, b, num, den);
    if a <= b {
        assert(v == a + q);
        assert(v * den - (a * den + (b - a) * num) == -rem) by (nonlinear_arith)
            requires v == a + q, d == b - a, d * num == den * q + rem;
    } else {
        assert(v == a - q);
        assert(v * den - (a * den + (b - a) * num) == rem) by (nonlinear_arith)
            requires v == a - q, d == a - b, d * num == den * q + rem;
    }
}

} // verus!
