//! Fixed-point helpers shared by the signal path: clamping and the truncated
//! (round-toward-zero) division that every `UNIT`-scaled multiply uses.

use vstd::prelude::*;

verus! {

/// `v` limited to the closed interval `[lo, hi]`.
pub open spec fn spec_clamp(v: int, lo: int, hi: int) -> int {
    if v < lo {
        lo
    } else if v > hi {
        hi
    } else {
        v
    }
}

/// Division rounded toward zero (the machine division of signed integers),
/// defined for positive divisors.
pub open spec fn spec_tdiv(a: int, b: int) -> int
    recommends
        b > 0,
{
    if a >= 0 {
        a / b
    } else {
        -((-a) / b)
    }
}

/// Truncated division never leaves `[-m, m]` when the dividend is within
/// `[-m * b, m * b]`.
pub proof fn lemma_tdiv_abs_le(a: int, b: int, m: int)
    requires
        b > 0,
        0 <= m,
        -(m * b) <= a <= m * b,
    ensures
        -m <= spec_tdiv(a, b) <= m,
{
    assert(m * b == b * m) by (nonlinear_arith);
    if a >= 0 {
        vstd::arithmetic::div_mod::lemma_div_pos_is_pos(a, b);
        vstd::arithmetic::div_mod::lemma_div_is_ordered(a, m * b, b);
        vstd::arithmetic::div_mod::lemma_div_multiples_vanish(m, b);
    } else {
        vstd::arithmetic::div_mod::lemma_div_pos_is_pos(-a, b);
        vstd::arithmetic::div_mod::lemma_div_is_ordered(-a, m * b, b);
        vstd::arithmetic::div_mod::lemma_div_multiples_vanish(m, b);
    }
}

/// Floor division is monotone in the dividend (re-export shape used all over
/// the signal path: `a <= c` gives `a / b <= c / b`).
pub proof fn lemma_div_le(a: int, c: int, b: int)
    requires
        a <= c,
        0 <= a,
        b > 0,
    ensures
        a / b <= c / b,
        0 <= a / b,
{
    vstd::arithmetic::div_mod::lemma_div_is_ordered(a, c, b);
    vstd::arithmetic::div_mod::lemma_div_pos_is_pos(a, b);
}

/// Scaling a value by a fraction of at most one (`y <= d`) cannot grow it:
/// `0 <= (x * y) / d <= x`.
pub proof fn lemma_mul_div_le(x: int, y: int, d: int)
    requires
        0 <= x,
        0 <= y <= d,
        0 < d,
    ensures
        0 <= (x * y) / d <= x,
{
    assert(x * y <= x * d && 0 <= x * y) by (nonlinear_arith)
        requires
            0 <= x,
            0 <= y <= d;
    vstd::arithmetic::div_mod::lemma_div_pos_is_pos(x * y, d);
    vstd::arithmetic::div_mod::lemma_div_is_ordered(x * y, x * d, d);
    assert(x * d == d * x) by (nonlinear_arith);
    vstd::arithmetic::div_mod::lemma_div_multiples_vanish(x, d);
}

/// Bounds of a product of two bounded nonnegative factors.
pub proof fn lemma_mul_bounds(a: int, b: int, am: int, bm: int)
    requires
        0 <= a <= am,
        0 <= b <= bm,
    ensures
        0 <= a * b <= am * bm,
{
    assert(0 <= a * b && a * b <= am * bm) by (nonlinear_arith)
        requires
            0 <= a <= am,
            0 <= b <= bm;
}

/// Clamp a 64-bit value into `[lo, hi]`.
pub fn clamp64(v: i64, lo: i64, hi: i64) -> (r: i64)
    requires
        lo <= hi,
    ensures
        r as int == spec_clamp(v as int, lo as int, hi as int),
        lo <= r <= hi,
{
    if v < lo {
        lo
    } else if v > hi {
        hi
    } else {
        v
    }
}

/// Machine (truncated) division of a 64-bit value by a positive divisor.
pub fn tdiv64(a: i64, b: i64) -> (r: i64)
    requires
        b > 0,
        a > i64::MIN,
    ensures
        r as int == spec_tdiv(a as int, b as int),
{
    if a >= 0 {
        a / b
    } else {
        -((-a) / b)
    }
}

} // verus!
