//! Stateless per-sample waveshaping transforms, applied in declared order.
//!
//! Every transform is total on the engine's sample range and its result is
//! kept inside the mixing headroom, so chains of any length stay bounded.

use vstd::prelude::*;

use crate::fixed::{lemma_mul_bounds, lemma_tdiv_abs_le, spec_clamp, spec_tdiv, tdiv64};
use crate::{HEADROOM, UNIT};

verus! {

/// A stateless per-sample transform. Parameters are fixed-point fractions of
/// a full-scale unit unless noted.
#[derive(Clone, Copy, Debug)]
pub enum Effect {
    /// Scalar multiply by a gain in `[0, HEADROOM]` (up to 64x).
    Gain(i32),
    /// Symmetric clamp to the threshold.
    HardClip(i32),
    /// Cubic waveshaper `x - a * x^3 / 3`.
    SoftCubic(i32),
    /// Asymmetric exponential saturation toward the threshold.
    SoftExponential(i32),
    /// Sign-only square to the amplitude.
    InfiniteClip(i32),
    /// Quantize to `2^(bits - 1)` levels.
    BitCrusher(u32),
    /// Piecewise-linear soft clip past the threshold.
    Fangs(i32),
}

/// `2^n`.
pub open spec fn spec_pow2(n: nat) -> int
    decreases n,
{
    if n == 0 {
        1
    } else {
        2 * spec_pow2((n - 1) as nat)
    }
}

proof fn lemma_pow2_pos(n: nat)
    ensures
        spec_pow2(n) >= 1,
    decreases n,
{
    if n > 0 {
        lemma_pow2_pos((n - 1) as nat);
    }
}

proof fn lemma_pow2_mono(a: nat, b: nat)
    requires
        a <= b,
    ensures
        spec_pow2(a) <= spec_pow2(b),
    decreases b,
{
    if a < b {
        lemma_pow2_mono(a, (b - 1) as nat);
        lemma_pow2_pos((b - 1) as nat);
    }
}

pub proof fn lemma_pow2_bound(n: nat)
    requires
        n <= 14,
    ensures
        1 <= spec_pow2(n) <= 16384,
{
    lemma_pow2_pos(n);
    lemma_pow2_mono(n, 14);
    reveal_with_fuel(spec_pow2, 16);
    assert(spec_pow2(14) == 16384);
}

fn pow2(n: u32) -> (r: i64)
    requires
        n <= 14,
    ensures
        r == spec_pow2(n as nat),
        1 <= r <= 16384,
{
    proof {
        lemma_pow2_bound(n as nat);
    }
    let mut acc: i64 = 1;
    let mut i: u32 = 0;
    while i < n
        invariant
            0 <= i <= n <= 14,
            acc == spec_pow2(i as nat),
            1 <= acc <= 16384,
        decreases n - i,
    {
        proof {
            lemma_pow2_bound((i + 1) as nat);
        }
        acc = acc * 2;
        i = i + 1;
    }
    acc
}

/// Division rounded half away from zero, for a positive divisor.
pub open spec fn spec_rdiv(a: int, b: int) -> int
    recommends
        b > 0,
{
    if a >= 0 {
        (a + b / 2) / b
    } else {
        -((-a + b / 2) / b)
    }
}

/// Fixed-point `exp(-x / UNIT) * UNIT` for `x >= 0`: the reciprocal of the
/// cubic Taylor prefix of `exp`.
pub open spec fn spec_exp_neg(x: int) -> int {
    let u = UNIT as int;
    let den = u + x + (x * x) / (2 * u) + (((x * x) / u) * x) / (6 * u);
    (u * u) / den
}

pub proof fn lemma_exp_neg_bounds(x: int)
    requires
        0 <= x <= HEADROOM,
    ensures
        0 <= spec_exp_neg(x) <= UNIT,
{
    let u = UNIT as int;
    lemma_mul_bounds(x, x, HEADROOM as int, HEADROOM as int);
    vstd::arithmetic::div_mod::lemma_div_pos_is_pos(x * x, 2 * u);
    vstd::arithmetic::div_mod::lemma_div_pos_is_pos(x * x, u);
    lemma_mul_bounds((x * x) / u, x, 0x10000000000000, HEADROOM as int);
    vstd::arithmetic::div_mod::lemma_div_pos_is_pos(((x * x) / u) * x, 6 * u);
    let den = u + x + (x * x) / (2 * u) + (((x * x) / u) * x) / (6 * u);
    vstd::arithmetic::div_mod::lemma_div_pos_is_pos(u * u, den);
    vstd::arithmetic::div_mod::lemma_div_is_ordered_by_denominator(u * u, u, den);
    assert(u * u / u == u) by (nonlinear_arith)
        requires
            u == 32768;
}

/// Fixed-point `exp(-x / UNIT)` for a nonnegative sample-range argument.
fn exp_neg(x: i64) -> (r: i64)
    requires
        0 <= x <= HEADROOM,
    ensures
        r == spec_exp_neg(x as int),
        0 <= r <= UNIT,
{
    proof {
        lemma_exp_neg_bounds(x as int);
        lemma_mul_bounds(x as int, x as int, HEADROOM as int, HEADROOM as int);
        vstd::arithmetic::div_mod::lemma_div_pos_is_pos(x as int * x as int, 2 * UNIT as int);
        vstd::arithmetic::div_mod::lemma_div_pos_is_pos(x as int * x as int, UNIT as int);
        vstd::arithmetic::div_mod::lemma_div_is_ordered(
            (x as int) * (x as int),
            0x40000000000,
            UNIT as int,
        );
        lemma_mul_bounds(
            ((x as int) * (x as int)) / (UNIT as int),
            x as int,
            0x8000000,
            HEADROOM as int,
        );
        vstd::arithmetic::div_mod::lemma_div_pos_is_pos(
            (((x as int) * (x as int)) / (UNIT as int)) * (x as int),
            6 * UNIT as int,
        );
        vstd::arithmetic::div_mod::lemma_div_is_ordered(
            (((x as int) * (x as int)) / (UNIT as int)) * (x as int),
            0x8000000 as int * 0x200000,
            6 * UNIT as int,
        );
    }
    let u: i64 = UNIT as i64;
    let sq: i64 = (x * x) / (2 * u);
    let cu: i64 = (((x * x) / u) * x) / (6 * u);
    let den: i64 = u + x + sq + cu;
    (u * u) / den
}

impl Effect {
    /// Parameter ranges under which the transform is total and bounded.
    pub open spec fn wf(self) -> bool {
        match self {
            Effect::Gain(g) => 0 <= g <= HEADROOM,
            Effect::HardClip(t) => 0 <= t <= UNIT,
            Effect::SoftCubic(a) => 0 <= a <= UNIT,
            Effect::SoftExponential(t) => 0 <= t <= UNIT,
            Effect::InfiniteClip(a) => 0 <= a <= UNIT,
            Effect::BitCrusher(bits) => 1 <= bits <= 15,
            Effect::Fangs(t) => 1 <= t <= UNIT,
        }
    }

    /// The transform as a mathematical function of the incoming sample.
    pub open spec fn spec_apply(self, s: int) -> int {
        let u = UNIT as int;
        let h = HEADROOM as int;
        match self {
            Effect::Gain(g) => spec_clamp(spec_tdiv(g * s, u), -h, h),
            Effect::HardClip(t) => spec_clamp(s, -(t as int), t as int),
            Effect::SoftCubic(a) => {
                let s3 = spec_tdiv(spec_tdiv(s * s, u) * s, u);
                spec_clamp(s - spec_tdiv(a * s3, 3 * u), -h, h)
            },
            Effect::SoftExponential(t) => if s > 0 {
                t - spec_exp_neg(s)
            } else {
                -t + spec_exp_neg(-s)
            },
            Effect::InfiniteClip(a) => if s >= 0 {
                a as int
            } else {
                -(a as int)
            },
            Effect::BitCrusher(bits) => {
                let levels = spec_pow2((bits - 1) as nat);
                spec_clamp(spec_rdiv(s * levels, u) * (u / levels), -h, h)
            },
            Effect::Fangs(t) => {
                let sa = if s >= 0 {
                    s
                } else {
                    -s
                };
                if sa < t {
                    s
                } else {
                    let folded = spec_tdiv(t * (3 * u - spec_tdiv(2 * sa * u, t as int)), 3 * u);
                    if s >= 0 {
                        spec_clamp(folded, -h, h)
                    } else {
                        spec_clamp(-folded, -h, h)
                    }
                }
            },
        }
    }

    /// Apply the transform to one sample.
    pub fn apply(self, sample: i32) -> (r: i32)
        requires
            self.wf(),
            -HEADROOM <= sample <= HEADROOM,
        ensures
            r as int == self.spec_apply(sample as int),
            -HEADROOM <= r <= HEADROOM,
    {
        let h: i64 = HEADROOM as i64;
        let u: i64 = UNIT as i64;
        let s: i64 = sample as i64;
        match self {
            Effect::Gain(g) => {
                proof {
                    lemma_mul_bounds(
                        g as int,
                        if s >= 0 { s as int } else { -(s as int) },
                        HEADROOM as int,
                        HEADROOM as int,
                    );
                    assert(g as int * s as int == -(g as int * -(s as int))) by (nonlinear_arith);
                    lemma_tdiv_abs_le(g as int * s as int, UNIT as int, 0x2000000000);
                }
                let scaled: i64 = tdiv64(g as i64 * s, u);
                crate::fixed::clamp64(scaled, -h, h) as i32
            },
            Effect::HardClip(t) => {
                if sample > t {
                    t
                } else if sample < -t {
                    -t
                } else {
                    sample
                }
            },
            Effect::SoftCubic(a) => {
                proof {
                    lemma_mul_bounds(
                        if s >= 0 { s as int } else { -(s as int) },
                        if s >= 0 { s as int } else { -(s as int) },
                        HEADROOM as int,
                        HEADROOM as int,
                    );
                    assert(s as int * s as int == (if s >= 0 { s as int } else { -(s as int) }) * (
                    if s >= 0 { s as int } else { -(s as int) })) by (nonlinear_arith);
                    vstd::arithmetic::div_mod::lemma_div_pos_is_pos(
                        s as int * s as int,
                        UNIT as int,
                    );
                    lemma_tdiv_abs_le(s as int * s as int, UNIT as int, 0x8000000);
                }
                let s2: i64 = tdiv64(s * s, u);
                proof {
                    let s2i = spec_tdiv(s as int * s as int, UNIT as int);
                    lemma_mul_bounds(
                        s2i,
                        if s >= 0 { s as int } else { -(s as int) },
                        0x8000000,
                        HEADROOM as int,
                    );
                    assert(s2i * (s as int) == -(s2i * -(s as int))) by (nonlinear_arith);
                    lemma_tdiv_abs_le(s2i * s as int, UNIT as int, 0x200000000);
                }
                let s3: i64 = tdiv64(s2 * s, u);
                proof {
                    let s3i = spec_tdiv(
                        spec_tdiv(s as int * s as int, UNIT as int) * s as int,
                        UNIT as int,
                    );
                    lemma_mul_bounds(
                        a as int,
                        if s3i >= 0 { s3i } else { -s3i },
                        UNIT as int,
                        0x200000000,
                    );
                    assert(a as int * s3i == -(a as int * -s3i)) by (nonlinear_arith);
                    lemma_tdiv_abs_le(a as int * s3i, 3 * UNIT as int, 0x40000000000);
                }
                let shaped: i64 = s - tdiv64(a as i64 * s3, 3 * u);
                crate::fixed::clamp64(shaped, -h, h) as i32
            },
            Effect::SoftExponential(t) => {
                if sample > 0 {
                    let e: i64 = exp_neg(s);
                    (t as i64 - e) as i32
                } else {
                    let e: i64 = exp_neg(-s);
                    (-(t as i64) + e) as i32
                }
            },
            Effect::InfiniteClip(a) => {
                if sample >= 0 {
                    a
                } else {
                    -a
                }
            },
            Effect::BitCrusher(bits) => {
                let levels: i64 = pow2(bits - 1);
                proof {
                    lemma_mul_bounds(
                        if s >= 0 { s as int } else { -(s as int) },
                        levels as int,
                        HEADROOM as int,
                        16384,
                    );
                    assert(s as int * levels as int == -((-(s as int)) * levels as int)) by (nonlinear_arith);
                    if s >= 0 {
                        vstd::arithmetic::div_mod::lemma_div_pos_is_pos(
                            s as int * levels as int + UNIT as int / 2,
                            UNIT as int,
                        );
                        vstd::arithmetic::div_mod::lemma_div_is_ordered(
                            s as int * levels as int + UNIT as int / 2,
                            0x2000000000 as int + 16384,
                            UNIT as int,
                        );
                    } else {
                        vstd::arithmetic::div_mod::lemma_div_pos_is_pos(
                            -(s as int * levels as int) + UNIT as int / 2,
                            UNIT as int,
                        );
                        vstd::arithmetic::div_mod::lemma_div_is_ordered(
                            -(s as int * levels as int) + UNIT as int / 2,
                            0x2000000000 as int + 16384,
                            UNIT as int,
                        );
                    }
                    vstd::arithmetic::div_mod::lemma_div_pos_is_pos(UNIT as int, levels as int);
                    vstd::arithmetic::div_mod::lemma_div_is_ordered_by_denominator(
                        UNIT as int,
                        1,
                        levels as int,
                    );
                }
                let q: i64 = if s >= 0 {
                    (s * levels + u / 2) / u
                } else {
                    -((-(s * levels) + u / 2) / u)
                };
                let step: i64 = u / levels;
                proof {
                    lemma_mul_bounds(
                        if q >= 0 { q as int } else { -(q as int) },
                        step as int,
                        0x40000000,
                        32768,
                    );
                    assert(q as int * step as int == -((-(q as int)) * step as int)) by (nonlinear_arith);
                }
                crate::fixed::clamp64(q * step, -h, h) as i32
            },
            Effect::Fangs(t) => {
                let sa: i64 = if s >= 0 {
                    s
                } else {
                    -s
                };
                if sa < t as i64 {
                    sample
                } else {
                    proof {
                        lemma_mul_bounds(2 * sa as int, UNIT as int, 2 * HEADROOM as int, 32768);
                        vstd::arithmetic::div_mod::lemma_div_pos_is_pos(
                            2 * sa as int * UNIT as int,
                            t as int,
                        );
                        vstd::arithmetic::div_mod::lemma_div_is_ordered_by_denominator(
                            2 * (sa as int) * (UNIT as int),
                            1,
                            t as int,
                        );
                        let inner = 3 * UNIT as int - spec_tdiv(
                            2 * sa as int * UNIT as int,
                            t as int,
                        );
                        lemma_mul_bounds(
                            t as int,
                            if inner >= 0 { inner } else { -inner },
                            UNIT as int,
                            0x4000000000,
                        );
                        assert(t as int * inner == -(t as int * -inner)) by (nonlinear_arith);
                        lemma_tdiv_abs_le(t as int * inner, 3 * UNIT as int, 0x8000000000);
                    }
                    let scaled: i64 = tdiv64(2 * sa * u, t as i64);
                    let inner: i64 = 3 * u - scaled;
                    let folded: i64 = tdiv64(t as i64 * inner, 3 * u);
                    if sample >= 0 {
                        crate::fixed::clamp64(folded, -h, h) as i32
                    } else {
                        crate::fixed::clamp64(-folded, -h, h) as i32
                    }
                }
            },
        }
    }
}

/// Every effect in the chain has parameters in range.
pub open spec fn wf_effects(s: Seq<Effect>) -> bool {
    forall|i: int| 0 <= i < s.len() ==> #[trigger] s[i].wf()
}

/// The whole chain applied left to right.
pub open spec fn spec_chain(effects: Seq<Effect>, s: int) -> int
    decreases effects.len(),
{
    if effects.len() == 0 {
        s
    } else {
        spec_chain(effects.drop_first(), effects[0].spec_apply(s))
    }
}

/// Run a sample through an effect chain, left to right.
pub fn apply_chain(effects: &Vec<Effect>, sample: i32) -> (r: i32)
    requires
        wf_effects(effects@),
        -HEADROOM <= sample <= HEADROOM,
    ensures
        r as int == spec_chain(effects@, sample as int),
        -HEADROOM <= r <= HEADROOM,
{
    let mut cur: i32 = sample;
    let mut i: usize = 0;
    proof {
        assert(effects@.skip(0) =~= effects@);
    }
    while i < effects.len()
        invariant
            0 <= i <= effects@.len(),
            wf_effects(effects@),
            -HEADROOM <= cur <= HEADROOM,
            spec_chain(effects@, sample as int) == spec_chain(effects@.skip(i as int), cur as int),
        decreases effects@.len() - i,
    {
        proof {
            assert(effects@.skip(i as int).drop_first() =~= effects@.skip(i as int + 1));
            assert(effects@.skip(i as int)[0] == effects@[i as int]);
        }
        cur = effects[i].apply(cur);
        i = i + 1;
    }
    proof {
        assert(effects@.skip(effects@.len() as int) =~= Seq::<Effect>::empty());
    }
    cur
}

} // verus!
