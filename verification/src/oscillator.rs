//! Periodic waveform generation with a phase accumulator.
//!
//! The phase is a fixed-point fraction of one cycle in `[0, UNIT)` and is
//! advanced by `frequency / sample_rate` (in the same fixed-point scale) on
//! every tick, wrapping modulo one cycle, so arbitrary frequency changes
//! mid-note never produce a phase glitch.

use vstd::prelude::*;

use crate::fixed::{lemma_div_le, lemma_tdiv_abs_le, spec_tdiv, tdiv64};
use crate::{HALF, HEADROOM, UNIT};

verus! {

/// The closed set of waveform families.
#[derive(Clone, Copy, Debug, PartialEq, Eq, Structural)]
pub enum Waveform {
    Sine,
    Square,
    Triangle,
    Sawtooth,
    AnalogSawtooth,
    Exp,
}

/// Most harmonics an `AnalogSawtooth` oscillator may sum: keeps the additive
/// series inside the engine's mixing headroom.
pub const MAX_HARMONICS: u32 = 100;

/// Half-wave rational sine approximation: for `t` a fraction of a half cycle
/// in `[0, UNIT]`, approximates `sin(pi * t / UNIT) * UNIT` as
/// `16 w / (5 - 4 w)` with `w = (t / UNIT) * (1 - t / UNIT)`.
pub open spec fn spec_half_sine(t: int) -> int {
    let w = (t * (UNIT - t)) / (UNIT as int);
    (16 * w * UNIT) / (5 * UNIT - 4 * w)
}

/// Full-cycle sine approximation for a phase in `[0, UNIT)`: the second half
/// cycle mirrors the first with opposite sign.
pub open spec fn spec_sine(p: int) -> int {
    if p < HALF {
        spec_half_sine(2 * p)
    } else {
        -spec_half_sine(2 * (p - HALF))
    }
}

pub proof fn lemma_half_sine_bounds(t: int)
    requires
        0 <= t <= UNIT,
    ensures
        0 <= spec_half_sine(t) <= UNIT,
{
    let u = UNIT as int;
    assert(0 <= t * (u - t) && 4 * (t * (u - t)) <= u * u) by (nonlinear_arith)
        requires
            0 <= t <= u;
    let w = (t * (u - t)) / u;
    lemma_div_le(t * (u - t), 268435456, u);
    assert(268435456 as int / 32768 as int == 8192);
    assert(0 <= w <= 8192);
    let num = 16 * w * u;
    let den = 5 * u - 4 * w;
    assert(4 * u <= den <= 5 * u);
    assert(num <= 4 * u * u) by (nonlinear_arith)
        requires
            0 <= w <= 8192,
            num == 16 * w * u,
            u == 32768;
    vstd::arithmetic::div_mod::lemma_div_pos_is_pos(num, den);
    vstd::arithmetic::div_mod::lemma_div_is_ordered_by_denominator(num, 4 * u, den);
    vstd::arithmetic::div_mod::lemma_div_is_ordered(num, 4 * u * u, 4 * u);
    assert(4 * u * u == u * (4 * u));
    vstd::arithmetic::div_mod::lemma_div_multiples_vanish(u, 4 * u);
}

pub proof fn lemma_sine_bounds(p: int)
    requires
        0 <= p < UNIT,
    ensures
        -UNIT <= spec_sine(p) <= UNIT,
{
    if p < HALF {
        lemma_half_sine_bounds(2 * p);
    } else {
        lemma_half_sine_bounds(2 * (p - HALF));
    }
}

/// Fixed-point sine of a phase fraction in `[0, UNIT)`.
pub fn sine(p: i32) -> (r: i32)
    requires
        0 <= p < UNIT,
    ensures
        r as int == spec_sine(p as int),
        -UNIT <= r <= UNIT,
{
    proof {
        lemma_sine_bounds(p as int);
    }
    if p < HALF {
        half_sine(2 * p)
    } else {
        let r = half_sine(2 * (p - HALF));
        -r
    }
}

fn half_sine(t: i32) -> (r: i32)
    requires
        0 <= t <= UNIT,
    ensures
        r as int == spec_half_sine(t as int),
        0 <= r <= UNIT,
{
    proof {
        lemma_half_sine_bounds(t as int);
        assert(0 <= (t as int) * ((UNIT - t) as int) <= 1073741824) by (nonlinear_arith)
            requires
                0 <= t as int <= 32768,
                ((UNIT - t) as int) == 32768 - (t as int);
        lemma_div_le((t as int) * ((UNIT - t) as int), 1073741824, UNIT as int);
        assert(1073741824 as int / 32768 as int == 32768);
    }
    let u: i64 = UNIT as i64;
    let w: i64 = (t as i64 * (UNIT - t) as i64) / u;
    let num: i64 = 16 * w * u;
    let den: i64 = 5 * u - 4 * w;
    let r: i64 = num / den;
    r as i32
}

/// The per-tick phase increment: `frequency / sample_rate` as a fixed-point
/// cycle fraction (millihertz over hertz, hence the factor 1000).
pub open spec fn spec_phase_step(frequency: int, sample_rate: int) -> int {
    (frequency * UNIT) / (sample_rate * 1000)
}

/// A periodic waveform generator.
#[derive(Clone, Copy, Debug)]
pub struct Oscillator {
    /// Waveform family.
    pub waveform: Waveform,
    /// Frequency in millihertz.
    pub frequency: u32,
    /// Phase: fixed-point fraction of one cycle, always in `[0, UNIT)`.
    pub phase: i32,
    /// Duty cycle for square waves, in `[0, UNIT]`.
    pub duty: i32,
    /// Number of summed harmonics for band-limited sawtooth waves.
    pub harmonics: u32,
    /// Output sample rate in Hz.
    pub sample_rate: u32,
}

/// Partial sum of the band-limited sawtooth series:
/// `sum_{j=1}^{k-1} sine(j * phase mod UNIT) / j`.
pub open spec fn spec_saw_sum(phase: int, k: int) -> int
    decreases k,
{
    if k <= 1 {
        0
    } else {
        spec_saw_sum(phase, k - 1) + spec_tdiv(spec_sine((k - 1) * phase % (UNIT as int)), k - 1)
    }
}

pub proof fn lemma_saw_sum_bound(phase: int, k: int)
    requires
        0 <= phase < UNIT,
        k >= 1,
    ensures
        -((k - 1) * UNIT) <= spec_saw_sum(phase, k) <= (k - 1) * UNIT,
    decreases k,
{
    if k <= 1 {
    } else {
        lemma_saw_sum_bound(phase, k - 1);
        let p = (k - 1) * phase % (UNIT as int);
        vstd::arithmetic::div_mod::lemma_mod_division_less_than_divisor(
            (k - 1) * phase,
            UNIT as int,
        );
        lemma_sine_bounds(p);
        assert((UNIT as int) <= (UNIT as int) * (k - 1)) by (nonlinear_arith)
            requires
                k >= 2;
        lemma_tdiv_abs_le(spec_sine(p), k - 1, UNIT as int);
        assert((k - 1) * (UNIT as int) == (k - 2) * (UNIT as int) + UNIT) by (nonlinear_arith);
    }
}

/// One tick keeps the oscillator well formed: the advanced phase wraps back
/// into `[0, UNIT)`.
pub proof fn lemma_osc_step_wf(o: Oscillator)
    requires
        o.wf(),
    ensures
        o.spec_step().wf(),
{
    vstd::arithmetic::div_mod::lemma_mod_division_less_than_divisor(
        o.phase as int + spec_phase_step(o.frequency as int, o.sample_rate as int),
        UNIT as int,
    );
}

/// The sine, square, triangle and sawtooth families never leave one
/// full-scale unit, and the phase stays wrapped in `[0, UNIT)` across any
/// number of ticks, whatever the frequency. (The additive sawtooth's partial
/// sums and the cubic family deliberately follow their formulas past full
/// scale; they stay within the mixing headroom instead.)
pub proof fn lemma_waveform_in_range(o: Oscillator)
    requires
        o.wf(),
        o.waveform == Waveform::Sine || o.waveform == Waveform::Square || o.waveform
            == Waveform::Triangle || o.waveform == Waveform::Sawtooth,
    ensures
        -UNIT <= o.spec_sample() <= UNIT,
        0 <= o.spec_step().phase < UNIT,
        o.spec_step().wf(),
{
    if o.waveform == Waveform::Sine {
        lemma_sine_bounds(o.phase as int);
    }
    lemma_osc_step_wf(o);
}

impl Oscillator {
    /// Structural invariant: phase wrapped, duty a fraction, harmonic count
    /// bounded, sample rate positive.
    pub open spec fn wf(self) -> bool {
        &&& 0 <= self.phase < UNIT
        &&& 0 <= self.duty <= UNIT
        &&& 1 <= self.harmonics <= MAX_HARMONICS
        &&& self.sample_rate >= 1
    }

    /// The sample this oscillator yields at its current phase.
    pub open spec fn spec_sample(self) -> int {
        match self.waveform {
            Waveform::Sine => spec_sine(self.phase as int),
            Waveform::Square => if (self.phase as int) < self.duty as int {
                UNIT as int
            } else {
                -(UNIT as int)
            },
            Waveform::Triangle => if (self.phase as int) < HALF as int {
                4 * self.phase - UNIT
            } else {
                3 * UNIT - 4 * self.phase
            },
            Waveform::Sawtooth => 2 * self.phase - UNIT,
            Waveform::AnalogSawtooth => spec_tdiv(
                -20861 * spec_saw_sum(self.phase as int, self.harmonics as int),
                UNIT as int,
            ),
            Waveform::Exp => {
                let t = 2 * self.phase - UNIT;
                spec_tdiv(t * t * t, (UNIT as int) * (UNIT as int)) + HALF
            },
        }
    }

    /// The oscillator after one tick: the phase advances by the per-tick step
    /// and wraps into `[0, UNIT)`; nothing else changes.
    pub open spec fn spec_step(self) -> Oscillator {
        Oscillator {
            phase: ((self.phase + spec_phase_step(self.frequency as int, self.sample_rate as int))
                % (UNIT as int)) as i32,
            ..self
        }
    }

    /// A fresh oscillator at phase zero with a centered duty cycle and the
    /// default harmonic count.
    pub fn new(waveform: Waveform, frequency: u32, sample_rate: u32) -> (r: Oscillator)
        requires
            sample_rate >= 1,
        ensures
            r.wf(),
            r.waveform == waveform,
            r.frequency == frequency,
            r.phase == 0,
            r.duty == HALF,
            r.harmonics == 50,
            r.sample_rate == sample_rate,
    {
        Oscillator { waveform, frequency, phase: 0, duty: HALF, harmonics: 50, sample_rate }
    }

    pub fn set_frequency(&mut self, frequency: u32)
        ensures
            *final(self) == (Oscillator { frequency, ..*old(self) }),
    {
        self.frequency = frequency;
    }

    pub fn frequency(&self) -> (r: u32)
        ensures
            r == self.frequency,
    {
        self.frequency
    }

    pub fn set_duty(&mut self, duty: i32)
        requires
            0 <= duty <= UNIT,
        ensures
            *final(self) == (Oscillator { duty, ..*old(self) }),
    {
        self.duty = duty;
    }

    pub fn duty(&self) -> (r: i32)
        ensures
            r == self.duty,
    {
        self.duty
    }

    pub fn set_harmonics(&mut self, harmonics: u32)
        requires
            1 <= harmonics <= MAX_HARMONICS,
        ensures
            *final(self) == (Oscillator { harmonics, ..*old(self) }),
    {
        self.harmonics = harmonics;
    }

    pub fn harmonics(&self) -> (r: u32)
        ensures
            r == self.harmonics,
    {
        self.harmonics
    }

    /// One tick: yield the sample for the current phase, then advance and
    /// wrap the phase. The sine, square, triangle and sawtooth families stay
    /// within one full-scale unit; every family stays within the mixing
    /// headroom.
    pub fn next_sample(&mut self) -> (r: i32)
        requires
            old(self).wf(),
        ensures
            final(self).wf(),
            *final(self) == old(self).spec_step(),
            r as int == old(self).spec_sample(),
            -HEADROOM <= r <= HEADROOM,
            (old(self).waveform == Waveform::Sine || old(self).waveform == Waveform::Square
                || old(self).waveform == Waveform::Triangle || old(self).waveform
                == Waveform::Sawtooth) ==> -UNIT <= r <= UNIT,
    {
        let sample: i32 = match self.waveform {
            Waveform::Sine => sine(self.phase),
            Waveform::Square => if self.phase < self.duty {
                UNIT
            } else {
                -UNIT
            },
            Waveform::Triangle => if self.phase < HALF {
                4 * self.phase - UNIT
            } else {
                3 * UNIT - 4 * self.phase
            },
            Waveform::Sawtooth => 2 * self.phase - UNIT,
            Waveform::AnalogSawtooth => self.analog_sawtooth_sample(),
            Waveform::Exp => {
                let t: i64 = 2 * self.phase as i64 - UNIT as i64;
                proof {
                    let ti = t as int;
                    assert(0 <= ti * ti <= 1073741824 && -35184372088832 <= (ti * ti) * ti
                        <= 35184372088832) by (nonlinear_arith)
                        requires
                            -32768 <= ti <= 32768;
                    lemma_tdiv_abs_le((ti * ti) * ti, 1073741824, 32768);
                }
                let cube: i64 = tdiv64(t * t * t, UNIT as i64 * UNIT as i64);
                cube as i32 + HALF
            },
        };
        let step_wide: u64 = (self.frequency as u64 * UNIT as u64) / (self.sample_rate as u64
            * 1000);
        let new_phase: u64 = ((self.phase as u64) + step_wide) % (UNIT as u64);
        proof {
            vstd::arithmetic::div_mod::lemma_mod_division_less_than_divisor(
                self.phase as int + spec_phase_step(self.frequency as int, self.sample_rate as int),
                UNIT as int,
            );
        }
        self.phase = new_phase as i32;
        sample
    }

    fn analog_sawtooth_sample(&self) -> (r: i32)
        requires
            self.wf(),
            self.waveform == Waveform::AnalogSawtooth,
        ensures
            r as int == self.spec_sample(),
            -HEADROOM <= r <= HEADROOM,
    {
        let mut acc: i64 = 0;
        let mut j: u32 = 1;
        while j < self.harmonics
            invariant
                1 <= j <= self.harmonics,
                self.wf(),
                acc as int == spec_saw_sum(self.phase as int, j as int),
                -((j as int - 1) * UNIT) <= acc as int <= (j as int - 1) * UNIT,
            decreases self.harmonics - j,
        {
            proof {
                assert(0 <= j as int * self.phase as int <= 3276700) by (nonlinear_arith)
                    requires
                        1 <= j as int <= 100,
                        0 <= (self.phase as int) < 32768;
                vstd::arithmetic::div_mod::lemma_mod_division_less_than_divisor(
                    j as int * self.phase as int,
                    UNIT as int,
                );
            }
            let p: u32 = (j * self.phase as u32) % (UNIT as u32);
            let s: i32 = sine(p as i32);
            let term: i64 = tdiv64(s as i64, j as i64);
            proof {
                lemma_tdiv_abs_le(s as int, j as int, UNIT as int);
                lemma_saw_sum_bound(self.phase as int, j as int + 1);
            }
            acc = acc + term;
            j = j + 1;
        }
        proof {
            lemma_tdiv_abs_le(-20861 * acc as int, UNIT as int, 2065239);
            assert(-(2065239 as int) * 32768 <= -20861 * acc as int <= 2065239 as int * 32768)
                by (nonlinear_arith)
                requires
                    -(99 as int) * 32768 <= acc as int <= 99 as int * 32768;
        }
        let r: i64 = tdiv64(-20861 * acc, UNIT as i64);
        r as i32
    }
}

} // verus!
