//! ADSR amplitude envelope: a five-state machine whose transitions fire on
//! elapsed time since entering the current state, with a linear or an
//! exponential curve family.
//!
//! Time advances by one sample period on every `get_amplitude` call, so the
//! envelope clock is coupled to the audio-rate clock; once it reaches the
//! longest supported segment it holds there, a machine limit. Durations are
//! counted in samples; levels are fixed-point fractions in `[0, UNIT]`. A
//! segment of zero duration completes instantly, and the end of every
//! segment snaps the level to that segment's target (full scale, the
//! sustain level, or zero), so zero-length segments never divide by zero.

use vstd::prelude::*;

use crate::fixed::lemma_mul_div_le;
use crate::UNIT;

verus! {

/// Longest supported envelope segment, in samples (24 hours at the highest
/// supported sample rate).
pub const MAX_SEGMENT: u64 = 86400000000;

/// Highest supported sample rate in Hz.
pub const MAX_SAMPLE_RATE: u32 = 1000000;

/// Longest supported segment duration in milliseconds (24 hours).
pub const MAX_SEGMENT_MS: u32 = 86400000;

/// The curve family of an envelope.
#[derive(Clone, Copy, Debug, PartialEq, Eq, Structural)]
pub enum EnvelopeKind {
    Linear,
    Exponential,
}

/// The phase an envelope is currently in; exactly one at a time.
#[derive(Clone, Copy, Debug, PartialEq, Eq, Structural)]
pub enum EnvelopeState {
    Idle,
    Attack,
    Decay,
    Sustain,
    Release,
}

/// Rational approximation of `exp(-6 * x / UNIT) * UNIT` for `x` in
/// `[0, UNIT]`: the reciprocal of the cubic Taylor prefix of `exp`.
pub open spec fn spec_exp_neg6(x: int) -> int {
    let u = UNIT as int;
    let den = u + 6 * x + (18 * x * x) / u + (((36 * x * x) / u) * x) / u;
    (u * u) / den
}

/// Attack curve: 0 at entry, full scale after `attack` samples.
/// Linear: `t / A`. Exponential: `2^(t / A) - 1`, by a quadratic
/// approximation exact at both ends.
pub open spec fn spec_attack_level(kind: EnvelopeKind, t: int, attack: int) -> int {
    let u = UNIT as int;
    let f = (t * u) / attack;
    match kind {
        EnvelopeKind::Linear => f,
        EnvelopeKind::Exponential => (f * (21514 + (11254 * f) / u)) / u,
    }
}

/// Decay curve: full scale at entry, the sustain level after `decay`
/// samples. Linear: `1 - (1 - S) * t / D`. Exponential:
/// `S + (1 - S) * exp(-6 t / D)`.
pub open spec fn spec_decay_level(kind: EnvelopeKind, t: int, sustain: int, decay: int) -> int {
    let u = UNIT as int;
    match kind {
        EnvelopeKind::Linear => u - ((u - sustain) * t) / decay,
        EnvelopeKind::Exponential => sustain + ((u - sustain) * spec_exp_neg6((t * u) / decay)) / u,
    }
}

/// Release curve: the sustain level at entry, silence after `release`
/// samples. Linear: `S * (1 - t / R)`. Exponential: `S * exp(-6 t / R)`.
pub open spec fn spec_release_level(kind: EnvelopeKind, t: int, sustain: int, release: int) -> int {
    let u = UNIT as int;
    match kind {
        EnvelopeKind::Linear => (sustain * (release - t)) / release,
        EnvelopeKind::Exponential => (sustain * spec_exp_neg6((t * u) / release)) / u,
    }
}

pub proof fn lemma_exp_neg6_bounds(x: int)
    requires
        0 <= x <= UNIT,
    ensures
        0 <= spec_exp_neg6(x) <= UNIT,
{
    let u = UNIT as int;
    lemma_mul_div_le(18 * x, x, u);
    lemma_mul_div_le(36 * x, x, u);
    lemma_mul_div_le((36 * x * x) / u, x, u);
    let den = u + 6 * x + (18 * x * x) / u + (((36 * x * x) / u) * x) / u;
    assert(18 * x * x == (18 * x) * x) by (nonlinear_arith);
    assert(36 * x * x == (36 * x) * x) by (nonlinear_arith);
    vstd::arithmetic::div_mod::lemma_div_pos_is_pos(u * u, den);
    vstd::arithmetic::div_mod::lemma_div_is_ordered_by_denominator(u * u, u, den);
    assert(u * u / u == u) by (nonlinear_arith)
        requires
            u == 32768;
}

pub proof fn lemma_attack_level_bounds(kind: EnvelopeKind, t: int, attack: int)
    requires
        0 <= t < attack,
    ensures
        0 <= spec_attack_level(kind, t, attack) <= UNIT,
{
    let u = UNIT as int;
    lemma_mul_div_le(u, t, attack);
    assert(t * u == u * t);
    let f = (t * u) / attack;
    match kind {
        EnvelopeKind::Linear => {
        },
        EnvelopeKind::Exponential => {
            lemma_mul_div_le(11254, f, u);
            lemma_mul_div_le(f, 21514 + (11254 * f) / u, u);
        },
    }
}

pub proof fn lemma_decay_level_bounds(kind: EnvelopeKind, t: int, sustain: int, decay: int)
    requires
        0 <= t < decay,
        0 <= sustain <= UNIT,
    ensures
        sustain <= spec_decay_level(kind, t, sustain, decay) <= UNIT,
{
    let u = UNIT as int;
    match kind {
        EnvelopeKind::Linear => {
            lemma_mul_div_le(u - sustain, t, decay);
        },
        EnvelopeKind::Exponential => {
            lemma_mul_div_le(u, t, decay);
            assert(t * u == u * t);
            lemma_exp_neg6_bounds((t * u) / decay);
            lemma_mul_div_le(u - sustain, spec_exp_neg6((t * u) / decay), u);
        },
    }
}

pub proof fn lemma_release_level_bounds(kind: EnvelopeKind, t: int, sustain: int, release: int)
    requires
        0 <= t < release,
        0 <= sustain <= UNIT,
    ensures
        0 <= spec_release_level(kind, t, sustain, release) <= sustain,
{
    let u = UNIT as int;
    match kind {
        EnvelopeKind::Linear => {
            lemma_mul_div_le(sustain, release - t, release);
        },
        EnvelopeKind::Exponential => {
            lemma_mul_div_le(u, t, release);
            assert(t * u == u * t);
            lemma_exp_neg6_bounds((t * u) / release);
            lemma_mul_div_le(sustain, spec_exp_neg6((t * u) / release), u);
        },
    }
}

impl EnvelopeKind {
    /// Evaluate the attack curve `time` samples into a segment of `attack`
    /// samples.
    pub fn attack(self, time: u64, attack: u64) -> (r: i32)
        requires
            time < attack,
            attack <= MAX_SEGMENT,
        ensures
            r as int == spec_attack_level(self, time as int, attack as int),
            0 <= r <= UNIT,
    {
        proof {
            lemma_attack_level_bounds(self, time as int, attack as int);
            lemma_mul_div_le(UNIT as int, time as int, attack as int);
            assert((time as int) * (UNIT as int) == (UNIT as int) * (time as int));
        }
        let u: u64 = UNIT as u64;
        let f: u64 = (time * u) / attack;
        match self {
            EnvelopeKind::Linear => f as i32,
            EnvelopeKind::Exponential => {
                proof {
                    lemma_mul_div_le(11254, f as int, u as int);
                }
                let inner: u64 = 21514 + (11254 * f) / u;
                proof {
                    crate::fixed::lemma_mul_bounds(f as int, inner as int, 32768, 32768);
                }
                ((f * inner) / u) as i32
            },
        }
    }

    /// Evaluate the decay curve `time` samples into a segment of `decay`
    /// samples toward `sustain`.
    pub fn decay(self, time: u64, sustain: i32, decay: u64) -> (r: i32)
        requires
            time < decay,
            decay <= MAX_SEGMENT,
            0 <= sustain <= UNIT,
        ensures
            r as int == spec_decay_level(self, time as int, sustain as int, decay as int),
            sustain <= r <= UNIT,
    {
        proof {
            lemma_decay_level_bounds(self, time as int, sustain as int, decay as int);
        }
        let u: u64 = UNIT as u64;
        match self {
            EnvelopeKind::Linear => {
                proof {
                    crate::fixed::lemma_mul_bounds(
                        (UNIT - sustain) as int,
                        time as int,
                        32768,
                        MAX_SEGMENT as int,
                    );
                    lemma_mul_div_le((UNIT - sustain) as int, time as int, decay as int);
                }
                let drop: u64 = ((UNIT - sustain) as u64 * time) / decay;
                UNIT - drop as i32
            },
            EnvelopeKind::Exponential => {
                proof {
                    lemma_mul_div_le(u as int, time as int, decay as int);
                    assert((time as int) * (u as int) == (u as int) * (time as int));
                }
                let x: u64 = (time * u) / decay;
                let e: i32 = exp_neg6(x as i32);
                proof {
                    crate::fixed::lemma_mul_bounds((UNIT - sustain) as int, e as int, 32768, 32768);
                    lemma_mul_div_le((UNIT - sustain) as int, e as int, u as int);
                }
                sustain + (((UNIT - sustain) as u64 * e as u64) / u) as i32
            },
        }
    }

    /// Evaluate the release curve `time` samples into a segment of `release`
    /// samples down from `sustain`.
    pub fn release(self, time: u64, sustain: i32, release: u64) -> (r: i32)
        requires
            time < release,
            release <= MAX_SEGMENT,
            0 <= sustain <= UNIT,
        ensures
            r as int == spec_release_level(self, time as int, sustain as int, release as int),
            0 <= r <= sustain,
    {
        proof {
            lemma_release_level_bounds(self, time as int, sustain as int, release as int);
        }
        let u: u64 = UNIT as u64;
        match self {
            EnvelopeKind::Linear => {
                proof {
                    crate::fixed::lemma_mul_bounds(
                        sustain as int,
                        (release - time) as int,
                        32768,
                        MAX_SEGMENT as int,
                    );
                    lemma_mul_div_le(sustain as int, (release - time) as int, release as int);
                }
                ((sustain as u64 * (release - time)) / release) as i32
            },
            EnvelopeKind::Exponential => {
                proof {
                    lemma_mul_div_le(u as int, time as int, release as int);
                    assert((time as int) * (u as int) == (u as int) * (time as int));
                }
                let x: u64 = (time * u) / release;
                let e: i32 = exp_neg6(x as i32);
                proof {
                    crate::fixed::lemma_mul_bounds(sustain as int, e as int, 32768, 32768);
                    lemma_mul_div_le(sustain as int, e as int, u as int);
                }
                ((sustain as u64 * e as u64) / u) as i32
            },
        }
    }
}

/// Fixed-point `exp(-6 x / UNIT)` for `x` in `[0, UNIT]`.
fn exp_neg6(x: i32) -> (r: i32)
    requires
        0 <= x <= UNIT,
    ensures
        r as int == spec_exp_neg6(x as int),
        0 <= r <= UNIT,
{
    proof {
        lemma_exp_neg6_bounds(x as int);
        lemma_mul_div_le(18 * x as int, x as int, UNIT as int);
        lemma_mul_div_le(36 * x as int, x as int, UNIT as int);
        lemma_mul_div_le((36 * (x as int) * (x as int)) / (UNIT as int), x as int, UNIT as int);
        assert(18 * (x as int) * (x as int) == (18 * (x as int)) * (x as int)) by (nonlinear_arith);
        assert(36 * (x as int) * (x as int) == (36 * (x as int)) * (x as int)) by (nonlinear_arith);
    }
    let u: i64 = UNIT as i64;
    let xl: i64 = x as i64;
    let sq: i64 = (18 * xl * xl) / u;
    let cu: i64 = (((36 * xl * xl) / u) * xl) / u;
    let den: i64 = u + 6 * xl + sq + cu;
    ((u * u) / den) as i32
}

/// An ADSR envelope with a selectable curve family.
#[derive(Clone, Copy, Debug)]
pub struct Envelope {
    /// Attack duration in samples.
    pub attack: u64,
    /// Decay duration in samples.
    pub decay: u64,
    /// Sustain level in `[0, UNIT]`.
    pub sustain: i32,
    /// Release duration in samples.
    pub release: u64,
    /// Curve family.
    pub kind: EnvelopeKind,
    /// Current phase.
    pub state: EnvelopeState,
    /// Level most recently produced, in `[0, UNIT]`.
    pub level: i32,
    /// The elapsed clock in samples: advanced on every `get_amplitude`
    /// call, reset by `trigger`, `release`, and the attack completing.
    pub time: u64,
}

impl Envelope {
    /// Structural invariant: levels are fractions and durations fit the
    /// supported range.
    pub open spec fn wf(self) -> bool {
        &&& 0 <= self.sustain <= UNIT
        &&& 0 <= self.level <= UNIT
        &&& self.attack <= MAX_SEGMENT
        &&& self.decay <= MAX_SEGMENT
        &&& self.release <= MAX_SEGMENT
        &&& self.time <= MAX_SEGMENT
    }

    /// The envelope after a `trigger` call: Attack restarts from the top of
    /// the state machine with a fresh segment clock.
    pub open spec fn spec_triggered(self) -> Envelope {
        Envelope { state: EnvelopeState::Attack, time: 0, ..self }
    }

    /// The envelope after a `release` call: a no-op from Idle, otherwise the
    /// Release segment starts with a fresh segment clock.
    pub open spec fn spec_released(self) -> Envelope {
        if self.state == EnvelopeState::Idle {
            self
        } else {
            Envelope { state: EnvelopeState::Release, time: 0, ..self }
        }
    }

    /// One audio tick of the state machine. The elapsed clock advances by
    /// one sample on every call (held at the longest supported segment once
    /// it gets there, a machine limit); a timed segment whose advanced clock
    /// reaches its duration completes and snaps the level to its target.
    /// Only the start of a new attack (here, the attack completing into
    /// Decay; otherwise `trigger` and `release`) resets the clock.
    pub open spec fn spec_step(self) -> Envelope {
        let t = if self.time < MAX_SEGMENT {
            self.time + 1
        } else {
            self.time as int
        };
        match self.state {
            EnvelopeState::Idle => Envelope { level: 0, time: t as u64, ..self },
            EnvelopeState::Attack => if t >= self.attack {
                Envelope { level: UNIT, state: EnvelopeState::Decay, time: 0, ..self }
            } else {
                Envelope {
                    level: spec_attack_level(self.kind, t, self.attack as int) as i32,
                    time: t as u64,
                    ..self
                }
            },
            EnvelopeState::Decay => if t >= self.decay {
                Envelope {
                    level: self.sustain,
                    state: EnvelopeState::Sustain,
                    time: t as u64,
                    ..self
                }
            } else {
                Envelope {
                    level: spec_decay_level(
                        self.kind,
                        t,
                        self.sustain as int,
                        self.decay as int,
                    ) as i32,
                    time: t as u64,
                    ..self
                }
            },
            EnvelopeState::Sustain => Envelope { level: self.sustain, time: t as u64, ..self },
            EnvelopeState::Release => if t >= self.release {
                Envelope { level: 0, state: EnvelopeState::Idle, time: t as u64, ..self }
            } else {
                Envelope {
                    level: spec_release_level(
                        self.kind,
                        t,
                        self.sustain as int,
                        self.release as int,
                    ) as i32,
                    time: t as u64,
                    ..self
                }
            },
        }
    }

    /// A fresh envelope in Idle at level zero. Durations are given in
    /// milliseconds and converted to samples at the given rate.
    pub fn new(
        attack_ms: u32,
        decay_ms: u32,
        sustain: i32,
        release_ms: u32,
        kind: EnvelopeKind,
        sample_rate: u32,
    ) -> (r: Envelope)
        requires
            0 <= sustain <= UNIT,
            1 <= sample_rate <= MAX_SAMPLE_RATE,
            attack_ms <= MAX_SEGMENT_MS,
            decay_ms <= MAX_SEGMENT_MS,
            release_ms <= MAX_SEGMENT_MS,
        ensures
            r.wf(),
            r.state == EnvelopeState::Idle,
            r.level == 0,
            r.time == 0,
            r.sustain == sustain,
            r.kind == kind,
            r.attack == attack_ms as int * sample_rate as int / 1000,
            r.decay == decay_ms as int * sample_rate as int / 1000,
            r.release == release_ms as int * sample_rate as int / 1000,
    {
        proof {
            lemma_mul_div_le(MAX_SEGMENT_MS as int, sample_rate as int, MAX_SAMPLE_RATE as int);
            assert((attack_ms as int) * (sample_rate as int) <= (MAX_SEGMENT_MS as int) * (
            MAX_SAMPLE_RATE as int)) by (nonlinear_arith)
                requires
                    attack_ms as int <= MAX_SEGMENT_MS as int,
                    sample_rate as int <= MAX_SAMPLE_RATE as int,
                    0 <= attack_ms as int,
                    0 <= sample_rate as int;
            assert((decay_ms as int) * (sample_rate as int) <= (MAX_SEGMENT_MS as int) * (
            MAX_SAMPLE_RATE as int)) by (nonlinear_arith)
                requires
                    decay_ms as int <= MAX_SEGMENT_MS as int,
                    sample_rate as int <= MAX_SAMPLE_RATE as int,
                    0 <= decay_ms as int,
                    0 <= sample_rate as int;
            assert((release_ms as int) * (sample_rate as int) <= (MAX_SEGMENT_MS as int) * (
            MAX_SAMPLE_RATE as int)) by (nonlinear_arith)
                requires
                    release_ms as int <= MAX_SEGMENT_MS as int,
                    sample_rate as int <= MAX_SAMPLE_RATE as int,
                    0 <= release_ms as int,
                    0 <= sample_rate as int;
            vstd::arithmetic::div_mod::lemma_div_is_ordered(
                attack_ms as int * sample_rate as int,
                86400000 as int * 1000000,
                1000,
            );
            vstd::arithmetic::div_mod::lemma_div_is_ordered(
                decay_ms as int * sample_rate as int,
                86400000 as int * 1000000,
                1000,
            );
            vstd::arithmetic::div_mod::lemma_div_is_ordered(
                release_ms as int * sample_rate as int,
                86400000 as int * 1000000,
                1000,
            );
            vstd::arithmetic::div_mod::lemma_div_pos_is_pos(
                attack_ms as int * sample_rate as int,
                1000,
            );
            vstd::arithmetic::div_mod::lemma_div_pos_is_pos(
                decay_ms as int * sample_rate as int,
                1000,
            );
            vstd::arithmetic::div_mod::lemma_div_pos_is_pos(
                release_ms as int * sample_rate as int,
                1000,
            );
        }
        Envelope {
            attack: (attack_ms as u64 * sample_rate as u64) / 1000,
            decay: (decay_ms as u64 * sample_rate as u64) / 1000,
            sustain,
            release: (release_ms as u64 * sample_rate as u64) / 1000,
            kind,
            state: EnvelopeState::Idle,
            level: 0,
            time: 0,
        }
    }

    /// The phase the envelope is currently in.
    pub fn state(&self) -> (r: EnvelopeState)
        ensures
            r == self.state,
    {
        self.state
    }

    /// Restart the attack from the given current level instead of silence,
    /// avoiding an audible jump when retriggering before full decay.
    pub fn trigger_legato(&mut self, level: i32)
        requires
            0 <= level <= UNIT,
        ensures
            *final(self) == (Envelope { level, ..old(self).spec_triggered() }),
    {
        self.state = EnvelopeState::Attack;
        self.time = 0;
        self.level = level;
    }

    /// Enter Attack with a fresh segment clock; may fire from any state.
    pub fn trigger(&mut self)
        ensures
            *final(self) == old(self).spec_triggered(),
    {
        self.state = EnvelopeState::Attack;
        self.time = 0;
    }

    /// Enter Release with a fresh segment clock; a no-op from Idle.
    pub fn release(&mut self)
        ensures
            *final(self) == old(self).spec_released(),
    {
        if !matches!(self.state, EnvelopeState::Idle) {
            self.state = EnvelopeState::Release;
            self.time = 0;
        }
    }

    /// Advance the envelope clock by one sample period and return the level,
    /// always within `[0, UNIT]`.
    pub fn get_amplitude(&mut self) -> (r: i32)
        requires
            old(self).wf(),
        ensures
            final(self).wf(),
            *final(self) == old(self).spec_step(),
            r == final(self).level,
            0 <= r <= UNIT,
    {
        let t: u64 = if self.time < MAX_SEGMENT {
            self.time + 1
        } else {
            self.time
        };
        match self.state {
            EnvelopeState::Idle => {
                self.level = 0;
                self.time = t;
            },
            EnvelopeState::Attack => {
                if t >= self.attack {
                    self.level = UNIT;
                    self.state = EnvelopeState::Decay;
                    self.time = 0;
                } else {
                    self.level = self.kind.attack(t, self.attack);
                    self.time = t;
                }
            },
            EnvelopeState::Decay => {
                if t >= self.decay {
                    self.level = self.sustain;
                    self.state = EnvelopeState::Sustain;
                    self.time = t;
                } else {
                    self.level = self.kind.decay(t, self.sustain, self.decay);
                    self.time = t;
                }
            },
            EnvelopeState::Sustain => {
                self.level = self.sustain;
                self.time = t;
            },
            EnvelopeState::Release => {
                if t >= self.release {
                    self.level = 0;
                    self.state = EnvelopeState::Idle;
                    self.time = t;
                } else {
                    self.level = self.kind.release(t, self.sustain, self.release);
                    self.time = t;
                }
            },
        }
        self.level
    }
}

/// One tick keeps the envelope well formed: every curve stays in `[0, UNIT]`
/// and the segment clock stays bounded.
pub proof fn lemma_env_step_wf(e: Envelope)
    requires
        e.wf(),
    ensures
        e.spec_step().wf(),
{
    let t = if e.time < MAX_SEGMENT {
        e.time + 1
    } else {
        e.time as int
    };
    match e.state {
        EnvelopeState::Attack => {
            if t < e.attack {
                lemma_attack_level_bounds(e.kind, t, e.attack as int);
            }
        },
        EnvelopeState::Decay => {
            if t < e.decay {
                lemma_decay_level_bounds(e.kind, t, e.sustain as int, e.decay as int);
            }
        },
        EnvelopeState::Release => {
            if t < e.release {
                lemma_release_level_bounds(e.kind, t, e.sustain as int, e.release as int);
            }
        },
        _ => {},
    }
}

/// The envelope after `n` audio ticks.
pub open spec fn spec_steps(e: Envelope, n: nat) -> Envelope
    decreases n,
{
    if n == 0 {
        e
    } else {
        spec_steps(e, (n - 1) as nat).spec_step()
    }
}

proof fn lemma_attack_holds(e: Envelope, i: nat)
    requires
        e.state == EnvelopeState::Attack,
        e.time == 0,
        i < e.attack,
        e.attack <= MAX_SEGMENT,
    ensures
        spec_steps(e, i) == (Envelope {
            state: EnvelopeState::Attack,
            time: i as u64,
            level: if i == 0 {
                e.level
            } else {
                spec_attack_level(e.kind, i as int, e.attack as int) as i32
            },
            ..e
        }),
    decreases i,
{
    if i == 0 {
        assert(spec_steps(e, 0) == e);
    } else {
        lemma_attack_holds(e, (i - 1) as nat);
    }
}

/// After `trigger`, the envelope sits in Attack for the whole attack
/// duration and enters Decay exactly once, at full scale: with `k` the
/// number of ticks the attack takes (its duration, or one tick if it is
/// instantaneous), every earlier tick is still in Attack, and tick `k`
/// produces level `UNIT` and state Decay.
pub proof fn lemma_attack_reaches_full(e: Envelope, k: nat)
    requires
        e.attack <= MAX_SEGMENT,
        k == if e.attack == 0 {
            1nat
        } else {
            e.attack as nat
        },
    ensures
        forall|i: nat|
            0 < i < k ==> #[trigger] spec_steps(e.spec_triggered(), i).state
                == EnvelopeState::Attack,
        spec_steps(e.spec_triggered(), k).state == EnvelopeState::Decay,
        spec_steps(e.spec_triggered(), k).level == UNIT,
{
    let e0 = e.spec_triggered();
    assert forall|i: nat| 0 < i < k implies #[trigger] spec_steps(e0, i).state
        == EnvelopeState::Attack by {
        lemma_attack_holds(e0, i);
    }
    if e.attack == 0 {
        assert(spec_steps(e0, 1) == e0.spec_step());
    } else {
        lemma_attack_holds(e0, (k - 1) as nat);
        assert(spec_steps(e0, k) == spec_steps(e0, (k - 1) as nat).spec_step());
    }
}

proof fn lemma_release_holds(e: Envelope, i: nat)
    requires
        e.state == EnvelopeState::Release,
        e.time == 0,
        i < e.release,
        e.release <= MAX_SEGMENT,
    ensures
        spec_steps(e, i) == (Envelope {
            state: EnvelopeState::Release,
            time: i as u64,
            level: if i == 0 {
                e.level
            } else {
                spec_release_level(e.kind, i as int, e.sustain as int, e.release as int) as i32
            },
            ..e
        }),
    decreases i,
{
    if i == 0 {
        assert(spec_steps(e, 0) == e);
    } else {
        lemma_release_holds(e, (i - 1) as nat);
    }
}

/// From Sustain, `release` puts the envelope in Release for the whole
/// release duration and then reaches silence: with `k` the number of ticks
/// the release takes (its duration, or one tick if it is instantaneous),
/// every earlier tick is still in Release, and tick `k` produces level zero
/// and state Idle.
pub proof fn lemma_release_reaches_idle(e: Envelope, k: nat)
    requires
        e.state == EnvelopeState::Sustain,
        e.release <= MAX_SEGMENT,
        k == if e.release == 0 {
            1nat
        } else {
            e.release as nat
        },
    ensures
        forall|i: nat|
            0 < i < k ==> #[trigger] spec_steps(e.spec_released(), i).state
                == EnvelopeState::Release,
        spec_steps(e.spec_released(), k).state == EnvelopeState::Idle,
        spec_steps(e.spec_released(), k).level == 0,
{
    let e0 = e.spec_released();
    assert forall|i: nat| 0 < i < k implies #[trigger] spec_steps(e0, i).state
        == EnvelopeState::Release by {
        lemma_release_holds(e0, i);
    }
    if e.release == 0 {
        assert(spec_steps(e0, 1) == e0.spec_step());
    } else {
        lemma_release_holds(e0, (k - 1) as nat);
        assert(spec_steps(e0, k) == spec_steps(e0, (k - 1) as nat).spec_step());
    }
}

} // verus!
