//! One sounding voice: an oscillator pitched by a base frequency, modulated
//! by a low-frequency oscillator and optionally by a pitch envelope, blended
//! with noise, shaped by an effect chain, and scaled by an amplitude
//! envelope.

use vstd::prelude::*;

use crate::effect::{spec_chain, wf_effects, Effect};
use crate::envelope::{Envelope, EnvelopeState};
use crate::fixed::{lemma_mul_bounds, lemma_mul_div_le, lemma_tdiv_abs_le, spec_clamp, spec_tdiv};
use crate::noise::{spec_noise_of, spec_scramble, NoiseSource};
use crate::oscillator::{Oscillator, Waveform};
use crate::{HEADROOM, UNIT};

verus! {

/// A single sounding occurrence of a pitch.
#[derive(Debug)]
pub struct Note {
    /// The audible oscillator.
    pub oscillator: Oscillator,
    /// Pitch-modulating low-frequency oscillator.
    pub lfo: Oscillator,
    /// Vibrato depth in `[0, UNIT]`.
    pub lfo_amplitude: i32,
    /// Amplitude envelope; its reaching Idle ends the voice.
    pub amp_envelope: Envelope,
    /// Optional pitch envelope (used for pitch-drop percussion).
    pub freq_envelope: Option<Envelope>,
    /// Waveshaping chain, applied in order.
    pub effects: Vec<Effect>,
    /// Base frequency in millihertz.
    pub frequency: u32,
    /// Noise mix ratio in `[0, UNIT]`: 0 is pure tone, `UNIT` pure noise.
    pub noise: i32,
    /// The voice's own deterministic noise generator.
    pub noise_source: NoiseSource,
}

impl Note {
    /// Structural invariant of every component.
    pub open spec fn wf(self) -> bool {
        &&& self.oscillator.wf()
        &&& self.lfo.wf()
        &&& self.amp_envelope.wf()
        &&& match self.freq_envelope {
            Some(env) => env.wf(),
            None => true,
        }
        &&& wf_effects(self.effects@)
        &&& 0 <= self.lfo_amplitude <= UNIT
        &&& 0 <= self.noise <= UNIT
    }

    /// The base frequency after the optional pitch envelope's level (the
    /// level of this tick, i.e. of the stepped envelope) has scaled it.
    pub open spec fn spec_freq_scaled(self) -> int {
        match self.freq_envelope {
            Some(env) => (self.frequency as int * env.spec_step().level) / (UNIT as int),
            None => self.frequency as int,
        }
    }

    /// The vibrato factor for this tick: `1 + lfo * depth`, kept
    /// nonnegative and at most double.
    pub open spec fn spec_lfo_factor(self) -> int {
        spec_clamp(
            UNIT + spec_tdiv(self.lfo.spec_sample() * self.lfo_amplitude, UNIT as int),
            0,
            2 * UNIT,
        )
    }

    /// The frequency handed to the oscillator this tick.
    pub open spec fn spec_new_frequency(self) -> int {
        spec_clamp((self.spec_freq_scaled() * self.spec_lfo_factor()) / (UNIT as int), 0, 0xffffffff)
    }

    /// The sample this voice produces this tick: oscillator output blended
    /// with noise by the mix ratio, shaped by the effect chain, scaled by
    /// the amplitude envelope's level.
    pub open spec fn spec_sample(self) -> int {
        let amp = self.amp_envelope.spec_step().level as int;
        let osc_s = self.oscillator.spec_sample();
        let nz = spec_noise_of(spec_scramble(self.noise_source.state));
        let blended = spec_tdiv(
            (UNIT - self.noise) * osc_s + self.noise * nz,
            UNIT as int,
        );
        let shaped = spec_chain(self.effects@, blended);
        spec_tdiv(shaped * amp, UNIT as int)
    }

    /// The voice after one tick: both oscillators advanced (the audible one
    /// at the newly modulated frequency), both envelopes advanced, the noise
    /// generator scrambled.
    pub open spec fn spec_step(self) -> Note {
        Note {
            oscillator: (Oscillator {
                frequency: self.spec_new_frequency() as u32,
                ..self.oscillator
            }).spec_step(),
            lfo: self.lfo.spec_step(),
            amp_envelope: self.amp_envelope.spec_step(),
            freq_envelope: match self.freq_envelope {
                Some(env) => Some(env.spec_step()),
                None => None,
            },
            noise_source: NoiseSource { state: spec_scramble(self.noise_source.state) },
            ..self
        }
    }

    /// The voice after `note_on`: both envelopes retriggered.
    pub open spec fn spec_note_on(self) -> Note {
        Note {
            amp_envelope: self.amp_envelope.spec_triggered(),
            freq_envelope: match self.freq_envelope {
                Some(env) => Some(env.spec_triggered()),
                None => None,
            },
            ..self
        }
    }

    /// The voice after `note_off`: both envelopes released.
    pub open spec fn spec_note_off(self) -> Note {
        Note {
            amp_envelope: self.amp_envelope.spec_released(),
            freq_envelope: match self.freq_envelope {
                Some(env) => Some(env.spec_released()),
                None => None,
            },
            ..self
        }
    }

    /// One tick keeps a voice well formed.
    pub proof fn lemma_step_wf(self)
        requires
            self.wf(),
        ensures
            self.spec_step().wf(),
    {
        crate::oscillator::lemma_osc_step_wf(
            Oscillator { frequency: self.spec_new_frequency() as u32, ..self.oscillator },
        );
        crate::oscillator::lemma_osc_step_wf(self.lfo);
        crate::envelope::lemma_env_step_wf(self.amp_envelope);
        match self.freq_envelope {
            Some(env) => crate::envelope::lemma_env_step_wf(env),
            None => {},
        }
    }

    /// Build a voice from a timbre: waveform and base frequency for the
    /// audible oscillator, a ready-made LFO and envelope templates, a noise
    /// ratio and seed, and an effect chain.
    pub fn from_env(
        waveform: Waveform,
        frequency: u32,
        lfo_amplitude: i32,
        lfo: Oscillator,
        amp_envelope: Envelope,
        freq_envelope: Option<Envelope>,
        noise: i32,
        effects: Vec<Effect>,
        noise_seed: u64,
        sample_rate: u32,
    ) -> (r: Note)
        requires
            lfo.wf(),
            amp_envelope.wf(),
            match freq_envelope {
                Some(env) => env.wf(),
                None => true,
            },
            wf_effects(effects@),
            0 <= lfo_amplitude <= UNIT,
            0 <= noise <= UNIT,
            sample_rate >= 1,

        ensures
            r.wf(),
            r.oscillator == (Oscillator {
                waveform,
                frequency,
                phase: 0,
                duty: crate::HALF,
                harmonics: 50,
                sample_rate,
            }),
            r.lfo == lfo,
            r.lfo_amplitude == lfo_amplitude,
            r.amp_envelope == amp_envelope,
            r.freq_envelope == freq_envelope,
            r.effects == effects,
            r.frequency == frequency,
            r.noise == noise,
            r.noise_source.state == if noise_seed == 0 {
                crate::noise::SEED_FALLBACK
            } else {
                noise_seed
            },
    {
        Note {
            oscillator: Oscillator::new(waveform, frequency, sample_rate),
            lfo,
            lfo_amplitude,
            amp_envelope,
            freq_envelope,
            effects,
            frequency,
            noise,
            noise_source: NoiseSource::new(noise_seed),
        }
    }

    /// The amplitude envelope's phase; Idle means the voice is spent.
    pub fn state(&self) -> (r: EnvelopeState)
        ensures
            r == self.amp_envelope.state,
    {
        self.amp_envelope.state()
    }

    /// Start (or restart) the voice: trigger both envelopes.
    pub fn note_on(&mut self)
        ensures
            *final(self) == old(self).spec_note_on(),
    {
        self.amp_envelope.trigger();
        match &mut self.freq_envelope {
            Some(env) => {
                env.trigger();
            },
            None => {},
        }
    }

    /// Release the voice: release both envelopes.
    pub fn note_off(&mut self)
        ensures
            *final(self) == old(self).spec_note_off(),
    {
        self.amp_envelope.release();
        match &mut self.freq_envelope {
            Some(env) => {
                env.release();
            },
            None => {},
        }
    }

    /// Produce one sample and advance every component by one tick.
    pub fn next_sample(&mut self) -> (r: i32)
        requires
            old(self).wf(),
        ensures
            final(self).wf(),
            *final(self) == old(self).spec_step(),
            r as int == old(self).spec_sample(),
            -HEADROOM <= r <= HEADROOM,
    {
        let amplitude: i32 = self.amp_envelope.get_amplitude();
        let lfo_value: i32 = self.lfo.next_sample();

        let mut freq: u64 = self.frequency as u64;
        match &mut self.freq_envelope {
            Some(env) => {
                let level: i32 = env.get_amplitude();
                proof {
                    lemma_mul_div_le(freq as int, level as int, UNIT as int);
                }
                freq = (freq * level as u64) / (UNIT as u64);
            },
            None => {},
        }

        proof {
            lemma_mul_bounds(
                if lfo_value >= 0 { lfo_value as int } else { -(lfo_value as int) },
                self.lfo_amplitude as int,
                HEADROOM as int,
                UNIT as int,
            );
            assert(lfo_value as int * self.lfo_amplitude as int == -((-(lfo_value as int))
                * self.lfo_amplitude as int)) by (nonlinear_arith);
            lemma_tdiv_abs_le(
                lfo_value as int * self.lfo_amplitude as int,
                UNIT as int,
                HEADROOM as int,
            );
        }
        let vib: i64 = crate::fixed::tdiv64(lfo_value as i64 * self.lfo_amplitude as i64, UNIT as i64);
        let factor: i64 = crate::fixed::clamp64(UNIT as i64 + vib, 0, 2 * UNIT as i64);

        proof {
            lemma_mul_bounds(freq as int, factor as int, 0xffffffff, 2 * UNIT as int);
        }
        let scaled: u64 = (freq * factor as u64) / (UNIT as u64);
        let new_freq: u32 = if scaled > 0xffffffff {
            0xffffffffu32
        } else {
            scaled as u32
        };
        self.oscillator.set_frequency(new_freq);
        let osc_sample: i32 = self.oscillator.next_sample();

        let nz: i32 = self.noise_source.next();

        proof {
            assert((UNIT - self.noise) as int * osc_sample as int + self.noise as int * nz as int
                <= UNIT as int * HEADROOM as int && (UNIT - self.noise) as int * osc_sample as int
                + self.noise as int * nz as int >= -(UNIT as int * HEADROOM as int) && -(
            0x1000000000 as int) <= (UNIT - self.noise) as int * osc_sample as int
                <= 0x1000000000 && -(0x40000000 as int) <= self.noise as int * nz as int
                <= 0x40000000) by (nonlinear_arith)
                requires
                    0 <= (self.noise as int) <= UNIT as int,
                    -(HEADROOM as int) <= osc_sample as int <= HEADROOM as int,
                    -(UNIT as int) <= nz as int <= UNIT as int,
                    UNIT == 32768,
                    HEADROOM == 2097152;
            lemma_tdiv_abs_le(
                (UNIT - self.noise) as int * osc_sample as int + self.noise as int * nz as int,
                UNIT as int,
                HEADROOM as int,
            );
        }
        let mixed: i64 = crate::fixed::tdiv64(
            (UNIT - self.noise) as i64 * osc_sample as i64 + self.noise as i64 * nz as i64,
            UNIT as i64,
        );
        let shaped: i32 = crate::effect::apply_chain(&self.effects, mixed as i32);

        proof {
            lemma_mul_bounds(
                if shaped >= 0 { shaped as int } else { -(shaped as int) },
                amplitude as int,
                HEADROOM as int,
                UNIT as int,
            );
            assert(shaped as int * amplitude as int == -((-(shaped as int)) * amplitude as int))
                by (nonlinear_arith);
            lemma_tdiv_abs_le(shaped as int * amplitude as int, UNIT as int, HEADROOM as int);
        }
        let out: i64 = crate::fixed::tdiv64(shaped as i64 * amplitude as i64, UNIT as i64);
        out as i32
    }
}

} // verus!
