//! Percussion voice presets: each drum sound is a pitched sine voice with an
//! instantly-decaying envelope that also drops the pitch (the same envelope
//! doubles as the pitch envelope), plus a noise blend for texture.

use vstd::prelude::*;

use crate::effect::Effect;
use crate::envelope::{Envelope, EnvelopeKind, EnvelopeState, MAX_SAMPLE_RATE};
use crate::note::Note;
use crate::oscillator::{Oscillator, Waveform};
use crate::HALF;

verus! {

/// The envelope every drum preset uses: no attack, a decay to silence, no
/// sustain, no release.
pub open spec fn spec_drum_envelope(decay_ms: u32, sample_rate: u32) -> Envelope {
    Envelope {
        attack: 0,
        decay: ((decay_ms as int * sample_rate as int) / 1000) as u64,
        sustain: 0,
        release: 0,
        kind: EnvelopeKind::Exponential,
        state: EnvelopeState::Idle,
        level: 0,
        time: 0,
    }
}

/// What a freshly-built drum voice looks like: a sine voice at `freq_mhz`
/// with the drum envelope both as amplitude and as pitch envelope, a noise
/// ratio, an effect list, and a fixed noise seed.
pub open spec fn is_drum_voice(
    n: Note,
    freq_mhz: u32,
    decay_ms: u32,
    noise: i32,
    effects: Seq<Effect>,
    seed: u64,
    sample_rate: u32,
) -> bool {
    &&& n.oscillator == (Oscillator {
        waveform: Waveform::Sine,
        frequency: freq_mhz,
        phase: 0,
        duty: HALF,
        harmonics: 50,
        sample_rate,
    })
    &&& n.lfo == (Oscillator {
        waveform: Waveform::Sine,
        frequency: 1000,
        phase: 0,
        duty: HALF,
        harmonics: 50,
        sample_rate,
    })
    &&& n.lfo_amplitude == 164
    &&& n.amp_envelope == spec_drum_envelope(decay_ms, sample_rate)
    &&& n.freq_envelope == Some(spec_drum_envelope(decay_ms, sample_rate))
    &&& n.effects@ == effects
    &&& n.frequency == freq_mhz
    &&& n.noise == noise
    &&& n.noise_source.state == seed
}

/// The preset drum sounds.
pub struct DrumMachine {}

impl DrumMachine {
    /// A kick: 90 Hz pitch-dropping sine, half-second decay, a little noise,
    /// driven hard.
    pub fn kick(sample_rate: u32) -> (r: Note)
        requires
            1 <= sample_rate <= MAX_SAMPLE_RATE,
        ensures
            r.wf(),
            is_drum_voice(r, 90000, 500, 1638, seq![Effect::Gain(114688)], 11, sample_rate),
    {
        let envelope = Envelope::new(0, 500, 0, 0, EnvelopeKind::Exponential, sample_rate);
        let lfo = Oscillator::new(Waveform::Sine, 1000, sample_rate);
        let effects = vec![Effect::Gain(114688)];
        proof {
            assert(effects@ =~= seq![Effect::Gain(114688)]);
        }
        Note::from_env(
            Waveform::Sine,
            90000,
            164,
            lfo,
            envelope,
            Some(envelope),
            1638,
            effects,
            11,
            sample_rate,
        )
    }

    /// A snare: 220 Hz with a strong noise blend, half-second decay.
    pub fn snare(sample_rate: u32) -> (r: Note)
        requires
            1 <= sample_rate <= MAX_SAMPLE_RATE,
        ensures
            r.wf(),
            is_drum_voice(r, 220000, 500, 13107, seq![Effect::Gain(65536)], 13, sample_rate),
    {
        let envelope = Envelope::new(0, 500, 0, 0, EnvelopeKind::Exponential, sample_rate);
        let lfo = Oscillator::new(Waveform::Sine, 1000, sample_rate);
        let effects = vec![Effect::Gain(65536)];
        proof {
            assert(effects@ =~= seq![Effect::Gain(65536)]);
        }
        Note::from_env(
            Waveform::Sine,
            220000,
            164,
            lfo,
            envelope,
            Some(envelope),
            13107,
            effects,
            13,
            sample_rate,
        )
    }

    /// A hi-hat: pure noise with a tenth-of-a-second decay.
    pub fn hihat(sample_rate: u32) -> (r: Note)
        requires
            1 <= sample_rate <= MAX_SAMPLE_RATE,
        ensures
            r.wf(),
            is_drum_voice(r, 2000000, 100, 32768, Seq::empty(), 17, sample_rate),
    {
        let envelope = Envelope::new(0, 100, 0, 0, EnvelopeKind::Exponential, sample_rate);
        let lfo = Oscillator::new(Waveform::Sine, 1000, sample_rate);
        let effects: Vec<Effect> = Vec::new();
        Note::from_env(
            Waveform::Sine,
            2000000,
            164,
            lfo,
            envelope,
            Some(envelope),
            32768,
            effects,
            17,
            sample_rate,
        )
    }

    /// A cymbal: pure noise with a two-second decay.
    pub fn cymbal(sample_rate: u32) -> (r: Note)
        requires
            1 <= sample_rate <= MAX_SAMPLE_RATE,
        ensures
            r.wf(),
            is_drum_voice(r, 2000000, 2000, 32768, Seq::empty(), 19, sample_rate),
    {
        let envelope = Envelope::new(0, 2000, 0, 0, EnvelopeKind::Exponential, sample_rate);
        let lfo = Oscillator::new(Waveform::Sine, 1000, sample_rate);
        let effects: Vec<Effect> = Vec::new();
        Note::from_env(
            Waveform::Sine,
            2000000,
            164,
            lfo,
            envelope,
            Some(envelope),
            32768,
            effects,
            19,
            sample_rate,
        )
    }
}

} // verus!
