use duvet::effect::Effect;
use duvet::envelope::{Envelope, EnvelopeKind, EnvelopeState};
use duvet::instrument::{Instrument, InstrumentKind};
use duvet::noise::NoiseSource;
use duvet::oscillator::{sine, Oscillator, Waveform};
use duvet::{bipolar2u8, midi2freq, HALF, UNIT};

#[test]
fn bipolar_encoding_endpoints() {
    assert_eq!(bipolar2u8(-UNIT), 0);
    assert_eq!(bipolar2u8(0), 128);
    assert_eq!(bipolar2u8(UNIT), 255);
}

#[test]
fn bipolar_encoding_clamps_out_of_range() {
    assert_eq!(bipolar2u8(i32::MIN), 0);
    assert_eq!(bipolar2u8(i32::MAX), 255);
    assert_eq!(bipolar2u8(UNIT - 1), 255);
}

#[test]
fn pitch_to_frequency_equal_temperament() {
    assert_eq!(midi2freq(69), 440000);
    assert_eq!(midi2freq(57), 220000);
    assert_eq!(midi2freq(81), 880000);
    assert_eq!(midi2freq(93), 1760000);
    // middle C, 261.625 Hz rounded down by the halving
    assert_eq!(midi2freq(60), 261625);
}

#[test]
fn sine_quarter_points() {
    assert_eq!(sine(0), 0);
    assert_eq!(sine(8192), UNIT);
    assert_eq!(sine(16384), 0);
    assert_eq!(sine(24576), -UNIT);
}

#[test]
fn square_wave_follows_duty() {
    let mut osc = Oscillator::new(Waveform::Square, 1000, 2);
    // phase 0 is below the centered duty cycle
    assert_eq!(osc.next_sample(), UNIT);
    // 1 Hz at 2 samples per second advances half a cycle per tick
    assert_eq!(osc.phase, HALF);
    assert_eq!(osc.next_sample(), -UNIT);
    assert_eq!(osc.phase, 0);
}

#[test]
fn sawtooth_and_triangle_points() {
    let mut saw = Oscillator::new(Waveform::Sawtooth, 0, 1);
    assert_eq!(saw.next_sample(), -UNIT);
    let tri = Oscillator { waveform: Waveform::Triangle, frequency: 0, phase: HALF, duty: HALF, harmonics: 50, sample_rate: 1 };
    let mut tri = tri;
    assert_eq!(tri.next_sample(), UNIT);
}

#[test]
fn oscillator_stays_in_range() {
    for waveform in [Waveform::Sine, Waveform::Square, Waveform::Triangle, Waveform::Sawtooth] {
        let mut osc = Oscillator::new(waveform, 441230, 48000);
        for _ in 0..2000 {
            let s = osc.next_sample();
            assert!(-UNIT <= s && s <= UNIT);
            assert!(0 <= osc.phase && osc.phase < UNIT);
        }
    }
}

#[test]
fn analog_sawtooth_stays_in_headroom() {
    let mut osc = Oscillator::new(Waveform::AnalogSawtooth, 441230, 48000);
    for _ in 0..2000 {
        let s = osc.next_sample();
        assert!(-duvet::HEADROOM <= s && s <= duvet::HEADROOM);
        assert!(0 <= osc.phase && osc.phase < UNIT);
    }
}

#[test]
fn linear_attack_reaches_full_scale_then_decay() {
    // 1 s segments at 10 samples per second: 10 samples each
    let mut env = Envelope::new(1000, 1000, 16384, 1000, EnvelopeKind::Linear, 10);
    assert!(matches!(env.state(), EnvelopeState::Idle));
    env.trigger();
    for k in 1..10u64 {
        let level = env.get_amplitude();
        assert_eq!(level as i64, (k as i64 * UNIT as i64) / 10);
        assert!(matches!(env.state(), EnvelopeState::Attack));
    }
    // the tenth sample completes the attack exactly once
    assert_eq!(env.get_amplitude(), UNIT);
    assert!(matches!(env.state(), EnvelopeState::Decay));
}

#[test]
fn linear_decay_then_sustain_then_release_to_idle() {
    let mut env = Envelope::new(0, 1000, 16384, 1000, EnvelopeKind::Linear, 10);
    env.trigger();
    assert_eq!(env.get_amplitude(), UNIT); // instant attack
    assert_eq!(env.get_amplitude(), UNIT - 1638); // first decay step
    for _ in 0..9 {
        env.get_amplitude();
    }
    assert!(matches!(env.state(), EnvelopeState::Sustain));
    assert_eq!(env.get_amplitude(), 16384);
    env.release();
    for _ in 1..10u64 {
        let level = env.get_amplitude();
        assert!(0 < level && level < 16384);
        assert!(matches!(env.state(), EnvelopeState::Release));
    }
    assert_eq!(env.get_amplitude(), 0);
    assert!(matches!(env.state(), EnvelopeState::Idle));
}

#[test]
fn release_from_idle_is_a_no_op() {
    let mut env = Envelope::new(100, 100, 16384, 100, EnvelopeKind::Linear, 10);
    env.release();
    assert!(matches!(env.state(), EnvelopeState::Idle));
    assert_eq!(env.get_amplitude(), 0);
}

#[test]
fn zero_duration_attack_completes_instantly() {
    let mut env = Envelope::new(0, 0, 0, 0, EnvelopeKind::Exponential, 48000);
    env.trigger();
    assert_eq!(env.get_amplitude(), UNIT);
    assert!(matches!(env.state(), EnvelopeState::Decay));
    assert_eq!(env.get_amplitude(), 0);
    assert!(matches!(env.state(), EnvelopeState::Sustain));
}

#[test]
fn exponential_attack_is_monotone_and_bounded() {
    let mut env = Envelope::new(1000, 1000, 16384, 1000, EnvelopeKind::Exponential, 100);
    env.trigger();
    let mut last = 0;
    for _ in 1..100 {
        let level = env.get_amplitude();
        assert!(last <= level && level <= UNIT);
        last = level;
    }
    assert_eq!(env.get_amplitude(), UNIT);
    assert!(matches!(env.state(), EnvelopeState::Decay));
}

#[test]
fn gain_scales_and_clamps() {
    assert_eq!(Effect::Gain(65536).apply(1000), 2000);
    assert_eq!(Effect::Gain(65536).apply(-1000), -2000);
    assert_eq!(Effect::Gain(duvet::HEADROOM).apply(duvet::HEADROOM), duvet::HEADROOM);
}

#[test]
fn hard_clip_limits() {
    assert_eq!(Effect::HardClip(1000).apply(5000), 1000);
    assert_eq!(Effect::HardClip(1000).apply(-5000), -1000);
    assert_eq!(Effect::HardClip(1000).apply(500), 500);
}

#[test]
fn infinite_clip_keeps_only_the_sign() {
    assert_eq!(Effect::InfiniteClip(12345).apply(7), 12345);
    assert_eq!(Effect::InfiniteClip(12345).apply(-7), -12345);
    assert_eq!(Effect::InfiniteClip(12345).apply(0), 12345);
}

#[test]
fn bit_crusher_quantizes() {
    // 15 bits: 16384 levels of width 2; 100 maps to 50 levels, back to 100
    assert_eq!(Effect::BitCrusher(15).apply(100), 100);
    // 1 bit: a single level of width UNIT
    assert_eq!(Effect::BitCrusher(1).apply(100), 0);
    assert_eq!(Effect::BitCrusher(1).apply(20000), UNIT);
}

#[test]
fn fangs_passes_small_signals() {
    assert_eq!(Effect::Fangs(1000).apply(999), 999);
    assert_eq!(Effect::Fangs(1000).apply(-999), -999);
    // at the threshold the fold kicks in: t * (3 - 2) / 3
    assert_eq!(Effect::Fangs(1000).apply(1000), 333);
}

#[test]
fn soft_cubic_shapes() {
    // x - x^3/3 at full scale: 32768 - floor(2^30 / 98304)
    assert_eq!(Effect::SoftCubic(UNIT).apply(UNIT), UNIT - 10922);
    assert_eq!(Effect::SoftCubic(UNIT).apply(0), 0);
}

#[test]
fn noise_is_seed_deterministic_and_bounded() {
    let mut a = NoiseSource::new(42);
    let mut b = NoiseSource::new(42);
    let mut c = NoiseSource::new(43);
    let mut all_equal = true;
    for _ in 0..100 {
        let x = a.next();
        let y = b.next();
        let z = c.next();
        assert_eq!(x, y);
        assert!(-UNIT <= x && x < UNIT);
        if x != z {
            all_equal = false;
        }
    }
    assert!(!all_equal);
}

#[test]
fn note_on_replaces_instead_of_stacking() {
    let mut lead = Instrument::lead_square(3277, 48000);
    lead.note_on(60);
    lead.note_on(60);
    assert_eq!(lead.notes.len(), 1);
    assert_eq!(lead.notes[0].0, 60);
    lead.note_on(62);
    assert_eq!(lead.notes.len(), 2);
}

#[test]
fn note_off_without_resident_note_is_a_no_op() {
    let mut lead = Instrument::lead_square(3277, 48000);
    lead.note_on(60);
    let state_before = lead.notes[0].1.state();
    lead.note_off(61);
    assert_eq!(lead.notes.len(), 1);
    assert_eq!(lead.notes[0].0, 60);
    assert_eq!(lead.notes[0].1.state(), state_before);
    lead.note_off(60);
    assert!(matches!(lead.notes[0].1.state(), EnvelopeState::Release));
}

#[test]
fn finished_voices_are_pruned_during_mixing() {
    // all segments instantaneous: one released tick reaches Idle
    let env = Envelope::new(0, 0, UNIT, 0, EnvelopeKind::Linear, 10);
    let lfo = Oscillator::new(Waveform::Sine, 1000, 10);
    let mut inst = Instrument::new(
        InstrumentKind::Melodic,
        Waveform::Square,
        lfo,
        0,
        env,
        None,
        UNIT,
        Vec::new(),
        10,
    );
    inst.note_on(60);
    assert_eq!(inst.notes.len(), 1);
    inst.next_sample();
    assert_eq!(inst.notes.len(), 1);
    inst.note_off(60);
    inst.next_sample();
    assert_eq!(inst.notes.len(), 0);
}

#[test]
fn percussive_table_accepts_only_drum_pitches() {
    let mut kit = Instrument::drum_kit(9830, 48000);
    kit.note_on(35);
    assert_eq!(kit.notes.len(), 1);
    kit.note_on(99);
    assert_eq!(kit.notes.len(), 1);
    kit.note_on(49);
    assert_eq!(kit.notes.len(), 2);
}

#[test]
fn melodic_voice_is_deterministic() {
    let mut a = Instrument::lead_sine(3277, 48000);
    let mut b = Instrument::lead_sine(3277, 48000);
    a.note_on(60);
    b.note_on(60);
    for _ in 0..200 {
        assert_eq!(a.next_sample(), b.next_sample());
    }
}

#[test]
fn exponential_attack_midpoint_value() {
    // 10-sample attack; halfway the quadratic gives
    // f = 16384, inner = 21514 + 11254 * 16384 / 32768, level = f * inner / 32768
    let mut env = Envelope::new(1000, 1000, 16384, 1000, EnvelopeKind::Exponential, 10);
    env.trigger();
    let mut level = 0;
    for _ in 0..5 {
        level = env.get_amplitude();
    }
    assert_eq!(level, 13570);
}

#[test]
fn drum_voice_carries_a_pitch_envelope() {
    let kick = duvet::drum_machine::DrumMachine::kick(48000);
    assert!(kick.freq_envelope.is_some());
    assert_eq!(kick.frequency, 90000);
    assert_eq!(kick.noise, 1638);
    let snare = duvet::drum_machine::DrumMachine::snare(48000);
    assert_eq!(snare.frequency, 220000);
    let hihat = duvet::drum_machine::DrumMachine::hihat(48000);
    assert_eq!(hihat.noise, UNIT);
    let cymbal = duvet::drum_machine::DrumMachine::cymbal(48000);
    assert_eq!(cymbal.amp_envelope.decay, 2 * 48000);
}
