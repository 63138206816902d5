//! A software synthesizer: oscillators, ADSR envelopes, polyphonic voice
//! management, a binary performance-file scheduler, and a sample-clock driver.
//!
//! All audio arithmetic is fixed point: one full-scale amplitude unit is
//! `UNIT`, so a bipolar sample spans `[-UNIT, UNIT]` and envelope levels span
//! `[0, UNIT]`. Frequencies are carried in millihertz and musical time in
//! microseconds, which keeps every tick-to-time conversion exact.

use vstd::prelude::*;

pub mod audio_out;
pub mod drum_machine;
pub mod effect;
pub mod envelope;
pub mod fixed;
pub mod instrument;
pub mod midi_scheduler;
pub mod noise;
pub mod note;
pub mod oscillator;
pub mod player;
pub mod synth;

verus! {

/// One full-scale amplitude unit of the fixed-point sample format.
pub const UNIT: i32 = 32768;

/// Half of a full-scale unit.
pub const HALF: i32 = 16384;

/// Mixing headroom: intermediate samples are kept within
/// `[-HEADROOM, HEADROOM]` (64 full-scale units) after every stage.
pub const HEADROOM: i32 = 2097152;

/// The unsigned 8-bit encoding of a bipolar sample: the sample is clamped to
/// `[-UNIT, UNIT]`, shifted to `[0, 2 * UNIT]`, and scaled to `[0, 255]` with
/// round-half-up.
pub open spec fn spec_bipolar2u8(sample: int) -> int {
    let s = if sample < -(UNIT as int) {
        -(UNIT as int)
    } else if sample > UNIT as int {
        UNIT as int
    } else {
        sample
    };
    ((s + UNIT) * 255 + UNIT) / (2 * UNIT as int)
}

/// Encode a bipolar fixed-point sample as the unsigned 8-bit sample the audio
/// sink expects. Full negative scale maps to 0, silence to 128, and full
/// positive scale to 255.
pub fn bipolar2u8(sample: i32) -> (r: u8)
    ensures
        r as int == spec_bipolar2u8(sample as int),
        0 <= r <= 255,
{
    let s: i32 = if sample < -UNIT {
        -UNIT
    } else if sample > UNIT {
        UNIT
    } else {
        sample
    };
    let wide: i64 = ((s as i64 + UNIT as i64) * 255 + UNIT as i64) / (2 * UNIT as i64);
    assert(0 <= wide <= 255);
    wide as u8
}

/// Frequency in millihertz of one semitone of the octave around concert A
/// (12-tone equal temperament, indices 0..11 starting at A itself).
pub open spec fn spec_semitone_mhz(sem: int) -> int {
    if sem == 0 {
        440000
    } else if sem == 1 {
        466164
    } else if sem == 2 {
        493883
    } else if sem == 3 {
        523251
    } else if sem == 4 {
        554365
    } else if sem == 5 {
        587330
    } else if sem == 6 {
        622254
    } else if sem == 7 {
        659255
    } else if sem == 8 {
        698456
    } else if sem == 9 {
        739989
    } else if sem == 10 {
        783991
    } else {
        830609
    }
}

/// Equal-temperament pitch-to-frequency map in millihertz: pitch 69 is
/// 440 Hz, and every 12 pitches double the frequency.
pub open spec fn spec_midi2freq(pitch: int) -> int {
    let n = pitch + 3;
    let t = spec_semitone_mhz(n % 12);
    let oct = n / 12;
    if oct == 6 {
        t
    } else if oct == 7 {
        t * 2
    } else if oct == 8 {
        t * 4
    } else if oct == 9 {
        t * 8
    } else if oct == 10 {
        t * 16
    } else if oct == 5 {
        t / 2
    } else if oct == 4 {
        t / 4
    } else if oct == 3 {
        t / 8
    } else if oct == 2 {
        t / 16
    } else if oct == 1 {
        t / 32
    } else {
        t / 64
    }
}

fn semitone_mhz(sem: u32) -> (r: u32)
    requires
        sem < 12,
    ensures
        r as int == spec_semitone_mhz(sem as int),
{
    if sem == 0 {
        440000
    } else if sem == 1 {
        466164
    } else if sem == 2 {
        493883
    } else if sem == 3 {
        523251
    } else if sem == 4 {
        554365
    } else if sem == 5 {
        587330
    } else if sem == 6 {
        622254
    } else if sem == 7 {
        659255
    } else if sem == 8 {
        698456
    } else if sem == 9 {
        739989
    } else if sem == 10 {
        783991
    } else {
        830609
    }
}

/// Frequency in millihertz of a 7-bit pitch number under 12-tone equal
/// temperament with pitch 69 at 440 Hz.
pub fn midi2freq(pitch: u8) -> (r: u32)
    requires
        pitch <= 127,
    ensures
        r as int == spec_midi2freq(pitch as int),
        0 < r <= 13289552,
{
    let n: u32 = pitch as u32 + 3;
    let t: u32 = semitone_mhz(n % 12);
    let oct: u32 = n / 12;
    if oct == 6 {
        t
    } else if oct == 7 {
        t * 2
    } else if oct == 8 {
        t * 4
    } else if oct == 9 {
        t * 8
    } else if oct == 10 {
        t * 16
    } else if oct == 5 {
        t / 2
    } else if oct == 4 {
        t / 4
    } else if oct == 3 {
        t / 8
    } else if oct == 2 {
        t / 16
    } else if oct == 1 {
        t / 32
    } else {
        t / 64
    }
}

} // verus!
