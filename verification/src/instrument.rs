//! One timbre's voice manager: owns every note currently sounding for that
//! timbre, creates a voice on note-on (replacing any voice already at that
//! pitch), releases on note-off, and mixes all voices each tick while
//! pruning the ones whose amplitude envelope has gone Idle.

use vstd::prelude::*;
use vstd::pervasive::VecAdditionalExecFns;

use crate::drum_machine::{is_drum_voice, DrumMachine};
use crate::effect::{wf_effects, Effect};
use crate::envelope::{Envelope, EnvelopeKind, EnvelopeState, MAX_SAMPLE_RATE, MAX_SEGMENT_MS};
use crate::fixed::{lemma_mul_bounds, lemma_tdiv_abs_le, spec_clamp, spec_tdiv};
use crate::note::Note;
use crate::oscillator::{Oscillator, Waveform};
use crate::{midi2freq, spec_midi2freq, HALF, HEADROOM, UNIT};

verus! {

/// How an instrument maps pitches to voices.
#[derive(Clone, Copy, Debug, PartialEq, Eq, Structural)]
pub enum InstrumentKind {
    /// Equal-temperament pitched voices built from the timbre template.
    Melodic,
    /// A fixed drum-table mapping; pitches outside the table are ignored.
    Percussive,
}

/// Voice-allocation policies an instrument may advertise; the engine mixes
/// polyphonically.
#[derive(Clone, Copy, Debug, PartialEq, Eq, Structural)]
pub enum InstrumentMode {
    Legato,
    Monophonic,
    Polyphonic,
}

/// No two entries of a keyed list share a key.
pub open spec fn keys_unique<T>(s: Seq<(u8, T)>) -> bool {
    forall|i: int, j: int|
        0 <= i < j < s.len() ==> (#[trigger] s[i]).0 != (#[trigger] s[j]).0
}

/// Some entry of a keyed list has this key.
pub open spec fn has_key<T>(s: Seq<(u8, T)>, key: u8) -> bool {
    exists|i: int| 0 <= i < s.len() && (#[trigger] s[i]).0 == key
}

/// Every resident voice is well formed.
pub open spec fn notes_wf(s: Seq<(u8, Note)>) -> bool {
    forall|i: int| 0 <= i < s.len() ==> (#[trigger] s[i]).1.wf()
}

/// The resident list after one mixing pass: every voice stepped, and the
/// voices whose amplitude envelope has reached Idle removed, in order.
pub open spec fn spec_live(s: Seq<(u8, Note)>) -> Seq<(u8, Note)>
    decreases s.len(),
{
    if s.len() == 0 {
        Seq::empty()
    } else {
        let rest = spec_live(s.drop_last());
        let stepped = (s.last().0, s.last().1.spec_step());
        if stepped.1.amp_envelope.state == EnvelopeState::Idle {
            rest
        } else {
            rest.push(stepped)
        }
    }
}

/// The sum of the samples every resident voice produces this tick.
pub open spec fn spec_mix_sum(s: Seq<(u8, Note)>) -> int
    decreases s.len(),
{
    if s.len() == 0 {
        0
    } else {
        spec_mix_sum(s.drop_last()) + s.last().1.spec_sample()
    }
}

/// Pruning keeps pitches unique and voices well formed, never adds a pitch,
/// and never grows the list.
pub proof fn lemma_live_keys(s: Seq<(u8, Note)>)
    requires
        keys_unique(s),
        notes_wf(s),
    ensures
        keys_unique(spec_live(s)),
        notes_wf(spec_live(s)),
        spec_live(s).len() <= s.len(),
        forall|q: u8| has_key(spec_live(s), q) ==> has_key(s, q),
    decreases s.len(),
{
    if s.len() > 0 {
        let dl = s.drop_last();
        assert(keys_unique(dl));
        assert(notes_wf(dl));
        lemma_live_keys(dl);
        let rest = spec_live(dl);
        let stepped = (s.last().0, s.last().1.spec_step());
        assert forall|q: u8| has_key(rest, q) implies has_key(dl, q) by {};
        assert forall|q: u8| has_key(dl, q) implies has_key(s, q) by {
            let i = choose|i: int| 0 <= i < dl.len() && dl[i].0 == q;
            assert(s[i].0 == q);
        }
        if stepped.1.amp_envelope.state != EnvelopeState::Idle {
            assert(!has_key(rest, s.last().0)) by {
                if has_key(rest, s.last().0) {
                    let i = choose|i: int| 0 <= i < dl.len() && dl[i].0 == s.last().0;
                    assert(s[i].0 == s[s.len() - 1].0);
                }
            }
            assert(s.last().1.wf());
            assert(stepped.1.wf()) by {
                s.last().1.lemma_step_wf();
            }
            assert forall|q: u8| has_key(rest.push(stepped), q) implies has_key(s, q) by {
                let i = choose|i: int|
                    0 <= i < rest.push(stepped).len() && rest.push(stepped)[i].0 == q;
                if i < rest.len() {
                    assert(has_key(rest, q));
                } else {
                    assert(s[s.len() - 1].0 == q);
                }
            }
        }
    }
}

/// Distinct 8-bit keys bound the length of a keyed list by 256.
pub proof fn lemma_unique_keys_len<T>(s: Seq<(u8, T)>)
    requires
        keys_unique(s),
    ensures
        s.len() <= 256,
{
    let ikeys = Seq::new(s.len(), |i: int| s[i].0 as int);
    assert(ikeys.no_duplicates());
    ikeys.unique_seq_to_set();
    let range = vstd::set_lib::set_int_range(0, 256);
    vstd::set_lib::lemma_int_range(0, 256);
    assert(ikeys.to_set().subset_of(range)) by {
        assert forall|k: int| ikeys.to_set().contains(k) implies range.contains(k) by {
            let i = choose|i: int| 0 <= i < ikeys.len() && ikeys[i] == k;
        }
    }
    vstd::set_lib::lemma_len_subset(ikeys.to_set(), range);
}

/// A timbre and the set of its sounding voices, at most one per pitch.
pub struct Instrument {
    /// Melodic or percussive pitch mapping.
    pub kind: InstrumentKind,
    /// Waveform of melodic voices.
    pub waveform: Waveform,
    /// Vibrato oscillator template.
    pub lfo: Oscillator,
    /// Vibrato depth in `[0, UNIT]`.
    pub lfo_amplitude: i32,
    /// Amplitude envelope template.
    pub envelope: Envelope,
    /// Optional pitch envelope template.
    pub freq_envelope: Option<Envelope>,
    /// Effect chain template.
    pub effects: Vec<Effect>,
    /// Output volume in `[0, UNIT]`.
    pub volume: i32,
    /// Output sample rate in Hz.
    pub sample_rate: u32,
    /// Sounding voices, keyed by pitch; pitches are unique.
    pub notes: Vec<(u8, Note)>,
}

impl Instrument {
    /// Structural invariant: the templates are well formed and the resident
    /// voices have unique pitches.
    pub open spec fn wf(self) -> bool {
        &&& self.lfo.wf()
        &&& self.envelope.wf()
        &&& match self.freq_envelope {
            Some(env) => env.wf(),
            None => true,
        }
        &&& wf_effects(self.effects@)
        &&& 0 <= self.lfo_amplitude <= UNIT
        &&& 0 <= self.volume <= UNIT
        &&& 1 <= self.sample_rate <= MAX_SAMPLE_RATE
        &&& keys_unique(self.notes@)
        &&& notes_wf(self.notes@)
    }

    /// What a freshly-created melodic voice for `pitch` looks like, before
    /// it is triggered: the timbre template pitched at the equal-temperament
    /// frequency, without noise, seeded by the pitch.
    pub open spec fn is_fresh_voice(self, pitch: u8, n: Note) -> bool {
        &&& n.oscillator == (Oscillator {
            waveform: self.waveform,
            frequency: spec_midi2freq(pitch as int) as u32,
            phase: 0,
            duty: HALF,
            harmonics: 50,
            sample_rate: self.sample_rate,
        })
        &&& n.lfo == self.lfo
        &&& n.lfo_amplitude == self.lfo_amplitude
        &&& n.amp_envelope == self.envelope
        &&& n.freq_envelope == self.freq_envelope
        &&& n.effects@ == self.effects@
        &&& n.frequency == spec_midi2freq(pitch as int) as u32
        &&& n.noise == 0
        &&& n.noise_source.state == pitch as u64 + 1
    }

    /// The voice that note-on at `pitch` makes resident, described by what
    /// it is built from and that it has been triggered.
    pub open spec fn is_started_voice(self, pitch: u8, n: Note) -> bool {
        if self.kind == InstrumentKind::Melodic {
            exists|fresh: Note| self.is_fresh_voice(pitch, fresh) && n == fresh.spec_note_on()
        } else {
            exists|fresh: Note|
                spec_drum_for_pitch(pitch, self.sample_rate, fresh) && n == fresh.spec_note_on()
        }
    }

    /// Whether note-on at `pitch` creates a voice at all: always for a
    /// melodic instrument, only for the drum table's pitches otherwise.
    pub open spec fn spec_accepts(self, pitch: u8) -> bool {
        self.kind == InstrumentKind::Melodic || spec_is_drum_pitch(pitch)
    }

    /// How `note_on` changes an instrument: nothing for an unmapped
    /// percussive pitch; otherwise a started voice replaces any voice at the
    /// pitch (or is appended), and nothing else changes. Afterwards exactly
    /// one voice is resident at the pitch: replacement, never stacking.
    pub open spec fn spec_note_on_rel(pre: Instrument, post: Instrument, pitch: u8) -> bool {
        if !pre.spec_accepts(pitch) {
            post == pre
        } else {
            &&& has_key(post.notes@, pitch)
            &&& keys_unique(post.notes@)
            &&& exists|n: Note|
                {
                    &&& pre.is_started_voice(pitch, n)
                    &&& if has_key(pre.notes@, pitch) {
                        exists|i: int|
                            0 <= i < pre.notes@.len() && pre.notes@[i].0 == pitch && post.notes@
                                == pre.notes@.update(i, (pitch, n))
                    } else {
                        post.notes@ == pre.notes@.push((pitch, n))
                    }
                }
            &&& post == (Instrument { notes: post.notes, ..pre })
        }
    }

    /// How `note_off` changes an instrument: a no-op without a resident
    /// voice at the pitch, else that one voice is released in place.
    pub open spec fn spec_note_off_rel(pre: Instrument, post: Instrument, pitch: u8) -> bool {
        if !has_key(pre.notes@, pitch) {
            post == pre
        } else {
            exists|i: int|
                {
                    &&& 0 <= i < pre.notes@.len()
                    &&& pre.notes@[i].0 == pitch
                    &&& post.notes@ == pre.notes@.update(
                        i,
                        (pitch, pre.notes@[i].1.spec_note_off()),
                    )
                    &&& post == (Instrument { notes: post.notes, ..pre })
                }
        }
    }

    /// How one mixing pass changes an instrument: the resident voices are
    /// stepped and pruned, and nothing else changes.
    pub open spec fn spec_mix_rel(pre: Instrument, post: Instrument) -> bool {
        &&& post.notes@ == spec_live(pre.notes@)
        &&& post == (Instrument { notes: post.notes, ..pre })
    }

    /// The sample one mixing pass produces: the voices' sum scaled by the
    /// volume and clamped into the mixing headroom.
    pub open spec fn spec_out_sample(self) -> int {
        spec_clamp(
            spec_tdiv(spec_mix_sum(self.notes@) * self.volume as int, UNIT as int),
            -(HEADROOM as int),
            HEADROOM as int,
        )
    }

    /// Build an instrument from a full timbre template, with no voice
    /// sounding.
    pub fn new(
        kind: InstrumentKind,
        waveform: Waveform,
        lfo: Oscillator,
        lfo_amplitude: i32,
        envelope: Envelope,
        freq_envelope: Option<Envelope>,
        volume: i32,
        effects: Vec<Effect>,
        sample_rate: u32,
    ) -> (r: Instrument)
        requires
            lfo.wf(),
            envelope.wf(),
            match freq_envelope {
                Some(env) => env.wf(),
                None => true,
            },
            wf_effects(effects@),
            0 <= lfo_amplitude <= UNIT,
            0 <= volume <= UNIT,
            1 <= sample_rate <= MAX_SAMPLE_RATE,
        ensures
            r.wf(),
            r.kind == kind,
            r.waveform == waveform,
            r.lfo == lfo,
            r.lfo_amplitude == lfo_amplitude,
            r.envelope == envelope,
            r.freq_envelope == freq_envelope,
            r.effects@ == effects@,
            r.volume == volume,
            r.sample_rate == sample_rate,
            r.notes@.len() == 0,
    {
        Instrument {
            kind,
            waveform,
            lfo,
            lfo_amplitude,
            envelope,
            freq_envelope,
            effects,
            volume,
            sample_rate,
            notes: Vec::new(),
        }
    }

    /// Change the output volume.
    pub fn set_volume(&mut self, volume: i32)
        requires
            0 <= volume <= UNIT,
        ensures
            *final(self) == (Instrument { volume, ..*old(self) }),
    {
        self.volume = volume;
    }

    /// Start a voice at `pitch`, replacing any voice already resident there:
    /// afterwards exactly one voice is resident at `pitch`. A percussive
    /// instrument maps the pitch through the drum table and silently ignores
    /// pitches outside it.
    pub fn note_on(&mut self, pitch: u8)
        requires
            old(self).wf(),
            pitch < 128,
        ensures
            final(self).wf(),
            Instrument::spec_note_on_rel(*old(self), *final(self), pitch),
    {
        let mut note: Note;
        match self.kind {
            InstrumentKind::Melodic => {
                let frequency = midi2freq(pitch);
                let effects = clone_effects(&self.effects);
                note = Note::from_env(
                    self.waveform,
                    frequency,
                    self.lfo_amplitude,
                    self.lfo,
                    self.envelope,
                    self.freq_envelope,
                    0,
                    effects,
                    pitch as u64 + 1,
                    self.sample_rate,
                );
                proof {
                    assert(self.is_fresh_voice(pitch, note));
                }
            },
            InstrumentKind::Percussive => {
                match pitch {
                    35 | 36 | 43 => {
                        note = DrumMachine::kick(self.sample_rate);
                    },
                    40 | 45 | 47 => {
                        note = DrumMachine::snare(self.sample_rate);
                    },
                    44 | 46 | 53 => {
                        note = DrumMachine::hihat(self.sample_rate);
                    },
                    49 | 52 | 57 => {
                        note = DrumMachine::cymbal(self.sample_rate);
                    },
                    _ => {
                        return ;
                    },
                }
                proof {
                    assert(spec_drum_for_pitch(pitch, self.sample_rate, note));
                }
            },
        }
        let ghost fresh = note;
        note.note_on();
        proof {
            assert(old(self).is_started_voice(pitch, note)) by {
                assert(note == fresh.spec_note_on());
            }
        }
        upsert(&mut self.notes, pitch, note);
    }

    /// Release the voice resident at `pitch`; a pitch with no resident voice
    /// is silently a no-op.
    pub fn note_off(&mut self, pitch: u8)
        requires
            old(self).wf(),
        ensures
            final(self).wf(),
            Instrument::spec_note_off_rel(*old(self), *final(self), pitch),
    {
        let n = self.notes.len();
        let mut i: usize = 0;
        while i < n
            invariant
                old(self).wf(),
                n == self.notes@.len(),
                0 <= i <= n,
                *self == *old(self),
                forall|j: int| 0 <= j < i ==> (#[trigger] self.notes@[j]).0 != pitch,
            decreases n - i,
        {
            if self.notes[i].0 == pitch {
                self.notes[i].1.note_off();
                proof {
                    let orig = old(self).notes@;
                    assert(self.notes@ =~= orig.update(
                        i as int,
                        (pitch, orig[i as int].1.spec_note_off()),
                    ));
                    assert(keys_unique(self.notes@)) by {
                        assert(forall|a: int|
                            0 <= a < self.notes@.len() && a != i ==> (#[trigger] self.notes@[a])
                                == orig[a]);
                    }
                    assert(notes_wf(self.notes@)) by {
                        assert(forall|a: int|
                            0 <= a < self.notes@.len() && a != i ==> (#[trigger] self.notes@[a])
                                == orig[a]);
                    }
                }
                return ;
            }
            i = i + 1;
        }
        proof {
            assert(!has_key(self.notes@, pitch));
        }
    }

    /// One mixing pass: every resident voice contributes one sample, voices
    /// that finished are removed in the same pass, and the sum is scaled by
    /// the instrument volume and clamped into the mixing headroom.
    pub fn next_sample(&mut self) -> (r: i32)
        requires
            old(self).wf(),
        ensures
            final(self).wf(),
            Instrument::spec_mix_rel(*old(self), *final(self)),
            r as int == old(self).spec_out_sample(),
            -HEADROOM <= r <= HEADROOM,
    {
        let ghost orig = self.notes@;
        proof {
            lemma_unique_keys_len(orig);
        }
        let mut work: Vec<(u8, Note)> = Vec::new();
        core::mem::swap(&mut work, &mut self.notes);
        let mut acc: i64 = 0;
        let ghost mut i: int = 0;
        while work.len() > 0
            invariant
                0 <= i <= orig.len() <= 256,
                work@ == orig.skip(i),
                self.notes@ == spec_live(orig.take(i)),
                acc == spec_mix_sum(orig.take(i)),
                -(i * HEADROOM) <= acc <= i * HEADROOM,
                keys_unique(orig),
                notes_wf(orig),
                self.wf(),
                self.volume == old(self).volume,
                *self == (Instrument { notes: self.notes, ..*old(self) }),
            decreases work@.len(),
        {
            let (p, mut note) = work.remove(0);
            proof {
                assert(orig.skip(i)[0] == orig[i]);
                assert(note.wf());
            }
            let s = note.next_sample();
            acc = acc + s as i64;
            let live = !matches!(note.state(), EnvelopeState::Idle);
            if live {
                self.notes.push((p, note));
            }
            proof {
                assert(work@ =~= orig.skip(i + 1));
                assert(orig.take(i + 1).drop_last() =~= orig.take(i));
                assert(orig.take(i + 1).last() == orig[i]);
                lemma_live_keys(orig.take(i + 1));
                assert(keys_unique(orig.take(i + 1)));
                assert(notes_wf(orig.take(i + 1)));
                assert(self.notes@ == spec_live(orig.take(i + 1)));
                i = i + 1;
            }
        }
        proof {
            assert(orig.take(orig.len() as int) =~= orig);
            lemma_mul_bounds(
                if acc >= 0 {
                    acc as int
                } else {
                    -(acc as int)
                },
                self.volume as int,
                256 * HEADROOM as int,
                UNIT as int,
            );
            assert(acc as int * self.volume as int == -((-(acc as int)) * self.volume as int))
                by (nonlinear_arith);
            lemma_tdiv_abs_le(
                acc as int * self.volume as int,
                UNIT as int,
                256 * HEADROOM as int,
            );
        }
        let scaled: i64 = crate::fixed::tdiv64(acc * self.volume as i64, UNIT as i64);
        crate::fixed::clamp64(scaled, -(HEADROOM as i64), HEADROOM as i64) as i32
    }
}

/// The amplitude envelope every lead preset uses: 30 ms attack, 100 ms
/// decay to a 0.7 sustain, 600 ms release, exponential curves.
pub open spec fn spec_lead_envelope(sample_rate: u32) -> Envelope {
    Envelope {
        attack: ((30 * sample_rate as int) / 1000) as u64,
        decay: ((100 * sample_rate as int) / 1000) as u64,
        sustain: 22938,
        release: ((600 * sample_rate as int) / 1000) as u64,
        kind: EnvelopeKind::Exponential,
        state: EnvelopeState::Idle,
        level: 0,
        time: 0,
    }
}

/// The vibrato oscillator every preset uses: a 5 Hz sine.
pub open spec fn spec_preset_lfo(sample_rate: u32) -> Oscillator {
    Oscillator {
        waveform: Waveform::Sine,
        frequency: 5000,
        phase: 0,
        duty: HALF,
        harmonics: 50,
        sample_rate,
    }
}

/// What a lead preset looks like: a melodic instrument over the shared lead
/// envelope and vibrato oscillator, with its own waveform, vibrato depth
/// and effect chain, no pitch envelope, and no voice sounding yet.
pub open spec fn is_lead_preset(
    i: Instrument,
    waveform: Waveform,
    lfo_amplitude: i32,
    effects: Seq<Effect>,
    volume: i32,
    sample_rate: u32,
) -> bool {
    &&& i.kind == InstrumentKind::Melodic
    &&& i.waveform == waveform
    &&& i.lfo == spec_preset_lfo(sample_rate)
    &&& i.lfo_amplitude == lfo_amplitude
    &&& i.envelope == spec_lead_envelope(sample_rate)
    &&& i.freq_envelope is None
    &&& i.effects@ == effects
    &&& i.volume == volume
    &&& i.sample_rate == sample_rate
    &&& i.notes@.len() == 0
}

/// What the percussion kit preset looks like: a percussive instrument (its
/// melodic timbre template is inert) with no voice sounding yet.
pub open spec fn is_drum_kit_preset(i: Instrument, volume: i32, sample_rate: u32) -> bool {
    &&& i.kind == InstrumentKind::Percussive
    &&& i.waveform == Waveform::Triangle
    &&& i.lfo == spec_preset_lfo(sample_rate)
    &&& i.lfo_amplitude == 164
    &&& i.envelope == (Envelope {
        attack: 0,
        decay: 0,
        sustain: 0,
        release: 0,
        kind: EnvelopeKind::Exponential,
        state: EnvelopeState::Idle,
        level: 0,
        time: 0,
    })
    &&& i.freq_envelope is None
    &&& i.effects@ == Seq::<Effect>::empty()
    &&& i.volume == volume
    &&& i.sample_rate == sample_rate
    &&& i.notes@.len() == 0
}

impl Instrument {
    /// A square-wave lead with vibrato and an exponential envelope.
    pub fn lead_square(volume: i32, sample_rate: u32) -> (r: Instrument)
        requires
            0 <= volume <= UNIT,
            1 <= sample_rate <= MAX_SAMPLE_RATE,
        ensures
            r.wf(),
            is_lead_preset(r, Waveform::Square, 262, Seq::empty(), volume, sample_rate),
    {
        let envelope = Envelope::new(30, 100, 22938, 600, EnvelopeKind::Exponential, sample_rate);
        let lfo = Oscillator::new(Waveform::Sine, 5000, sample_rate);
        Instrument::new(
            InstrumentKind::Melodic,
            Waveform::Square,
            lfo,
            262,
            envelope,
            None,
            volume,
            Vec::new(),
            sample_rate,
        )
    }

    /// A driven sine lead.
    pub fn lead_sine(volume: i32, sample_rate: u32) -> (r: Instrument)
        requires
            0 <= volume <= UNIT,
            1 <= sample_rate <= MAX_SAMPLE_RATE,
        ensures
            r.wf(),
            is_lead_preset(r, Waveform::Sine, 328, seq![Effect::Gain(163840)], volume, sample_rate),
    {
        let envelope = Envelope::new(30, 100, 22938, 600, EnvelopeKind::Exponential, sample_rate);
        let lfo = Oscillator::new(Waveform::Sine, 5000, sample_rate);
        let mut effects: Vec<Effect> = Vec::new();
        effects.push(Effect::Gain(163840));
        proof {
            assert(effects@ =~= seq![Effect::Gain(163840)]);
        }
        Instrument::new(
            InstrumentKind::Melodic,
            Waveform::Sine,
            lfo,
            328,
            envelope,
            None,
            volume,
            effects,
            sample_rate,
        )
    }

    /// A clipped band-limited-style sawtooth lead.
    pub fn lead_sawtooth(volume: i32, sample_rate: u32) -> (r: Instrument)
        requires
            0 <= volume <= UNIT,
            1 <= sample_rate <= MAX_SAMPLE_RATE,
        ensures
            r.wf(),
            is_lead_preset(
                r,
                Waveform::Sawtooth,
                164,
                seq![Effect::Gain(131072), Effect::HardClip(32768)],
                volume,
                sample_rate,
            ),
    {
        let envelope = Envelope::new(30, 100, 22938, 600, EnvelopeKind::Exponential, sample_rate);
        let lfo = Oscillator::new(Waveform::Sine, 5000, sample_rate);
        let mut effects: Vec<Effect> = Vec::new();
        effects.push(Effect::Gain(131072));
        effects.push(Effect::HardClip(32768));
        proof {
            assert(effects@ =~= seq![Effect::Gain(131072), Effect::HardClip(32768)]);
        }
        Instrument::new(
            InstrumentKind::Melodic,
            Waveform::Sawtooth,
            lfo,
            164,
            envelope,
            None,
            volume,
            effects,
            sample_rate,
        )
    }

    /// A triangle lead.
    pub fn lead_triangle(volume: i32, sample_rate: u32) -> (r: Instrument)
        requires
            0 <= volume <= UNIT,
            1 <= sample_rate <= MAX_SAMPLE_RATE,
        ensures
            r.wf(),
            is_lead_preset(r, Waveform::Triangle, 164, Seq::empty(), volume, sample_rate),
    {
        let envelope = Envelope::new(30, 100, 22938, 600, EnvelopeKind::Exponential, sample_rate);
        let lfo = Oscillator::new(Waveform::Sine, 5000, sample_rate);
        Instrument::new(
            InstrumentKind::Melodic,
            Waveform::Triangle,
            lfo,
            164,
            envelope,
            None,
            volume,
            Vec::new(),
            sample_rate,
        )
    }

    /// The percussion kit: pitches are mapped through the drum table.
    pub fn drum_kit(volume: i32, sample_rate: u32) -> (r: Instrument)
        requires
            0 <= volume <= UNIT,
            1 <= sample_rate <= MAX_SAMPLE_RATE,
        ensures
            r.wf(),
            is_drum_kit_preset(r, volume, sample_rate),
    {
        let envelope = Envelope::new(0, 0, 0, 0, EnvelopeKind::Exponential, sample_rate);
        let lfo = Oscillator::new(Waveform::Sine, 5000, sample_rate);
        Instrument::new(
            InstrumentKind::Percussive,
            Waveform::Triangle,
            lfo,
            164,
            envelope,
            None,
            volume,
            Vec::new(),
            sample_rate,
        )
    }
}

/// Pitches the drum table maps to a sound.
pub open spec fn spec_is_drum_pitch(pitch: u8) -> bool {
    ||| pitch == 35 || pitch == 36 || pitch == 43
    ||| pitch == 40 || pitch == 45 || pitch == 47
    ||| pitch == 44 || pitch == 46 || pitch == 53
    ||| pitch == 49 || pitch == 52 || pitch == 57
}

/// The drum voice the table assigns to a pitch.
pub open spec fn spec_drum_for_pitch(pitch: u8, sample_rate: u32, n: Note) -> bool {
    if pitch == 35 || pitch == 36 || pitch == 43 {
        is_drum_voice(n, 90000, 500, 1638, seq![Effect::Gain(114688)], 11, sample_rate)
    } else if pitch == 40 || pitch == 45 || pitch == 47 {
        is_drum_voice(n, 220000, 500, 13107, seq![Effect::Gain(65536)], 13, sample_rate)
    } else if pitch == 44 || pitch == 46 || pitch == 53 {
        is_drum_voice(n, 2000000, 100, 32768, Seq::empty(), 17, sample_rate)
    } else if pitch == 49 || pitch == 52 || pitch == 57 {
        is_drum_voice(n, 2000000, 2000, 32768, Seq::empty(), 19, sample_rate)
    } else {
        false
    }
}

/// Copy an effect list.
fn clone_effects(src: &Vec<Effect>) -> (r: Vec<Effect>)
    ensures
        r@ == src@,
{
    let mut r: Vec<Effect> = Vec::new();
    let mut i: usize = 0;
    while i < src.len()
        invariant
            0 <= i <= src@.len(),
            r@ == src@.take(i as int),
        decreases src@.len() - i,
    {
        r.push(src[i]);
        proof {
            assert(r@ =~= src@.take(i as int + 1));
        }
        i = i + 1;
    }
    proof {
        assert(src@.take(src@.len() as int) =~= src@);
    }
    r
}

/// Insert a voice at a pitch, replacing the resident voice if there is one.
fn upsert(notes: &mut Vec<(u8, Note)>, pitch: u8, note: Note)
    requires
        keys_unique(old(notes)@),
        notes_wf(old(notes)@),
        note.wf(),
    ensures
        keys_unique(final(notes)@),
        notes_wf(final(notes)@),
        has_key(final(notes)@, pitch),
        has_key(old(notes)@, pitch) ==> exists|i: int|
            0 <= i < old(notes)@.len() && old(notes)@[i].0 == pitch && final(notes)@ == old(
                notes,
            )@.update(i, (pitch, note)),
        !has_key(old(notes)@, pitch) ==> final(notes)@ == old(notes)@.push((pitch, note)),
{
    let n = notes.len();
    let mut i: usize = 0;
    while i < n
        invariant
            n == notes@.len(),
            0 <= i <= n,
            notes@ == old(notes)@,
            note.wf(),
            keys_unique(notes@),
            notes_wf(notes@),
            forall|j: int| 0 <= j < i ==> (#[trigger] notes@[j]).0 != pitch,
        decreases n - i,
    {
        if notes[i].0 == pitch {
            notes.set(i, (pitch, note));
            proof {
                assert(keys_unique(notes@)) by {
                    assert(forall|a: int|
                        0 <= a < notes@.len() && a != i ==> (#[trigger] notes@[a]) == old(
                            notes,
                        )@[a]);
                }
                assert(notes_wf(notes@)) by {
                    assert(forall|a: int|
                        0 <= a < notes@.len() && a != i ==> (#[trigger] notes@[a]) == old(
                            notes,
                        )@[a]);
                }
                assert(notes@[i as int].0 == pitch);
            }
            return ;
        }
        i = i + 1;
    }
    notes.push((pitch, note));
    proof {
        assert(!has_key(old(notes)@, pitch));
        assert(has_key(notes@, pitch)) by {
            assert(notes@[old(notes)@.len() as int].0 == pitch);
        }
        assert(keys_unique(notes@)) by {
            assert(forall|a: int|
                0 <= a < old(notes)@.len() ==> (#[trigger] notes@[a]) == old(notes)@[a]);
        }
    }
}

} // verus!
