//! The driver loop's verified core: a sample clock in whole samples, the
//! scheduler-driven event dispatch, one mixed sample per tick, and its
//! 8-bit encoding for the audio sink. The loop itself, and the sink it
//! feeds, live outside the engine.

use vstd::prelude::*;

use crate::effect::Effect;
use crate::envelope::MAX_SAMPLE_RATE;
use crate::instrument::{is_drum_kit_preset, is_lead_preset, keys_unique, Instrument};
use crate::midi_scheduler::{Event, MidiMessage, MidiScheduler};
use crate::oscillator::Waveform;
use crate::synth::{instruments_wf, Synth};
use crate::{bipolar2u8, spec_bipolar2u8};

verus! {

/// The sample clock in microseconds: whole samples over the sample rate,
/// saturated at the top of the 64-bit microsecond range.
pub open spec fn spec_time_us(samples: int, sample_rate: int) -> int {
    let t = samples * 1000000 / sample_rate;
    if t > 0xffffffffffffffff {
        0xffffffffffffffff
    } else {
        t
    }
}

/// One event dispatched into the rack: note-on with velocity zero counts as
/// note-off, by convention.
pub open spec fn spec_dispatch_one(pre: Synth, post: Synth, ev: Event) -> bool {
    match ev.message {
        MidiMessage::NoteOn { key, vel } => if vel == 0 {
            Synth::spec_note_off_rel(pre, post, ev.channel, key)
        } else {
            Synth::spec_note_on_rel(pre, post, ev.channel, key)
        },
        MidiMessage::NoteOff { key } => Synth::spec_note_off_rel(pre, post, ev.channel, key),
    }
}

/// A whole list of events dispatched in order (built up from the end, the
/// way the dispatch loop extends it).
pub open spec fn spec_dispatched(pre: Synth, post: Synth, events: Seq<Event>) -> bool
    decreases events.len(),
{
    if events.len() == 0 {
        post == pre
    } else {
        exists|mid: Synth|
            spec_dispatched(pre, mid, events.drop_last()) && spec_dispatch_one(
                mid,
                post,
                events.last(),
            )
    }
}

/// The default ten-channel rack `Player::new` builds: square leads on
/// channels 0, 1 and 3, sawtooth leads on 2 and 6, sine leads on 4 and 7,
/// triangle leads on 5 and 11, and the drum kit on channel 9; every lead at
/// a tenth of full volume, the drums at three tenths.
pub open spec fn is_default_rack(s: Synth, sample_rate: u32) -> bool {
    let r = s.instruments@;
    &&& r.len() == 10
    &&& r[0].0 == 0 && is_lead_preset(r[0].1, Waveform::Square, 262, Seq::empty(), 3277, sample_rate)
    &&& r[1].0 == 1 && is_lead_preset(r[1].1, Waveform::Square, 262, Seq::empty(), 3277, sample_rate)
    &&& r[2].0 == 4 && is_lead_preset(
        r[2].1,
        Waveform::Sine,
        328,
        seq![Effect::Gain(163840)],
        3277,
        sample_rate,
    )
    &&& r[3].0 == 2 && is_lead_preset(
        r[3].1,
        Waveform::Sawtooth,
        164,
        seq![Effect::Gain(131072), Effect::HardClip(32768)],
        3277,
        sample_rate,
    )
    &&& r[4].0 == 6 && is_lead_preset(
        r[4].1,
        Waveform::Sawtooth,
        164,
        seq![Effect::Gain(131072), Effect::HardClip(32768)],
        3277,
        sample_rate,
    )
    &&& r[5].0 == 5 && is_lead_preset(
        r[5].1,
        Waveform::Triangle,
        164,
        Seq::empty(),
        3277,
        sample_rate,
    )
    &&& r[6].0 == 3 && is_lead_preset(r[6].1, Waveform::Square, 262, Seq::empty(), 3277, sample_rate)
    &&& r[7].0 == 7 && is_lead_preset(
        r[7].1,
        Waveform::Sine,
        328,
        seq![Effect::Gain(163840)],
        3277,
        sample_rate,
    )
    &&& r[8].0 == 9 && is_drum_kit_preset(r[8].1, 9830, sample_rate)
    &&& r[9].0 == 11 && is_lead_preset(
        r[9].1,
        Waveform::Triangle,
        164,
        Seq::empty(),
        3277,
        sample_rate,
    )
}

/// The scheduler-driven event source: pulls due events out of its
/// scheduler and routes them into a rack.
pub struct MidiPlayer {
    /// The time-sorted event list and cursor.
    pub scheduler: MidiScheduler,
}

impl MidiPlayer {
    /// Wrap a parsed scheduler.
    pub fn new(scheduler: MidiScheduler) -> (r: MidiPlayer)
        ensures
            r.scheduler == scheduler,
    {
        MidiPlayer { scheduler }
    }

    /// Dispatch every event whose timestamp has been reached into the rack,
    /// in timeline order, advancing the cursor past them. Returns whether
    /// any event at all remained at entry; false signals exhaustion.
    pub fn update(&mut self, synth: &mut Synth, time_us: u64) -> (more: bool)
        requires
            old(self).scheduler.wf(),
            old(synth).wf(),
        ensures
            final(self).scheduler.wf(),
            final(synth).wf(),
            final(self).scheduler.events == old(self).scheduler.events,
            old(self).scheduler.cursor <= final(self).scheduler.cursor,
            final(self).scheduler.cursor <= final(self).scheduler.events@.len(),
            forall|k: int|
                old(self).scheduler.cursor <= k < final(self).scheduler.cursor ==> (
                #[trigger] old(self).scheduler.events@[k]).timestamp_us <= time_us,
            final(self).scheduler.cursor < final(self).scheduler.events@.len()
                ==> old(self).scheduler.events@[final(self).scheduler.cursor as int].timestamp_us
                > time_us,
            spec_dispatched(
                *old(synth),
                *final(synth),
                old(self).scheduler.events@.subrange(
                    old(self).scheduler.cursor as int,
                    final(self).scheduler.cursor as int,
                ),
            ),
            more == (old(self).scheduler.cursor < old(self).scheduler.events@.len()),
    {
        let more = self.scheduler.cursor < self.scheduler.events.len();
        let ghost c0 = self.scheduler.cursor as int;
        proof {
            assert(old(self).scheduler.events@.subrange(c0, c0) =~= Seq::<Event>::empty());
        }
        loop
            invariant
                self.scheduler.wf(),
                synth.wf(),
                self.scheduler.events == old(self).scheduler.events,
                c0 == old(self).scheduler.cursor,
                c0 <= self.scheduler.cursor <= self.scheduler.events@.len(),
                forall|k: int|
                    c0 <= k < self.scheduler.cursor ==> (
                    #[trigger] old(self).scheduler.events@[k]).timestamp_us <= time_us,
                spec_dispatched(
                    *old(synth),
                    *synth,
                    old(self).scheduler.events@.subrange(c0, self.scheduler.cursor as int),
                ),
            ensures
                self.scheduler.cursor < self.scheduler.events@.len() ==> old(
                    self,
                ).scheduler.events@[self.scheduler.cursor as int].timestamp_us > time_us,
            decreases self.scheduler.events@.len() - self.scheduler.cursor,
        {
            let ev = match self.scheduler.current_event() {
                Some(ev) => ev,
                None => {
                    break ;
                },
            };
            if ev.timestamp_us > time_us {
                break ;
            }
            let ghost pre = *synth;
            let ghost c = self.scheduler.cursor as int;
            match ev.message {
                MidiMessage::NoteOn { key, vel } => {
                    if vel == 0 {
                        synth.note_off(ev.channel, key);
                    } else {
                        proof {
                            assert(crate::midi_scheduler::event_wf(
                                old(self).scheduler.events@[c],
                            ));
                        }
                        synth.note_on(ev.channel, key);
                    }
                },
                MidiMessage::NoteOff { key } => {
                    synth.note_off(ev.channel, key);
                },
            }
            self.scheduler.next_event();
            proof {
                let evs = old(self).scheduler.events@;
                assert(evs.subrange(c0, c + 1).drop_last() =~= evs.subrange(c0, c));
                assert(evs.subrange(c0, c + 1).last() == ev);
                assert(spec_dispatched(*old(synth), pre, evs.subrange(c0, c + 1).drop_last())
                    && spec_dispatch_one(pre, *synth, evs.subrange(c0, c + 1).last()));
                assert(spec_dispatched(*old(synth), *synth, evs.subrange(c0, c + 1)));
            }
        }
        more
    }
}

/// The driver's verified state: the rack, the optional timeline source, and
/// the running sample clock.
pub struct Player {
    /// The channel rack.
    pub synth: Synth,
    /// The timeline source; absent when the performance is driven live.
    pub driver: Option<MidiPlayer>,
    /// Whole samples produced so far.
    pub samples: u64,
    /// Output sample rate in Hz.
    pub sample_rate: u32,
}

impl Player {
    /// Structural invariant.
    pub open spec fn wf(self) -> bool {
        &&& self.synth.wf()
        &&& match self.driver {
            Some(d) => d.scheduler.wf(),
            None => true,
        }
        &&& 1 <= self.sample_rate <= MAX_SAMPLE_RATE
    }

    /// Build the default ten-channel rack around an optional timeline
    /// source: leads on the melodic channels, the drum kit on channel nine.
    pub fn new(driver: Option<MidiPlayer>, sample_rate: u32) -> (r: Player)
        requires
            match driver {
                Some(d) => d.scheduler.wf(),
                None => true,
            },
            1 <= sample_rate <= MAX_SAMPLE_RATE,
        ensures
            r.wf(),
            is_default_rack(r.synth, sample_rate),
            r.driver == driver,
            r.samples == 0,
            r.sample_rate == sample_rate,
    {
        let mut instruments: Vec<(u8, Instrument)> = Vec::new();
        instruments.push((0, Instrument::lead_square(3277, sample_rate)));
        instruments.push((1, Instrument::lead_square(3277, sample_rate)));
        instruments.push((4, Instrument::lead_sine(3277, sample_rate)));
        instruments.push((2, Instrument::lead_sawtooth(3277, sample_rate)));
        instruments.push((6, Instrument::lead_sawtooth(3277, sample_rate)));
        instruments.push((5, Instrument::lead_triangle(3277, sample_rate)));
        instruments.push((3, Instrument::lead_square(3277, sample_rate)));
        instruments.push((7, Instrument::lead_sine(3277, sample_rate)));
        instruments.push((9, Instrument::drum_kit(9830, sample_rate)));
        instruments.push((11, Instrument::lead_triangle(3277, sample_rate)));
        let synth = Synth { instruments };
        proof {
            assert(keys_unique(synth.instruments@)) by {
                assert(forall|a: int, b: int|
                    0 <= a < b < synth.instruments@.len() ==> (#[trigger] synth.instruments@[a]).0
                        != (#[trigger] synth.instruments@[b]).0);
            }
            assert(instruments_wf(synth.instruments@)) by {
                assert(forall|a: int|
                    0 <= a < synth.instruments@.len() ==> (#[trigger] synth.instruments@[a]).1.wf());
            }
        }
        Player { synth, driver, samples: 0, sample_rate }
    }

    /// A player over a parsed timeline.
    pub fn new_midi(scheduler: MidiScheduler, sample_rate: u32) -> (r: Player)
        requires
            scheduler.wf(),
            1 <= sample_rate <= MAX_SAMPLE_RATE,
        ensures
            r.wf(),
            r.driver == Some(MidiPlayer { scheduler }),
            r.samples == 0,
            r.sample_rate == sample_rate,
    {
        Player::new(Some(MidiPlayer::new(scheduler)), sample_rate)
    }

    /// A player driven live (keys fed in from outside through `note_on` and
    /// `note_off`).
    pub fn new_keyboard(sample_rate: u32) -> (r: Player)
        requires
            1 <= sample_rate <= MAX_SAMPLE_RATE,
        ensures
            r.wf(),
            r.driver is None,
            r.samples == 0,
            r.sample_rate == sample_rate,
    {
        Player::new(None, sample_rate)
    }

    /// Feed a live note-on into the rack.
    pub fn note_on(&mut self, channel: u8, pitch: u8)
        requires
            old(self).wf(),
            pitch < 128,
        ensures
            final(self).wf(),
            Synth::spec_note_on_rel(old(self).synth, final(self).synth, channel, pitch),
            final(self).driver == old(self).driver,
            final(self).samples == old(self).samples,
            final(self).sample_rate == old(self).sample_rate,
    {
        self.synth.note_on(channel, pitch);
    }

    /// Feed a live note-off into the rack.
    pub fn note_off(&mut self, channel: u8, pitch: u8)
        requires
            old(self).wf(),
        ensures
            final(self).wf(),
            Synth::spec_note_off_rel(old(self).synth, final(self).synth, channel, pitch),
            final(self).driver == old(self).driver,
            final(self).samples == old(self).samples,
            final(self).sample_rate == old(self).sample_rate,
    {
        self.synth.note_off(channel, pitch);
    }

    /// One tick of the driver: dispatch every event due at the current
    /// clock, pull one mixed sample, encode it for the sink, and advance
    /// the clock by one sample. The flag is false once the timeline is
    /// exhausted (a live player never stops itself); a timeline with no
    /// events at all yields false on the very first tick and dispatches
    /// nothing.
    pub fn update(&mut self) -> (r: (u8, bool))
        requires
            old(self).wf(),
            old(self).samples < 0xffffffffffffffff,
        ensures
            final(self).wf(),
            final(self).samples == old(self).samples + 1,
            final(self).sample_rate == old(self).sample_rate,
            exists|mid: Synth|
                {
                    &&& match (old(self).driver, final(self).driver) {
                        (Some(d0), Some(d1)) => {
                            &&& d1.scheduler.events == d0.scheduler.events
                            &&& d0.scheduler.cursor <= d1.scheduler.cursor
                                <= d0.scheduler.events@.len()
                            &&& spec_dispatched(
                                old(self).synth,
                                mid,
                                d0.scheduler.events@.subrange(
                                    d0.scheduler.cursor as int,
                                    d1.scheduler.cursor as int,
                                ),
                            )
                            &&& forall|k: int|
                                d0.scheduler.cursor <= k < d1.scheduler.cursor ==> (
                                #[trigger] d0.scheduler.events@[k]).timestamp_us <= spec_time_us(
                                    old(self).samples as int,
                                    old(self).sample_rate as int,
                                )
                            &&& (d1.scheduler.cursor < d0.scheduler.events@.len()
                                ==> d0.scheduler.events@[d1.scheduler.cursor as int].timestamp_us
                                > spec_time_us(
                                    old(self).samples as int,
                                    old(self).sample_rate as int,
                                ))
                            &&& r.1 == (d0.scheduler.cursor < d0.scheduler.events@.len())
                        },
                        (None, None) => mid == old(self).synth && r.1 == true,
                        _ => false,
                    }
                    &&& Synth::spec_mix_rel(mid, final(self).synth)
                    &&& r.0 as int == spec_bipolar2u8(mid.spec_out_sample())
                },
    {
        let more: bool;
        match &mut self.driver {
            Some(driver) => {
                let t_wide: u128 = (self.samples as u128 * 1000000) / (self.sample_rate as u128);
                let time_us: u64 = if t_wide > 0xffffffffffffffff {
                    0xffffffffffffffffu64
                } else {
                    t_wide as u64
                };
                proof {
                    assert(time_us as int == spec_time_us(
                        self.samples as int,
                        self.sample_rate as int,
                    ));
                }
                more = driver.update(&mut self.synth, time_us);
            },
            None => {
                more = true;
            },
        }
        let ghost mid = self.synth;
        let sample = self.synth.next_sample();
        let encoded = bipolar2u8(sample);
        self.samples = self.samples + 1;
        proof {
            if old(self).driver is None {
                assert(spec_dispatched(old(self).synth, mid, Seq::<Event>::empty()));
            }
            assert(Synth::spec_mix_rel(mid, self.synth) && encoded as int == spec_bipolar2u8(
                mid.spec_out_sample(),
            ));
        }
        (encoded, more)
    }
}

} // verus!
