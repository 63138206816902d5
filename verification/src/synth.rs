//! The channel rack: one instrument per channel. Events are routed by
//! channel, an event for an unoccupied channel is dropped silently, and the
//! mixing root sums one sample from every instrument per tick.

use vstd::prelude::*;

use crate::fixed::spec_clamp;
use crate::instrument::{has_key, keys_unique, lemma_unique_keys_len, Instrument};
use crate::HEADROOM;

verus! {

/// Every resident instrument is well formed.
pub open spec fn instruments_wf(s: Seq<(u8, Instrument)>) -> bool {
    forall|i: int| 0 <= i < s.len() ==> (#[trigger] s[i]).1.wf()
}

/// The sum of the samples every instrument's mixing pass produces.
pub open spec fn spec_rack_sum(s: Seq<(u8, Instrument)>) -> int
    decreases s.len(),
{
    if s.len() == 0 {
        0
    } else {
        spec_rack_sum(s.drop_last()) + s.last().1.spec_out_sample()
    }
}

/// A channel-to-instrument rack.
pub struct Synth {
    /// Resident instruments, keyed by channel; channels are unique.
    pub instruments: Vec<(u8, Instrument)>,
}

impl Synth {
    /// Structural invariant: unique channels, well-formed instruments.
    pub open spec fn wf(self) -> bool {
        &&& keys_unique(self.instruments@)
        &&& instruments_wf(self.instruments@)
    }

    /// How a routed note-on changes the rack: nothing when the channel is
    /// unoccupied, else exactly that channel's instrument performs its
    /// note-on.
    pub open spec fn spec_note_on_rel(pre: Synth, post: Synth, channel: u8, pitch: u8) -> bool {
        if !has_key(pre.instruments@, channel) {
            post == pre
        } else {
            exists|i: int|
                {
                    &&& 0 <= i < pre.instruments@.len()
                    &&& pre.instruments@[i].0 == channel
                    &&& post.instruments@ == pre.instruments@.update(
                        i,
                        (channel, post.instruments@[i].1),
                    )
                    &&& Instrument::spec_note_on_rel(
                        pre.instruments@[i].1,
                        post.instruments@[i].1,
                        pitch,
                    )
                }
        }
    }

    /// How a routed note-off changes the rack.
    pub open spec fn spec_note_off_rel(pre: Synth, post: Synth, channel: u8, pitch: u8) -> bool {
        if !has_key(pre.instruments@, channel) {
            post == pre
        } else {
            exists|i: int|
                {
                    &&& 0 <= i < pre.instruments@.len()
                    &&& pre.instruments@[i].0 == channel
                    &&& post.instruments@ == pre.instruments@.update(
                        i,
                        (channel, post.instruments@[i].1),
                    )
                    &&& Instrument::spec_note_off_rel(
                        pre.instruments@[i].1,
                        post.instruments@[i].1,
                        pitch,
                    )
                }
        }
    }

    /// How one mixing tick changes the rack: every instrument runs one
    /// mixing pass, channels untouched.
    pub open spec fn spec_mix_rel(pre: Synth, post: Synth) -> bool {
        &&& post.instruments@.len() == pre.instruments@.len()
        &&& forall|j: int|
            0 <= j < pre.instruments@.len() ==> (#[trigger] post.instruments@[j]).0
                == pre.instruments@[j].0 && Instrument::spec_mix_rel(
                pre.instruments@[j].1,
                post.instruments@[j].1,
            )
    }

    /// The sample one mixing tick produces: the rack sum clamped into the
    /// mixing headroom.
    pub open spec fn spec_out_sample(self) -> int {
        spec_clamp(spec_rack_sum(self.instruments@), -(HEADROOM as int), HEADROOM as int)
    }

    /// An empty rack.
    pub fn new() -> (r: Synth)
        ensures
            r.wf(),
            r.instruments@.len() == 0,
    {
        Synth { instruments: Vec::new() }
    }

    /// Put an instrument on a channel, replacing any prior occupant.
    pub fn add_instrument(&mut self, channel: u8, instrument: Instrument)
        requires
            old(self).wf(),
            instrument.wf(),
        ensures
            final(self).wf(),
            has_key(final(self).instruments@, channel),
            has_key(old(self).instruments@, channel) ==> exists|i: int|
                0 <= i < old(self).instruments@.len() && old(self).instruments@[i].0 == channel
                    && final(self).instruments@ == old(self).instruments@.update(
                    i,
                    (channel, instrument),
                ),
            !has_key(old(self).instruments@, channel) ==> final(self).instruments@ == old(
                self,
            ).instruments@.push((channel, instrument)),
    {
        let n = self.instruments.len();
        let mut i: usize = 0;
        while i < n
            invariant
                n == self.instruments@.len(),
                0 <= i <= n,
                *self == *old(self),
                old(self).wf(),
                instrument.wf(),
                forall|j: int| 0 <= j < i ==> (#[trigger] self.instruments@[j]).0 != channel,
            decreases n - i,
        {
            if self.instruments[i].0 == channel {
                self.instruments.set(i, (channel, instrument));
                proof {
                    assert(keys_unique(self.instruments@)) by {
                        assert(forall|a: int|
                            0 <= a < self.instruments@.len() && a != i ==> (
                            #[trigger] self.instruments@[a]) == old(self).instruments@[a]);
                    }
                    assert(instruments_wf(self.instruments@)) by {
                        assert(forall|a: int|
                            0 <= a < self.instruments@.len() && a != i ==> (
                            #[trigger] self.instruments@[a]) == old(self).instruments@[a]);
                    }
                    assert(self.instruments@[i as int].0 == channel);
                }
                return ;
            }
            i = i + 1;
        }
        self.instruments.push((channel, instrument));
        proof {
            assert(!has_key(old(self).instruments@, channel));
            assert(self.instruments@[old(self).instruments@.len() as int].0 == channel);
            assert(keys_unique(self.instruments@)) by {
                assert(forall|a: int|
                    0 <= a < old(self).instruments@.len() ==> (#[trigger] self.instruments@[a])
                        == old(self).instruments@[a]);
            }
        }
    }

    /// Route a note-on to the instrument on `channel`; an event for a
    /// channel with no instrument is dropped silently.
    pub fn note_on(&mut self, channel: u8, pitch: u8)
        requires
            old(self).wf(),
            pitch < 128,
        ensures
            final(self).wf(),
            Synth::spec_note_on_rel(*old(self), *final(self), channel, pitch),
    {
        let n = self.instruments.len();
        let mut i: usize = 0;
        while i < n
            invariant
                n == self.instruments@.len(),
                0 <= i <= n,
                *self == *old(self),
                old(self).wf(),
                pitch < 128,
                forall|j: int| 0 <= j < i ==> (#[trigger] self.instruments@[j]).0 != channel,
            decreases n - i,
        {
            if self.instruments[i].0 == channel {
                self.instruments[i].1.note_on(pitch);
                proof {
                    let orig = old(self).instruments@;
                    assert(self.instruments@ =~= orig.update(
                        i as int,
                        (channel, self.instruments@[i as int].1),
                    ));
                    assert(keys_unique(self.instruments@)) by {
                        assert(forall|a: int|
                            0 <= a < self.instruments@.len() && a != i ==> (
                            #[trigger] self.instruments@[a]) == orig[a]);
                    }
                    assert(instruments_wf(self.instruments@)) by {
                        assert(forall|a: int|
                            0 <= a < self.instruments@.len() && a != i ==> (
                            #[trigger] self.instruments@[a]) == orig[a]);
                    }
                }
                return ;
            }
            i = i + 1;
        }
        proof {
            assert(!has_key(self.instruments@, channel));
        }
    }

    /// Route a note-off to the instrument on `channel`; silently dropped if
    /// the channel is unoccupied.
    pub fn note_off(&mut self, channel: u8, pitch: u8)
        requires
            old(self).wf(),
        ensures
            final(self).wf(),
            Synth::spec_note_off_rel(*old(self), *final(self), channel, pitch),
    {
        let n = self.instruments.len();
        let mut i: usize = 0;
        while i < n
            invariant
                n == self.instruments@.len(),
                0 <= i <= n,
                *self == *old(self),
                old(self).wf(),
                forall|j: int| 0 <= j < i ==> (#[trigger] self.instruments@[j]).0 != channel,
            decreases n - i,
        {
            if self.instruments[i].0 == channel {
                self.instruments[i].1.note_off(pitch);
                proof {
                    let orig = old(self).instruments@;
                    assert(self.instruments@ =~= orig.update(
                        i as int,
                        (channel, self.instruments@[i as int].1),
                    ));
                    assert(keys_unique(self.instruments@)) by {
                        assert(forall|a: int|
                            0 <= a < self.instruments@.len() && a != i ==> (
                            #[trigger] self.instruments@[a]) == orig[a]);
                    }
                    assert(instruments_wf(self.instruments@)) by {
                        assert(forall|a: int|
                            0 <= a < self.instruments@.len() && a != i ==> (
                            #[trigger] self.instruments@[a]) == orig[a]);
                    }
                }
                return ;
            }
            i = i + 1;
        }
        proof {
            assert(!has_key(self.instruments@, channel));
        }
    }

    /// The mixing root: one sample from every instrument, summed and
    /// clamped into the mixing headroom.
    pub fn next_sample(&mut self) -> (r: i32)
        requires
            old(self).wf(),
        ensures
            final(self).wf(),
            Synth::spec_mix_rel(*old(self), *final(self)),
            r as int == old(self).spec_out_sample(),
            -HEADROOM <= r <= HEADROOM,
    {
        proof {
            lemma_unique_keys_len(self.instruments@);
        }
        let n = self.instruments.len();
        let mut acc: i64 = 0;
        let mut i: usize = 0;
        while i < n
            invariant
                n == self.instruments@.len() == old(self).instruments@.len(),
                n <= 256,
                0 <= i <= n,
                old(self).wf(),
                keys_unique(self.instruments@),
                instruments_wf(self.instruments@),
                forall|j: int|
                    0 <= j < i ==> (#[trigger] self.instruments@[j]).0 == old(
                        self,
                    ).instruments@[j].0 && Instrument::spec_mix_rel(
                        old(self).instruments@[j].1,
                        self.instruments@[j].1,
                    ),
                forall|j: int|
                    i <= j < n ==> (#[trigger] self.instruments@[j]) == old(self).instruments@[j],
                acc == spec_rack_sum(old(self).instruments@.take(i as int)),
                -(i as int * HEADROOM) <= acc <= i as int * HEADROOM,
            decreases n - i,
        {
            let ghost pre = self.instruments@;
            let s = self.instruments[i].1.next_sample();
            acc = acc + s as i64;
            proof {
                assert(self.instruments@ =~= pre.update(
                    i as int,
                    (pre[i as int].0, self.instruments@[i as int].1),
                ));
                assert(keys_unique(self.instruments@)) by {
                    assert(forall|a: int|
                        0 <= a < self.instruments@.len() && a != i ==> (
                        #[trigger] self.instruments@[a]) == pre[a]);
                }
                assert(instruments_wf(self.instruments@)) by {
                    assert(forall|a: int|
                        0 <= a < self.instruments@.len() && a != i ==> (
                        #[trigger] self.instruments@[a]) == pre[a]);
                }
                assert(old(self).instruments@.take(i as int + 1).drop_last() =~= old(
                    self,
                ).instruments@.take(i as int));
                assert(old(self).instruments@.take(i as int + 1).last() == old(
                    self,
                ).instruments@[i as int]);
            }
            i = i + 1;
        }
        proof {
            assert(old(self).instruments@.take(n as int) =~= old(self).instruments@);
        }
        crate::fixed::clamp64(acc, -(HEADROOM as i64), HEADROOM as i64) as i32
    }
}

} // verus!
