//! The event timeline scheduler: parses a binary performance container (a
//! header chunk and track chunks of delta-time-prefixed events), resolves
//! ticks to absolute microseconds with the file's last tempo governing the
//! whole file, sorts all events by timestamp with a stable sort, and hands
//! them out through a monotone cursor.
//!
//! The whole parse is specified: the executable parser returns exactly what
//! the specification-level parser denotes, on every input, including which
//! malformed inputs yield which error.

use vstd::prelude::*;

verus! {

/// A channel-voice message the engine interprets.
#[derive(Clone, Copy, Debug, PartialEq, Eq, Structural)]
pub enum MidiMessage {
    NoteOn { key: u8, vel: u8 },
    NoteOff { key: u8 },
}

/// A voice event at an absolute tick position, before tempo resolution.
#[derive(Clone, Copy, Debug, PartialEq, Eq, Structural)]
pub struct RawEvent {
    /// Absolute position in file ticks.
    pub tick: u64,
    /// Channel the event addresses.
    pub channel: u8,
    /// The message.
    pub message: MidiMessage,
}

/// A voice event at an absolute time.
#[derive(Clone, Copy, Debug, PartialEq, Eq, Structural)]
pub struct Event {
    /// Absolute time in microseconds from the start of the performance.
    pub timestamp_us: u64,
    /// Channel the event addresses.
    pub channel: u8,
    /// The message.
    pub message: MidiMessage,
}

/// Why a performance file was rejected; all of these abort loading.
#[derive(Clone, Copy, Debug, PartialEq, Eq, Structural)]
pub enum MidiError {
    /// The file ends before a chunk or event it promised.
    TruncatedFile,
    /// The header chunk is missing or malformed.
    BadHeader,
    /// A track chunk's magic is wrong.
    BadTrack,
    /// A delta-time is malformed (over four bytes or cut off).
    BadDelta,
    /// A data byte arrived with no status byte in effect.
    OrphanRunningStatus,
    /// A system-realtime or system-common status inside a track.
    UnsupportedStatus,
    /// A data byte with its top bit set.
    BadDataByte,
    /// The header declares zero ticks per quarter note.
    ZeroTicksPerQuarter,
    /// An absolute tick position beyond the supported range.
    TickOverflow,
}

/// A message carries 7-bit data.
pub open spec fn message_wf(m: MidiMessage) -> bool {
    match m {
        MidiMessage::NoteOn { key, vel } => key < 128 && vel < 128,
        MidiMessage::NoteOff { key } => key < 128,
    }
}

/// A raw event is channel-addressed, 7-bit clean, and within tick range.
pub open spec fn raw_event_wf(e: RawEvent) -> bool {
    e.channel < 16 && e.tick <= 0xffffffff && message_wf(e.message)
}

/// Every raw event of a list is well formed.
pub open spec fn raw_events_wf(s: Seq<RawEvent>) -> bool {
    forall|i: int| 0 <= i < s.len() ==> raw_event_wf(#[trigger] s[i])
}

/// A resolved event is channel-addressed and 7-bit clean.
pub open spec fn event_wf(e: Event) -> bool {
    e.channel < 16 && message_wf(e.message)
}

/// Every resolved event of a list is well formed.
pub open spec fn events_wf(s: Seq<Event>) -> bool {
    forall|i: int| 0 <= i < s.len() ==> event_wf(#[trigger] s[i])
}

/// Big-endian 16-bit word at `p`.
pub open spec fn spec_u16_at(b: Seq<u8>, p: int) -> int {
    b[p] * 0x100 + b[p + 1]
}

/// Big-endian 32-bit word at `p`.
pub open spec fn spec_u32_at(b: Seq<u8>, p: int) -> int {
    b[p] * 0x1000000 + b[p + 1] * 0x10000 + b[p + 2] * 0x100 + b[p + 3]
}

/// Big-endian 24-bit word at `p` (the payload of a tempo event).
pub open spec fn spec_u24_at(b: Seq<u8>, p: int) -> int {
    b[p] * 0x10000 + b[p + 1] * 0x100 + b[p + 2]
}

/// A variable-length quantity starting at `p`: up to four bytes of seven
/// value bits each, the top bit marking continuation. Yields the value and
/// the position after it, or nothing if it runs past `end` or past four
/// bytes.
pub open spec fn spec_vlq_rec(b: Seq<u8>, p: int, end: int, acc: int, count: int) -> Option<
    (int, int),
>
    decreases 4 - count,
{
    if count >= 4 || p >= end {
        None
    } else {
        let byte = b[p] as int;
        let acc2 = acc * 128 + byte % 128;
        if byte < 128 {
            Some((acc2, p + 1))
        } else {
            spec_vlq_rec(b, p + 1, end, acc2, count + 1)
        }
    }
}

pub open spec fn spec_vlq(b: Seq<u8>, p: int, end: int) -> Option<(int, int)> {
    spec_vlq_rec(b, p, end, 0, 0)
}

/// What one track contributes, walked from `pos` to `end`: the events
/// accumulated so far, the running status, the absolute tick, and the
/// governing tempo are threaded through. A meta event (status `0xFF`)
/// carries a type byte, a length quantity and that many payload bytes; a
/// tempo event (type `0x51`, length 3) updates the governing tempo, all
/// other meta and system-exclusive events are skipped, and both cancel
/// running status. A channel-voice event emits an event for note-on and
/// note-off, consumes the other families silently, and sets running
/// status. Yields the grown event list and the tempo, or the first error.
pub open spec fn spec_track_events(
    b: Seq<u8>,
    pos: int,
    end: int,
    running: Option<u8>,
    tick: int,
    tempo: int,
    acc: Seq<RawEvent>,
) -> Result<(Seq<RawEvent>, int), MidiError>
    decreases end - pos,
{
    if pos >= end {
        Ok((acc, tempo))
    } else {
        match spec_vlq(b, pos, end) {
            None => Err(MidiError::BadDelta),
            Some((delta, p1)) => {
                if p1 <= pos || p1 > end || delta < 0 {
                    Err(MidiError::BadDelta)
                } else {
                    let tick2 = tick + delta;
                    if tick2 > 0xffffffff {
                        Err(MidiError::TickOverflow)
                    } else if p1 >= end {
                        Err(MidiError::TruncatedFile)
                    } else {
                        let lead = b[p1] as int;
                        if lead == 0xff {
                            // meta event: type byte, length, payload
                            if p1 + 2 > end {
                                Err(MidiError::TruncatedFile)
                            } else {
                                match spec_vlq(b, p1 + 2, end) {
                                    None => Err(MidiError::BadDelta),
                                    Some((len, p2)) => {
                                        if p2 <= p1 + 1 || len < 0 || p2 + len > end {
                                            Err(MidiError::TruncatedFile)
                                        } else {
                                            let kind = b[p1 + 1] as int;
                                            let tempo2 = if kind == 0x51 && len == 3 {
                                                spec_u24_at(b, p2)
                                            } else {
                                                tempo
                                            };
                                            spec_track_events(
                                                b,
                                                p2 + len,
                                                end,
                                                None,
                                                tick2,
                                                tempo2,
                                                acc,
                                            )
                                        }
                                    },
                                }
                            }
                        } else if lead == 0xf0 || lead == 0xf7 {
                            // system-exclusive event: length, payload
                            match spec_vlq(b, p1 + 1, end) {
                                None => Err(MidiError::BadDelta),
                                Some((len, p2)) => {
                                    if p2 <= p1 || len < 0 || p2 + len > end {
                                        Err(MidiError::TruncatedFile)
                                    } else {
                                        spec_track_events(
                                            b,
                                            p2 + len,
                                            end,
                                            None,
                                            tick2,
                                            tempo,
                                            acc,
                                        )
                                    }
                                },
                            }
                        } else if 0x80 <= lead < 0xf0 || (lead < 0x80 && running is Some) {
                            // channel-voice event, possibly under running status
                            let st: u8 = if lead >= 0x80 {
                                b[p1]
                            } else {
                                running.unwrap()
                            };
                            let d: int = if lead >= 0x80 {
                                p1 + 1
                            } else {
                                p1
                            };
                            let hi = st as int / 16;
                            let ch = (st as int % 16) as u8;
                            let dlen: int = if hi == 0xc || hi == 0xd {
                                1
                            } else {
                                2
                            };
                            if d + dlen > end {
                                Err(MidiError::TruncatedFile)
                            } else if b[d] >= 0x80 || (dlen == 2 && b[d + 1] >= 0x80) {
                                Err(MidiError::BadDataByte)
                            } else {
                                let acc2 = if hi == 8 {
                                    acc.push(
                                        RawEvent {
                                            tick: tick2 as u64,
                                            channel: ch,
                                            message: MidiMessage::NoteOff { key: b[d] },
                                        },
                                    )
                                } else if hi == 9 {
                                    acc.push(
                                        RawEvent {
                                            tick: tick2 as u64,
                                            channel: ch,
                                            message: MidiMessage::NoteOn {
                                                key: b[d],
                                                vel: b[d + 1],
                                            },
                                        },
                                    )
                                } else {
                                    acc
                                };
                                spec_track_events(
                                    b,
                                    d + dlen,
                                    end,
                                    Some(st),
                                    tick2,
                                    tempo,
                                    acc2,
                                )
                            }
                        } else if lead < 0x80 {
                            Err(MidiError::OrphanRunningStatus)
                        } else {
                            Err(MidiError::UnsupportedStatus)
                        }
                    }
                }
            },
        }
    }
}

/// The track chunks walked in file order, threading the governing tempo
/// (last tempo event seen wins for the whole file) and concatenating every
/// track's events.
pub open spec fn spec_tracks(
    b: Seq<u8>,
    pos: int,
    remaining: int,
    tempo: int,
    acc: Seq<RawEvent>,
) -> Result<(Seq<RawEvent>, int), MidiError>
    decreases remaining,
{
    if remaining <= 0 {
        Ok((acc, tempo))
    } else if pos + 8 > b.len() {
        Err(MidiError::TruncatedFile)
    } else if !(b[pos] == 0x4d && b[pos + 1] == 0x54 && b[pos + 2] == 0x72 && b[pos + 3] == 0x6b) {
        Err(MidiError::BadTrack)
    } else {
        let len = spec_u32_at(b, pos + 4);
        let track_end = pos + 8 + len;
        if track_end > b.len() {
            Err(MidiError::TruncatedFile)
        } else {
            match spec_track_events(b, pos + 8, track_end, None, 0, tempo, acc) {
                Err(e) => Err(e),
                Ok((acc2, tempo2)) => spec_tracks(b, track_end, remaining - 1, tempo2, acc2),
            }
        }
    }
}

/// The whole container: the header chunk declares the tick resolution (a
/// non-metrical division falls back to 480 ticks per quarter), then the
/// declared number of tracks follow. Yields every voice event with its
/// absolute tick, the governing tempo in microseconds per quarter note
/// (500000 if the file sets none), and the tick resolution.
pub open spec fn spec_parse(b: Seq<u8>) -> Result<(Seq<RawEvent>, int, int), MidiError> {
    if b.len() < 14 {
        Err(MidiError::TruncatedFile)
    } else if !(b[0] == 0x4d && b[1] == 0x54 && b[2] == 0x68 && b[3] == 0x64) {
        Err(MidiError::BadHeader)
    } else {
        let hlen = spec_u32_at(b, 4);
        if hlen < 6 {
            Err(MidiError::BadHeader)
        } else if 8 + hlen > b.len() {
            Err(MidiError::TruncatedFile)
        } else {
            let ntrks = spec_u16_at(b, 10);
            let division = spec_u16_at(b, 12);
            let tpq: int = if division >= 0x8000 {
                480
            } else {
                division
            };
            if tpq == 0 {
                Err(MidiError::ZeroTicksPerQuarter)
            } else {
                match spec_tracks(b, 8 + hlen, ntrks, 500000, Seq::empty()) {
                    Err(e) => Err(e),
                    Ok((events, tempo)) => Ok((events, tempo, tpq)),
                }
            }
        }
    }
}

/// A tick position resolved to microseconds: `tick * tempo / tpq`, where
/// `tempo` is in microseconds per quarter note and `tpq` in ticks per
/// quarter note.
pub open spec fn spec_tick_to_us(tick: int, tempo: int, tpq: int) -> int {
    tick * tempo / tpq
}

/// Every raw event resolved to an absolute-time event, in file order.
pub open spec fn spec_timestamped(raw: Seq<RawEvent>, tempo: int, tpq: int) -> Seq<Event>
    decreases raw.len(),
{
    if raw.len() == 0 {
        Seq::empty()
    } else {
        spec_timestamped(raw.drop_last(), tempo, tpq).push(
            Event {
                timestamp_us: spec_tick_to_us(raw.last().tick as int, tempo, tpq) as u64,
                channel: raw.last().channel,
                message: raw.last().message,
            },
        )
    }
}

/// Stable insertion of an event into a timestamp-sorted list: it lands
/// after every event with an equal or earlier timestamp.
pub open spec fn spec_insert_sorted(s: Seq<Event>, e: Event) -> Seq<Event>
    decreases s.len(),
{
    if s.len() == 0 {
        seq![e]
    } else if s.last().timestamp_us <= e.timestamp_us {
        s.push(e)
    } else {
        spec_insert_sorted(s.drop_last(), e).push(s.last())
    }
}

/// Stable sort by timestamp: the events are inserted one by one in file
/// order, each after its equal-timestamp fellows.
pub open spec fn spec_sort(s: Seq<Event>) -> Seq<Event>
    decreases s.len(),
{
    if s.len() == 0 {
        Seq::empty()
    } else {
        spec_insert_sorted(spec_sort(s.drop_last()), s.last())
    }
}

/// Ascending by timestamp.
pub open spec fn spec_sorted_by_time(s: Seq<Event>) -> bool {
    forall|i: int, j: int|
        0 <= i <= j < s.len() ==> (#[trigger] s[i]).timestamp_us <= (#[trigger] s[j]).timestamp_us
}

/// The subsequence of events at one timestamp, in order.
pub open spec fn events_at(s: Seq<Event>, t: u64) -> Seq<Event> {
    s.filter(|e: Event| e.timestamp_us == t)
}

/// Inserting into a timestamp-sorted list keeps it sorted, grows it by one,
/// and keeps its events well formed.
pub proof fn lemma_insert_sorted_props(s: Seq<Event>, e: Event)
    requires
        spec_sorted_by_time(s),
    ensures
        spec_sorted_by_time(spec_insert_sorted(s, e)),
        spec_insert_sorted(s, e).len() == s.len() + 1,
        events_wf(s) && event_wf(e) ==> events_wf(spec_insert_sorted(s, e)),
    decreases s.len(),
{
    if s.len() == 0 {
    } else if s.last().timestamp_us <= e.timestamp_us {
        let r = s.push(e);
        assert forall|i: int, j: int| 0 <= i <= j < r.len() implies (#[trigger] r[i]).timestamp_us
            <= (#[trigger] r[j]).timestamp_us by {
            if j < s.len() {
            } else if i < s.len() {
                assert(r[i] == s[i] && s[i].timestamp_us <= s.last().timestamp_us);
            }
        }
    } else {
        let dl = s.drop_last();
        assert(spec_sorted_by_time(dl));
        assert(events_wf(s) ==> events_wf(dl));
        lemma_insert_sorted_props(dl, e);
        let inner = spec_insert_sorted(dl, e);
        let r = inner.push(s.last());
        assert forall|i: int, j: int| 0 <= i <= j < r.len() implies (#[trigger] r[i]).timestamp_us
            <= (#[trigger] r[j]).timestamp_us by {
            if j == inner.len() && i < inner.len() {
                lemma_insert_sorted_member(dl, e, i);
            }
        }
    }
}

/// Every element of an insertion result is the inserted event or one of the
/// original elements (stated pointwise for the sortedness proof).
proof fn lemma_insert_sorted_member(s: Seq<Event>, e: Event, i: int)
    requires
        0 <= i < spec_insert_sorted(s, e).len(),
    ensures
        spec_insert_sorted(s, e)[i] == e || exists|j: int|
            0 <= j < s.len() && spec_insert_sorted(s, e)[i] == s[j],
    decreases s.len(),
{
    if s.len() == 0 {
    } else if s.last().timestamp_us <= e.timestamp_us {
        if i < s.len() {
            assert(spec_insert_sorted(s, e)[i] == s[i]);
        }
    } else {
        let inner = spec_insert_sorted(s.drop_last(), e);
        if i < inner.len() {
            lemma_insert_sorted_member(s.drop_last(), e, i);
            if inner[i] != e {
                let j = choose|j: int| 0 <= j < s.drop_last().len() && inner[i] == s.drop_last()[j];
                assert(spec_insert_sorted(s, e)[i] == s[j]);
            }
        } else {
            assert(spec_insert_sorted(s, e)[i] == s[s.len() - 1]);
        }
    }
}

/// The stable sort yields a timestamp-sorted list of the same length, with
/// well-formed events if the input's were.
pub proof fn lemma_sort_props(s: Seq<Event>)
    ensures
        spec_sorted_by_time(spec_sort(s)),
        spec_sort(s).len() == s.len(),
        events_wf(s) ==> events_wf(spec_sort(s)),
    decreases s.len(),
{
    if s.len() > 0 {
        let dl = s.drop_last();
        assert(events_wf(s) ==> events_wf(dl) && event_wf(s.last()));
        lemma_sort_props(dl);
        lemma_insert_sorted_props(spec_sort(dl), s.last());
    }
}

/// Stable insertion leaves every timestamp's subsequence untouched, except
/// that the inserted event joins the end of its own timestamp's
/// subsequence.
proof fn lemma_insert_sorted_filter(s: Seq<Event>, e: Event, t: u64)
    requires
        spec_sorted_by_time(s),
    ensures
        events_at(spec_insert_sorted(s, e), t) == if e.timestamp_us == t {
            events_at(s, t).push(e)
        } else {
            events_at(s, t)
        },
    decreases s.len(),
{
    reveal_with_fuel(Seq::<_>::filter, 3);
    let pred = |ev: Event| ev.timestamp_us == t;
    if s.len() == 0 {
        assert(spec_insert_sorted(s, e) =~= Seq::empty().push(e));
        assert(Seq::empty().push(e).drop_last() =~= Seq::<Event>::empty());
    } else if s.last().timestamp_us <= e.timestamp_us {
        assert(s.push(e).drop_last() =~= s);
    } else {
        let dl = s.drop_last();
        assert(spec_sorted_by_time(dl));
        lemma_insert_sorted_filter(dl, e, t);
        let inner = spec_insert_sorted(dl, e);
        assert(inner.push(s.last()).drop_last() =~= inner);
        if e.timestamp_us == t {
            assert(!pred(s.last()));
            assert(events_at(s, t) == events_at(dl, t));
        }
    }
}

/// The global sort is stable: for every timestamp, the subsequence of
/// events at that timestamp comes out of the sort exactly as it went in, in
/// original file-traversal order.
pub proof fn lemma_sort_stable(s: Seq<Event>, t: u64)
    ensures
        events_at(spec_sort(s), t) == events_at(s, t),
    decreases s.len(),
{
    reveal_with_fuel(Seq::<_>::filter, 3);
    if s.len() > 0 {
        let dl = s.drop_last();
        lemma_sort_stable(dl, t);
        lemma_sort_props(dl);
        lemma_insert_sorted_filter(spec_sort(dl), s.last(), t);
    }
}


/// Where stable insertion lands: past every element with an equal or
/// earlier timestamp, before every later one.
proof fn lemma_insert_sorted_at(s: Seq<Event>, e: Event, k: int)
    requires
        spec_sorted_by_time(s),
        0 <= k <= s.len(),
        forall|i: int| 0 <= i < k ==> (#[trigger] s[i]).timestamp_us <= e.timestamp_us,
        forall|i: int| k <= i < s.len() ==> (#[trigger] s[i]).timestamp_us > e.timestamp_us,
    ensures
        spec_insert_sorted(s, e) == s.take(k).push(e) + s.skip(k),
    decreases s.len(),
{
    if s.len() == 0 {
        assert(spec_insert_sorted(s, e) =~= s.take(k).push(e) + s.skip(k));
    } else if s.last().timestamp_us <= e.timestamp_us {
        assert(k == s.len());
        assert(spec_insert_sorted(s, e) =~= s.take(k).push(e) + s.skip(k));
    } else {
        let dl = s.drop_last();
        assert(k <= dl.len());
        assert(spec_sorted_by_time(dl));
        lemma_insert_sorted_at(dl, e, k);
        assert(dl.take(k) =~= s.take(k));
        assert((dl.take(k).push(e) + dl.skip(k)).push(s.last()) =~= s.take(k).push(e) + s.skip(k));
    }
}

/// Insert an event into a timestamp-sorted list, after every event with an
/// equal or earlier timestamp.
fn insert_event(out: &mut Vec<Event>, e: Event)
    requires
        spec_sorted_by_time(old(out)@),
    ensures
        final(out)@ == spec_insert_sorted(old(out)@, e),
        spec_sorted_by_time(final(out)@),
{
    let mut j: usize = out.len();
    while j > 0 && out[j - 1].timestamp_us > e.timestamp_us
        invariant
            0 <= j <= out@.len(),
            *out == *old(out),
            forall|i: int|
                j <= i < out@.len() ==> (#[trigger] out@[i]).timestamp_us > e.timestamp_us,
        decreases j,
    {
        j = j - 1;
    }
    proof {
        assert forall|i: int| 0 <= i < j implies (#[trigger] out@[i]).timestamp_us
            <= e.timestamp_us by {
            assert(out@[i].timestamp_us <= out@[j - 1].timestamp_us);
        }
        lemma_insert_sorted_at(out@, e, j as int);
        lemma_insert_sorted_props(out@, e);
    }
    out.insert(j, e);
    proof {
        assert(final(out)@ =~= old(out)@.take(j as int).push(e) + old(out)@.skip(j as int));
    }
}

/// Sort events ascending by timestamp with a stable sort: events sharing a
/// timestamp keep their original order.
fn sort_events(v: Vec<Event>) -> (r: Vec<Event>)
    ensures
        r@ == spec_sort(v@),
        spec_sorted_by_time(r@),
{
    let mut out: Vec<Event> = Vec::new();
    let n = v.len();
    let mut i: usize = 0;
    proof {
        assert(v@.take(0) =~= Seq::<Event>::empty());
    }
    while i < n
        invariant
            n == v@.len(),
            0 <= i <= n,
            out@ == spec_sort(v@.take(i as int)),
            spec_sorted_by_time(out@),
        decreases n - i,
    {
        insert_event(&mut out, v[i]);
        proof {
            assert(v@.take(i as int + 1).drop_last() =~= v@.take(i as int));
            assert(v@.take(i as int + 1).last() == v@[i as int]);
        }
        i = i + 1;
    }
    proof {
        assert(v@.take(n as int) =~= v@);
    }
    out
}


proof fn lemma_pow128_small(c: nat)
    requires
        c <= 4,
    ensures
        1 <= vstd::arithmetic::power::pow(128, c) <= 0x10000000,
        c <= 3 ==> vstd::arithmetic::power::pow(128, c) <= 0x200000,
{
    reveal_with_fuel(vstd::arithmetic::power::pow, 5);
    if c == 0 {
    } else if c == 1 {
    } else if c == 2 {
    } else if c == 3 {
    } else {
        assert(c == 4);
    }
}

/// Read one variable-length quantity.
fn read_vlq(bytes: &Vec<u8>, p: usize, end: usize) -> (r: Result<(u32, usize), MidiError>)
    requires
        p <= end <= bytes@.len(),
    ensures
        match spec_vlq(bytes@, p as int, end as int) {
            Some(vn) => {
                &&& r is Ok
                &&& r.unwrap().0 as int == vn.0
                &&& r.unwrap().1 as int == vn.1
                &&& p < r.unwrap().1 <= end
                &&& 0 <= vn.0 < 0x10000000
            },
            None => r == Err::<(u32, usize), MidiError>(MidiError::BadDelta),
        },
{
    let mut acc: u32 = 0;
    let mut q: usize = p;
    let mut count: u32 = 0;
    proof {
        lemma_pow128_small(0nat);
    }
    while count < 4 && q < end
        invariant
            p <= q <= end <= bytes@.len(),
            count <= 4,
            q as int == p as int + count as int,
            (acc as int) < vstd::arithmetic::power::pow(128, count as nat),
            spec_vlq(bytes@, p as int, end as int) == spec_vlq_rec(
                bytes@,
                q as int,
                end as int,
                acc as int,
                count as int,
            ),
        decreases 4 - count,
    {
        let byte = bytes[q];
        proof {
            lemma_pow128_small(count as nat);
            lemma_pow128_small((count + 1) as nat);
            vstd::arithmetic::power::lemma_pow_adds(128, count as nat, 1nat);
            assert(vstd::arithmetic::power::pow(128, 1nat) == 128) by {
                reveal_with_fuel(vstd::arithmetic::power::pow, 2);
            }
            assert(vstd::arithmetic::power::pow(128, (count + 1) as nat)
                == vstd::arithmetic::power::pow(128, count as nat) * 128);
        }
        let acc2: u32 = acc * 128 + (byte % 128) as u32;
        if byte < 128 {
            return Ok((acc2, q + 1));
        }
        acc = acc2;
        q = q + 1;
        count = count + 1;
    }
    Err(MidiError::BadDelta)
}

fn read_u16(bytes: &Vec<u8>, p: usize) -> (r: u16)
    requires
        p + 2 <= bytes.len(),
    ensures
        r as int == spec_u16_at(bytes@, p as int),
{
    (bytes[p] as u16) * 0x100 + bytes[p + 1] as u16
}

fn read_u32(bytes: &Vec<u8>, p: usize) -> (r: u32)
    requires
        p + 4 <= bytes.len(),
    ensures
        r as int == spec_u32_at(bytes@, p as int),
{
    (bytes[p] as u32) * 0x1000000 + (bytes[p + 1] as u32) * 0x10000 + (bytes[p + 2] as u32) * 0x100
        + bytes[p + 3] as u32
}

fn read_u24(bytes: &Vec<u8>, p: usize) -> (r: u32)
    requires
        p + 3 <= bytes.len(),
    ensures
        r as int == spec_u24_at(bytes@, p as int),
        r < 0x1000000,
{
    (bytes[p] as u32) * 0x10000 + (bytes[p + 1] as u32) * 0x100 + bytes[p + 2] as u32
}

/// Walk one track chunk, appending its voice events and threading the
/// governing tempo.
fn parse_track_events(
    bytes: &Vec<u8>,
    start: usize,
    end: usize,
    tempo0: u32,
    events: &mut Vec<RawEvent>,
) -> (r: Result<u32, MidiError>)
    requires
        start <= end <= bytes@.len(),
        tempo0 < 0x1000000,
        raw_events_wf(old(events)@),
    ensures
        match spec_track_events(
            bytes@,
            start as int,
            end as int,
            None::<u8>,
            0,
            tempo0 as int,
            old(events)@,
        ) {
            Ok(out) => {
                &&& r is Ok
                &&& r.unwrap() as int == out.1
                &&& r.unwrap() < 0x1000000
                &&& final(events)@ == out.0
                &&& raw_events_wf(out.0)
            },
            Err(er) => r == Err::<u32, MidiError>(er),
        },
{
    let mut pos: usize = start;
    let mut running: Option<u8> = None;
    let mut tick: u64 = 0;
    let mut tempo: u32 = tempo0;
    while pos < end
        invariant
            start <= pos <= end <= bytes@.len(),
            tick <= 0xffffffff,
            tempo < 0x1000000,
            raw_events_wf(events@),
            spec_track_events(
                bytes@,
                start as int,
                end as int,
                None::<u8>,
                0,
                tempo0 as int,
                old(events)@,
            ) == spec_track_events(
                bytes@,
                pos as int,
                end as int,
                running,
                tick as int,
                tempo as int,
                events@,
            ),
        decreases end - pos,
    {
        let (delta, p1) = match read_vlq(bytes, pos, end) {
            Ok(x) => x,
            Err(e) => {
                return Err(e);
            },
        };
        let tick2: u64 = tick + delta as u64;
        if tick2 > 0xffffffff {
            return Err(MidiError::TickOverflow);
        }
        if p1 >= end {
            return Err(MidiError::TruncatedFile);
        }
        let lead = bytes[p1];
        if lead == 0xff {
            if end - p1 < 2 {
                return Err(MidiError::TruncatedFile);
            }
            let kind = bytes[p1 + 1];
            let (len, p2) = match read_vlq(bytes, p1 + 2, end) {
                Ok(x) => x,
                Err(e) => {
                    return Err(e);
                },
            };
            if len as u64 > (end - p2) as u64 {
                return Err(MidiError::TruncatedFile);
            }
            if kind == 0x51 && len == 3 {
                tempo = read_u24(bytes, p2);
            }
            running = None;
            tick = tick2;
            pos = p2 + len as usize;
        } else if lead == 0xf0 || lead == 0xf7 {
            let (len, p2) = match read_vlq(bytes, p1 + 1, end) {
                Ok(x) => x,
                Err(e) => {
                    return Err(e);
                },
            };
            if len as u64 > (end - p2) as u64 {
                return Err(MidiError::TruncatedFile);
            }
            running = None;
            tick = tick2;
            pos = p2 + len as usize;
        } else if (lead >= 0x80 && lead < 0xf0) || (lead < 0x80 && running.is_some()) {
            let st: u8;
            let d: usize;
            if lead >= 0x80 {
                st = lead;
                d = p1 + 1;
            } else {
                st = match running {
                    Some(s0) => s0,
                    None => {
                        return Err(MidiError::OrphanRunningStatus);
                    },
                };
                d = p1;
            }
            let hi = st / 16;
            let ch = st % 16;
            let dlen: usize = if hi == 0xc || hi == 0xd {
                1
            } else {
                2
            };
            if dlen > end - d {
                return Err(MidiError::TruncatedFile);
            }
            let d0 = bytes[d];
            if d0 >= 0x80 {
                return Err(MidiError::BadDataByte);
            }
            if dlen == 2 && bytes[d + 1] >= 0x80 {
                return Err(MidiError::BadDataByte);
            }
            if hi == 8 {
                events.push(
                    RawEvent { tick: tick2, channel: ch, message: MidiMessage::NoteOff { key: d0 } },
                );
            } else if hi == 9 {
                events.push(
                    RawEvent {
                        tick: tick2,
                        channel: ch,
                        message: MidiMessage::NoteOn { key: d0, vel: bytes[d + 1] },
                    },
                );
            }
            running = Some(st);
            tick = tick2;
            pos = d + dlen;
        } else if lead < 0x80 {
            return Err(MidiError::OrphanRunningStatus);
        } else {
            return Err(MidiError::UnsupportedStatus);
        }
    }
    Ok(tempo)
}

/// Resolve every raw event's tick to absolute microseconds under one
/// governing tempo.
fn resolve_events(raw: &Vec<RawEvent>, tempo: u32, tpq: u32) -> (r: Vec<Event>)
    requires
        1 <= tpq,
        tempo < 0x1000000,
        raw_events_wf(raw@),
    ensures
        r@ == spec_timestamped(raw@, tempo as int, tpq as int),
        events_wf(r@),
{
    let mut out: Vec<Event> = Vec::new();
    let n = raw.len();
    let mut i: usize = 0;
    proof {
        assert(raw@.take(0) =~= Seq::<RawEvent>::empty());
    }
    while i < n
        invariant
            n == raw@.len(),
            0 <= i <= n,
            1 <= tpq,
            tempo < 0x1000000,
            raw_events_wf(raw@),
            out@ == spec_timestamped(raw@.take(i as int), tempo as int, tpq as int),
            events_wf(out@),
        decreases n - i,
    {
        let e = raw[i];
        proof {
            crate::fixed::lemma_mul_bounds(e.tick as int, tempo as int, 0xffffffff, 0xffffff);
            crate::fixed::lemma_div_le(e.tick as int * tempo as int, 0xffffff00000001, tpq as int);
        }
        let ts: u64 = (e.tick * tempo as u64) / tpq as u64;
        out.push(Event { timestamp_us: ts, channel: e.channel, message: e.message });
        proof {
            assert(raw@.take(i as int + 1).drop_last() =~= raw@.take(i as int));
            assert(raw@.take(i as int + 1).last() == raw@[i as int]);
        }
        i = i + 1;
    }
    proof {
        assert(raw@.take(n as int) =~= raw@);
    }
    out
}

/// Once the header has been validated, the whole parse is the track walk:
/// ties `spec_parse` to `spec_tracks` so the track loop can speak of the
/// former through the latter.
pub open spec fn spec_parse_via_tracks(b: Seq<u8>, tpq: int) -> bool {
    match spec_tracks(b, 8 + spec_u32_at(b, 4), spec_u16_at(b, 10), 500000, Seq::empty()) {
        Ok(out) => spec_parse(b) == Ok::<(Seq<RawEvent>, int, int), MidiError>(
            (out.0, out.1, tpq),
        ),
        Err(e) => spec_parse(b) == Err::<(Seq<RawEvent>, int, int), MidiError>(e),
    }
}

/// A time-sorted, cursor-addressable event list built from the bytes of a
/// binary performance file.
pub struct MidiScheduler {
    /// The events, ascending by timestamp, ties in file-traversal order.
    pub events: Vec<Event>,
    /// The read position; only ever advances.
    pub cursor: usize,
}

impl MidiScheduler {
    /// Structural invariant: the cursor is within range and the list is
    /// sorted and well formed.
    pub open spec fn wf(self) -> bool {
        &&& self.cursor <= self.events@.len()
        &&& events_wf(self.events@)
        &&& spec_sorted_by_time(self.events@)
    }

    /// Parse a performance file. On success the scheduler holds exactly the
    /// file's voice events, tempo-resolved and stably sorted by timestamp,
    /// with the cursor at the first event; a malformed file is rejected
    /// with the specific error the specification assigns it.
    #[verifier::rlimit(60)]
    pub fn new(bytes: &Vec<u8>) -> (r: Result<MidiScheduler, MidiError>)
        ensures
            match spec_parse(bytes@) {
                Ok(parsed) => {
                    &&& r is Ok
                    &&& r.unwrap().events@ == spec_sort(
                        spec_timestamped(parsed.0, parsed.1, parsed.2),
                    )
                    &&& r.unwrap().cursor == 0
                    &&& r.unwrap().wf()
                },
                Err(e) => r == Err::<MidiScheduler, MidiError>(e),
            },
    {
        let n = bytes.len();
        if n < 14 {
            return Err(MidiError::TruncatedFile);
        }
        if !(bytes[0] == 0x4d && bytes[1] == 0x54 && bytes[2] == 0x68 && bytes[3] == 0x64) {
            return Err(MidiError::BadHeader);
        }
        let hlen = read_u32(bytes, 4);
        if hlen < 6 {
            return Err(MidiError::BadHeader);
        }
        if hlen as u64 > (n - 8) as u64 {
            return Err(MidiError::TruncatedFile);
        }
        let ntrks = read_u16(bytes, 10);
        let division = read_u16(bytes, 12);
        let tpq: u32 = if division >= 0x8000 {
            480
        } else {
            division as u32
        };
        if tpq == 0 {
            return Err(MidiError::ZeroTicksPerQuarter);
        }
        let mut pos: usize = 8 + hlen as usize;
        let mut remaining: u16 = ntrks;
        let mut tempo: u32 = 500000;
        let mut raw: Vec<RawEvent> = Vec::new();
        while remaining > 0
            invariant
                pos <= bytes@.len() == n,
                tempo < 0x1000000,
                1 <= tpq,
                raw_events_wf(raw@),
                spec_parse_via_tracks(bytes@, tpq as int),
                spec_tracks(
                    bytes@,
                    8 + spec_u32_at(bytes@, 4),
                    spec_u16_at(bytes@, 10),
                    500000,
                    Seq::empty(),
                ) == spec_tracks(bytes@, pos as int, remaining as int, tempo as int, raw@),
            decreases remaining,
        {
            if n - pos < 8 {
                return Err(MidiError::TruncatedFile);
            }
            if !(bytes[pos] == 0x4d && bytes[pos + 1] == 0x54 && bytes[pos + 2] == 0x72 && bytes[pos
                + 3] == 0x6b) {
                return Err(MidiError::BadTrack);
            }
            let tlen = read_u32(bytes, pos + 4);
            if tlen as u64 > (n - (pos + 8)) as u64 {
                return Err(MidiError::TruncatedFile);
            }
            let track_end: usize = pos + 8 + tlen as usize;
            tempo = match parse_track_events(bytes, pos + 8, track_end, tempo, &mut raw) {
                Ok(t) => t,
                Err(e) => {
                    return Err(e);
                },
            };
            pos = track_end;
            remaining = remaining - 1;
        }
        let events = resolve_events(&raw, tempo, tpq);
        let sorted = sort_events(events);
        proof {
            lemma_sort_props(spec_timestamped(raw@, tempo as int, tpq as int));
        }
        Ok(MidiScheduler { events: sorted, cursor: 0 })
    }

    /// The event at the cursor, or nothing once the timeline is exhausted.
    pub fn current_event(&self) -> (r: Option<Event>)
        ensures
            r == if self.cursor < self.events@.len() {
                Some(self.events@[self.cursor as int])
            } else {
                None::<Event>
            },
    {
        if self.cursor < self.events.len() {
            Some(self.events[self.cursor])
        } else {
            None
        }
    }

    /// Advance the cursor by exactly one; it never rewinds. The timeline
    /// must not already be exhausted, which `current_event` lets a caller
    /// test.
    pub fn next_event(&mut self)
        requires
            old(self).cursor < old(self).events@.len(),
        ensures
            final(self).events == old(self).events,
            final(self).cursor == old(self).cursor + 1,
            old(self).wf() ==> final(self).wf(),
    {
        let n = self.events.len();
        proof {
            assert(self.cursor < n);
        }
        self.cursor = self.cursor + 1;
    }
}

} // verus!
