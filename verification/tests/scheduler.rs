use duvet::midi_scheduler::{MidiError, MidiMessage, MidiScheduler};

fn header(ntrks: u16, division: u16) -> Vec<u8> {
    let mut v = vec![0x4d, 0x54, 0x68, 0x64, 0, 0, 0, 6];
    v.extend_from_slice(&[0, 0]);
    v.extend_from_slice(&ntrks.to_be_bytes());
    v.extend_from_slice(&division.to_be_bytes());
    v
}

fn track(data: &[u8]) -> Vec<u8> {
    let mut v = vec![0x4d, 0x54, 0x72, 0x6b];
    v.extend_from_slice(&(data.len() as u32).to_be_bytes());
    v.extend_from_slice(data);
    v
}

fn file(ntrks: u16, division: u16, tracks: &[Vec<u8>]) -> Vec<u8> {
    let mut v = header(ntrks, division);
    for t in tracks {
        v.extend_from_slice(t);
    }
    v
}

const END_OF_TRACK: [u8; 4] = [0x00, 0xff, 0x2f, 0x00];

#[test]
fn constant_tempo_resolves_ticks_exactly() {
    // note-ons at ticks 0, 384, 768 with 384 ticks per quarter and the
    // default 500000 us tempo: 0.0, 0.5, 1.0 seconds exactly
    let mut data: Vec<u8> = Vec::new();
    data.extend_from_slice(&[0x00, 0x90, 60, 100]);
    data.extend_from_slice(&[0x83, 0x00, 0x90, 62, 100]);
    data.extend_from_slice(&[0x83, 0x00, 0x90, 64, 100]);
    data.extend_from_slice(&END_OF_TRACK);
    let bytes = file(1, 384, &[track(&data)]);
    let sched = MidiScheduler::new(&bytes).unwrap();
    let ts: Vec<u64> = sched.events.iter().map(|e| e.timestamp_us).collect();
    assert_eq!(ts, vec![0, 500000, 1000000]);
}

#[test]
fn last_tempo_wins_for_the_whole_file() {
    // a tempo of 250000 us per quarter follows the notes, but governs them all
    let mut data: Vec<u8> = Vec::new();
    data.extend_from_slice(&[0x00, 0x90, 60, 100]);
    data.extend_from_slice(&[0x83, 0x00, 0x90, 62, 100]);
    data.extend_from_slice(&[0x00, 0xff, 0x51, 0x03, 0x03, 0xd0, 0x90]);
    data.extend_from_slice(&END_OF_TRACK);
    let bytes = file(1, 384, &[track(&data)]);
    let sched = MidiScheduler::new(&bytes).unwrap();
    let ts: Vec<u64> = sched.events.iter().map(|e| e.timestamp_us).collect();
    assert_eq!(ts, vec![0, 250000]);
}

#[test]
fn equal_timestamps_keep_file_order() {
    // two tracks, all events at tick 0: track one's events come first,
    // within each track in written order
    let mut t1: Vec<u8> = Vec::new();
    t1.extend_from_slice(&[0x00, 0x90, 60, 100]);
    t1.extend_from_slice(&[0x00, 0x90, 61, 100]);
    t1.extend_from_slice(&END_OF_TRACK);
    let mut t2: Vec<u8> = Vec::new();
    t2.extend_from_slice(&[0x00, 0x91, 70, 100]);
    t2.extend_from_slice(&[0x00, 0x91, 71, 100]);
    t2.extend_from_slice(&END_OF_TRACK);
    let bytes = file(2, 384, &[track(&t1), track(&t2)]);
    let sched = MidiScheduler::new(&bytes).unwrap();
    let keys: Vec<(u8, u8)> = sched
        .events
        .iter()
        .map(|e| match e.message {
            MidiMessage::NoteOn { key, .. } => (e.channel, key),
            MidiMessage::NoteOff { key } => (e.channel, key),
        })
        .collect();
    assert_eq!(keys, vec![(0, 60), (0, 61), (1, 70), (1, 71)]);
}

#[test]
fn sorting_interleaves_tracks_by_timestamp() {
    let mut t1: Vec<u8> = Vec::new();
    t1.extend_from_slice(&[0x00, 0x90, 10, 100]); // tick 0
    t1.extend_from_slice(&[0x83, 0x00, 0x90, 12, 100]); // tick 384
    t1.extend_from_slice(&END_OF_TRACK);
    let mut t2: Vec<u8> = Vec::new();
    t2.extend_from_slice(&[0x60, 0x91, 11, 100]); // tick 96
    t2.extend_from_slice(&END_OF_TRACK);
    let bytes = file(2, 384, &[track(&t1), track(&t2)]);
    let sched = MidiScheduler::new(&bytes).unwrap();
    let keys: Vec<u8> = sched
        .events
        .iter()
        .map(|e| match e.message {
            MidiMessage::NoteOn { key, .. } => key,
            MidiMessage::NoteOff { key } => key,
        })
        .collect();
    assert_eq!(keys, vec![10, 11, 12]);
}

#[test]
fn running_status_reuses_the_last_status() {
    let mut data: Vec<u8> = Vec::new();
    data.extend_from_slice(&[0x00, 0x90, 60, 100]);
    data.extend_from_slice(&[0x10, 62, 100]); // no status byte: still note-on
    data.extend_from_slice(&[0x10, 60, 0]);
    data.extend_from_slice(&END_OF_TRACK);
    let bytes = file(1, 384, &[track(&data)]);
    let sched = MidiScheduler::new(&bytes).unwrap();
    assert_eq!(sched.events.len(), 3);
    assert!(matches!(sched.events[1].message, MidiMessage::NoteOn { key: 62, vel: 100 }));
    assert!(matches!(sched.events[2].message, MidiMessage::NoteOn { key: 60, vel: 0 }));
}

#[test]
fn note_off_and_other_voice_messages() {
    let mut data: Vec<u8> = Vec::new();
    data.extend_from_slice(&[0x00, 0x90, 60, 100]);
    data.extend_from_slice(&[0x00, 0xb0, 7, 100]); // controller: consumed silently
    data.extend_from_slice(&[0x00, 0xc0, 5]); // program change: one data byte
    data.extend_from_slice(&[0x00, 0x80, 60, 64]);
    data.extend_from_slice(&END_OF_TRACK);
    let bytes = file(1, 384, &[track(&data)]);
    let sched = MidiScheduler::new(&bytes).unwrap();
    assert_eq!(sched.events.len(), 2);
    assert!(matches!(sched.events[1].message, MidiMessage::NoteOff { key: 60 }));
}

#[test]
fn cursor_advances_by_one_and_never_rewinds() {
    let mut data: Vec<u8> = Vec::new();
    data.extend_from_slice(&[0x00, 0x90, 60, 100]);
    data.extend_from_slice(&[0x00, 0x90, 62, 100]);
    data.extend_from_slice(&END_OF_TRACK);
    let bytes = file(1, 384, &[track(&data)]);
    let mut sched = MidiScheduler::new(&bytes).unwrap();
    assert!(sched.current_event().is_some());
    sched.next_event();
    assert_eq!(sched.cursor, 1);
    assert!(sched.current_event().is_some());
    sched.next_event();
    assert_eq!(sched.cursor, 2);
    assert!(sched.current_event().is_none());
}

#[test]
fn non_metrical_division_falls_back() {
    // top bit set: 480 ticks per quarter are assumed
    let mut data: Vec<u8> = Vec::new();
    data.extend_from_slice(&[0x83, 0x60, 0x90, 60, 100]); // tick 480
    data.extend_from_slice(&END_OF_TRACK);
    let bytes = file(1, 0x8000, &[track(&data)]);
    let sched = MidiScheduler::new(&bytes).unwrap();
    assert_eq!(sched.events[0].timestamp_us, 500000);
}

#[test]
fn truncated_file_is_rejected() {
    assert!(matches!(MidiScheduler::new(&vec![0x4d, 0x54]), Err(MidiError::TruncatedFile)));
    let mut bytes = header(1, 384);
    bytes.extend_from_slice(&[0x4d, 0x54, 0x72, 0x6b, 0, 0, 0, 99]);
    assert!(matches!(MidiScheduler::new(&bytes), Err(MidiError::TruncatedFile)));
}

#[test]
fn bad_header_magic_is_rejected() {
    let mut bytes = header(0, 384);
    bytes[0] = 0x4e;
    assert!(matches!(MidiScheduler::new(&bytes), Err(MidiError::BadHeader)));
}

#[test]
fn bad_track_magic_is_rejected() {
    let mut bytes = header(1, 384);
    bytes.extend_from_slice(&[0x4d, 0x54, 0x72, 0x6c, 0, 0, 0, 0]);
    assert!(matches!(MidiScheduler::new(&bytes), Err(MidiError::BadTrack)));
}

#[test]
fn zero_ticks_per_quarter_is_rejected() {
    let bytes = file(1, 0, &[track(&END_OF_TRACK)]);
    assert!(matches!(MidiScheduler::new(&bytes), Err(MidiError::ZeroTicksPerQuarter)));
}

#[test]
fn orphan_running_status_is_rejected() {
    let bytes = file(1, 384, &[track(&[0x00, 60, 100])]);
    assert!(matches!(MidiScheduler::new(&bytes), Err(MidiError::OrphanRunningStatus)));
}

#[test]
fn system_common_status_is_rejected() {
    let bytes = file(1, 384, &[track(&[0x00, 0xf1, 0x00])]);
    assert!(matches!(MidiScheduler::new(&bytes), Err(MidiError::UnsupportedStatus)));
}

#[test]
fn data_byte_with_top_bit_is_rejected() {
    let bytes = file(1, 384, &[track(&[0x00, 0x90, 0x90, 100])]);
    assert!(matches!(MidiScheduler::new(&bytes), Err(MidiError::BadDataByte)));
}

#[test]
fn overlong_delta_is_rejected() {
    let bytes = file(1, 384, &[track(&[0x81, 0x81, 0x81, 0x81, 0x01, 0x90, 60, 100])]);
    assert!(matches!(MidiScheduler::new(&bytes), Err(MidiError::BadDelta)));
}

#[test]
fn empty_track_yields_no_events() {
    let bytes = file(1, 384, &[track(&END_OF_TRACK)]);
    let sched = MidiScheduler::new(&bytes).unwrap();
    assert_eq!(sched.events.len(), 0);
    assert!(sched.current_event().is_none());
}

#[test]
fn sysex_events_are_skipped() {
    let mut data: Vec<u8> = Vec::new();
    data.extend_from_slice(&[0x00, 0xf0, 0x02, 0x01, 0x02]);
    data.extend_from_slice(&[0x00, 0x90, 60, 100]);
    data.extend_from_slice(&END_OF_TRACK);
    let bytes = file(1, 384, &[track(&data)]);
    let sched = MidiScheduler::new(&bytes).unwrap();
    assert_eq!(sched.events.len(), 1);
}
