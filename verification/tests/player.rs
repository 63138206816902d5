use duvet::envelope::EnvelopeState;
use duvet::midi_scheduler::MidiScheduler;
use duvet::player::Player;

fn file(ntrks: u16, division: u16, tracks: &[Vec<u8>]) -> Vec<u8> {
    let mut v = vec![0x4d, 0x54, 0x68, 0x64, 0, 0, 0, 6, 0, 0];
    v.extend_from_slice(&ntrks.to_be_bytes());
    v.extend_from_slice(&division.to_be_bytes());
    for t in tracks {
        v.extend_from_slice(t);
    }
    v
}

fn track(data: &[u8]) -> Vec<u8> {
    let mut v = vec![0x4d, 0x54, 0x72, 0x6b];
    v.extend_from_slice(&(data.len() as u32).to_be_bytes());
    v.extend_from_slice(data);
    v
}

const END_OF_TRACK: [u8; 4] = [0x00, 0xff, 0x2f, 0x00];

#[test]
fn empty_timeline_stops_on_the_first_tick() {
    let bytes = file(1, 384, &[track(&END_OF_TRACK)]);
    let sched = MidiScheduler::new(&bytes).unwrap();
    let mut player = Player::new_midi(sched, 48000);
    let (sample, more) = player.update();
    assert!(!more);
    // nothing was dispatched and the first mixed sample is silence
    assert_eq!(sample, 128);
    match &player.driver {
        Some(d) => assert_eq!(d.scheduler.cursor, 0),
        None => unreachable!(),
    }
}

#[test]
fn timeline_playback_runs_to_exhaustion() {
    // one note on at tick 0, off at tick 384 (half a second), 100 Hz clock
    let mut data: Vec<u8> = Vec::new();
    data.extend_from_slice(&[0x00, 0x90, 60, 100]);
    data.extend_from_slice(&[0x83, 0x00, 0x80, 60, 0]);
    data.extend_from_slice(&END_OF_TRACK);
    let bytes = file(1, 384, &[track(&data)]);
    let sched = MidiScheduler::new(&bytes).unwrap();
    let mut player = Player::new_midi(sched, 100);
    let mut ticks: u64 = 0;
    while player.update().1 {
        ticks += 1;
        assert!(ticks < 1000);
    }
    // the note-off is due at sample 50; one more tick reports exhaustion
    assert_eq!(player.samples, 52);
}

#[test]
fn due_events_reach_the_rack() {
    let mut data: Vec<u8> = Vec::new();
    data.extend_from_slice(&[0x00, 0x90, 60, 100]);
    data.extend_from_slice(&END_OF_TRACK);
    let bytes = file(1, 384, &[track(&data)]);
    let sched = MidiScheduler::new(&bytes).unwrap();
    let mut player = Player::new_midi(sched, 48000);
    player.update();
    let lead = &player.synth.instruments.iter().find(|p| p.0 == 0).unwrap().1;
    assert_eq!(lead.notes.len(), 1);
    assert_eq!(lead.notes[0].0, 60);
}

#[test]
fn note_on_with_zero_velocity_releases() {
    let mut data: Vec<u8> = Vec::new();
    data.extend_from_slice(&[0x00, 0x90, 60, 100]);
    data.extend_from_slice(&[0x00, 0x90, 60, 0]);
    data.extend_from_slice(&END_OF_TRACK);
    let bytes = file(1, 384, &[track(&data)]);
    let sched = MidiScheduler::new(&bytes).unwrap();
    let mut player = Player::new_midi(sched, 48000);
    player.update();
    let lead = &player.synth.instruments.iter().find(|p| p.0 == 0).unwrap().1;
    assert!(matches!(lead.notes[0].1.state(), EnvelopeState::Release));
}

#[test]
fn events_for_unoccupied_channels_are_dropped() {
    // channel 8 has no instrument in the default rack
    let mut data: Vec<u8> = Vec::new();
    data.extend_from_slice(&[0x00, 0x98, 60, 100]);
    data.extend_from_slice(&END_OF_TRACK);
    let bytes = file(1, 384, &[track(&data)]);
    let sched = MidiScheduler::new(&bytes).unwrap();
    let mut player = Player::new_midi(sched, 48000);
    let (_, more) = player.update();
    assert!(more);
    for (_, inst) in player.synth.instruments.iter() {
        assert_eq!(inst.notes.len(), 0);
    }
}

#[test]
fn live_player_never_stops_itself() {
    let mut player = Player::new_keyboard(48000);
    for _ in 0..10 {
        let (_, more) = player.update();
        assert!(more);
    }
    player.note_on(0, 60);
    let lead = &player.synth.instruments.iter().find(|p| p.0 == 0).unwrap().1;
    assert_eq!(lead.notes.len(), 1);
    player.note_off(0, 60);
    let lead = &player.synth.instruments.iter().find(|p| p.0 == 0).unwrap().1;
    assert!(matches!(lead.notes[0].1.state(), EnvelopeState::Release));
}

#[test]
fn playback_is_deterministic() {
    let mut data: Vec<u8> = Vec::new();
    data.extend_from_slice(&[0x00, 0x99, 35, 100]); // a kick on the drum channel
    data.extend_from_slice(&[0x00, 0x90, 60, 100]);
    data.extend_from_slice(&END_OF_TRACK);
    let bytes = file(1, 384, &[track(&data)]);
    let mut a = Player::new_midi(MidiScheduler::new(&bytes).unwrap(), 8000);
    let mut b = Player::new_midi(MidiScheduler::new(&bytes).unwrap(), 8000);
    for _ in 0..500 {
        assert_eq!(a.update().0, b.update().0);
    }
}

#[test]
fn default_rack_occupies_ten_channels() {
    let player = Player::new_keyboard(48000);
    let channels: Vec<u8> = player.synth.instruments.iter().map(|p| p.0).collect();
    assert_eq!(channels, vec![0, 1, 4, 2, 6, 5, 3, 7, 9, 11]);
    for (channel, inst) in player.synth.instruments.iter() {
        assert_eq!(
            matches!(inst.kind, duvet::instrument::InstrumentKind::Percussive),
            *channel == 9
        );
        assert_eq!(inst.volume, if *channel == 9 { 9830 } else { 3277 });
    }
}
