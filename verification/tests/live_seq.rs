use chords_server_rs::live_seq::{
    chord_begin, chord_cut_messages, chord_tick, preview_message, preview_setup_messages, reset_messages, seq_end, setup_messages, Voices,
};
use chords_server_rs::midi::LiveTrack;
use chords_server_rs::patterns::{sc, PAT_REGGAE, PAT_ROCK};

fn tracks() -> Vec<LiveTrack> {
    vec![
        LiveTrack::new(0, 51, 127),
        LiveTrack::new(2, 33, 127),
        LiveTrack::new(3, 48, 127),
        LiveTrack::new(9, 1, 127),
        LiveTrack::new(4, 2, 127),
    ]
}

#[test]
fn reset_and_setup_messages() {
    assert_eq!(reset_messages()[4], vec![0xB9, 123, 0]);
    let s = setup_messages(&tracks());
    assert_eq!(s, vec![vec![0xC0, 51], vec![0xC2, 33], vec![0xC3, 48], vec![0xC9, 1], vec![0xC4, 2]]);
    assert!(chord_cut_messages(true).is_empty());
    assert_eq!(chord_cut_messages(false).last().unwrap(), &vec![0xB9, 120, 0]);
}

#[test]
fn chord_begin_plays_bass_and_pads() {
    let mut v = Voices::new();
    let t = tracks();
    let (st, msgs) = chord_begin(&mut v, &[48, 52, 55], [48, 40, 43, 41], true, false, PAT_ROCK, true, &t, 127);
    assert_eq!(msgs, vec![vec![0x92, 48, 127], vec![0x93, 52, 127], vec![0x93, 55, 127]]);
    assert_eq!(v.prev_nappe, vec![52, 55]);
    assert_eq!(st.prev_bass_note, 48);
    let (_, msgs2) = chord_begin(&mut v, &[50, 53], [50, 50, 50, 50], false, true, PAT_REGGAE, true, &t, 127);
    assert_eq!(msgs2.len(), 6 + 1);
    assert_eq!(msgs2[6], vec![0x92, 50, 127]);
    assert_eq!(v.prev_nappe, vec![52, 55]);
}

#[test]
fn chord_ticks_skank_and_accent() {
    let mut v = Voices::new();
    let t = tracks();
    let (mut st, _) = chord_begin(&mut v, &[48, 52], [48, 40, 43, 41], true, true, PAT_ROCK, true, &t, 127);
    let m0 = chord_tick(&mut st, &mut v, 0, false, PAT_ROCK, 4, true, &t, 127);
    assert_eq!(m0, vec![vec![0x99, 36, sc(127, 90)], vec![0x99, 42, sc(127, 80)]]);
    let m1 = chord_tick(&mut st, &mut v, 0, false, PAT_ROCK, 4, true, &t, 127);
    assert!(m1.is_empty());
    let m2 = chord_tick(&mut st, &mut v, 0, true, PAT_ROCK, 4, true, &t, 127);
    assert_eq!(m2, vec![vec![0x99, 42, sc(127, 65)], vec![0x90, 48, 127], vec![0x90, 52, 127]]);
    assert_eq!(v.prev_lead, vec![48, 52]);
    let m3 = chord_tick(&mut st, &mut v, 0, false, PAT_ROCK, 4, true, &t, 127);
    assert_eq!(m3, vec![vec![0x90, 48, 0], vec![0x90, 52, 0]]);
    let m4 = chord_tick(&mut st, &mut v, 1, false, PAT_ROCK, 4, true, &t, 127);
    assert_eq!(m4[m4.len() - 2..].to_vec(), vec![vec![0x94, 48, 127], vec![0x94, 52, 127]]);
    assert!(m4.contains(&vec![0x92, 48, 0]));
    assert!(m4.contains(&vec![0x92, 40, 127]));
    assert_eq!(st.idx, 5);
    let end = seq_end(&v, &t);
    assert_eq!(end, vec![vec![0x93, 52, 0], vec![0x94, 48, 0], vec![0x94, 52, 0]]);
}

#[test]
fn preview_routes_low_notes_to_the_bass() {
    assert_eq!(preview_message(20, 127), vec![0x92, 20, 35]);
    assert_eq!(preview_message(60, 127), vec![0x90, 60, 15]);
    assert_eq!(preview_message(60, 0), vec![0x90, 60, 0]);
}

#[test]
fn preview_setup_sends_reset_rpn_and_programs() {
    let m = preview_setup_messages();
    assert_eq!(m.len(), 5 + 12 + 2);
    assert_eq!(m[5], vec![0xB0, 101, 0]);
    assert_eq!(m[12], vec![0xB2, 38, 2]);
    assert_eq!(m[17], vec![0xC0, 51]);
    assert_eq!(m[18], vec![0xC2, 33]);
}
