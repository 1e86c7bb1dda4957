use chords_server_rs::dsp::Fx;
use chords_server_rs::grid::{grid_chord_notes, grid_notes, ChordShape, DurKind, GridNote};
use chords_server_rs::render::{RenderCfg, TrackCfg, CH_ACC, CH_BASS, CH_DRUMS, CH_LEAD, CH_STR};
use chords_server_rs::walking::walking_bass_checked;

fn track(channel: u8, drums: bool) -> TrackCfg {
    TrackCfg { channel, program: 1, volume: 100, mute: false, drums, bank_msb: 0, bank_lsb: 0, fx: Fx::default() }
}

fn cfg(pattern: &str, walking: bool) -> RenderCfg {
    RenderCfg {
        tempo: 120,
        pattern: pattern.into(),
        walking,
        sig: "4/4".into(),
        lead_inst: 51,
        tracks: vec![track(CH_LEAD, false), track(CH_BASS, false), track(CH_STR, false), track(CH_DRUMS, true), track(CH_ACC, false)],
    }
}

/// The shape of a chord of `bc` beats starting `start` beats into the grid.
fn shape_of(bc: f64, start: f64) -> ChordShape {
    let nq = bc as u32;
    let short = bc < 1.0;
    ChordShape {
        whole_beats: if bc > 0.0 && nq == 0 { 1 } else { nq },
        short,
        walk_rest: if short { bc > 0.0 } else { bc > 3.0 },
        reggae_long: bc > 1.0,
        bar_start: start as u32,
    }
}

/// (channel, start, duration) of a grid note of a chord of `bc` beats.
fn place(g: &GridNote, bc: f64) -> (u8, f64, f64) {
    let dur = match g.dur {
        DurKind::Chord => bc,
        DurKind::ChordMaxQuarter => bc.min(0.25),
        DurKind::Quarter => 0.25,
        DurKind::Eighth => 0.125,
        DurKind::WalkBeat => 287.0 / 288.0,
        DurKind::WalkRest => bc - 3.0,
    };
    let start = g.beat as f64 + if g.half { 0.5 } else { 0.0 };
    (g.channel, start, dur)
}

fn one_chord(bc: f64) -> Vec<(u8, f64, f64)> {
    let c = cfg("rock", true);
    let notes = vec![48u8, 60, 64, 67];
    let out = grid_chord_notes(&notes, 48, shape_of(bc, 0.0), 0, &c).unwrap();
    out.iter().map(|g| place(g, bc)).collect()
}

#[test]
fn accord_8_croche_complet() {
    let out = one_chord(0.5);
    assert!(out.iter().any(|n| n.0 == CH_LEAD), "lead doit jouer sur une croche");
    assert!(out.iter().any(|n| n.0 == CH_DRUMS), "drums doivent jouer sur une croche");
    let basses: Vec<_> = out.iter().filter(|n| n.0 == CH_BASS).collect();
    assert_eq!(basses.len(), 1, "une seule note de basse");
    assert!((basses[0].2 - 0.5).abs() < 1e-9, "basse tenue sur toute la croche");
    assert!(out.iter().all(|n| n.1 + n.2 <= 0.5 + 1e-9), "aucune note ne doit déborder de l'accord (8:)");
}

#[test]
fn accord_6_triolet_noire_complet() {
    let out = one_chord(2.0 / 3.0);
    assert!(out.iter().any(|n| n.0 == CH_LEAD), "lead doit jouer");
    assert!(out.iter().any(|n| n.0 == CH_DRUMS), "drums doivent jouer");
    let basses: Vec<_> = out.iter().filter(|n| n.0 == CH_BASS).collect();
    assert_eq!(basses.len(), 1);
    assert!((basses[0].2 - 2.0 / 3.0).abs() < 1e-9);
    assert!(out.iter().all(|n| n.1 + n.2 <= 2.0 / 3.0 + 1e-9), "aucune note ne doit déborder de l'accord (6:)");
}

#[test]
fn accord_12_triolet_croche_complet() {
    let out = one_chord(1.0 / 3.0);
    assert!(out.iter().any(|n| n.0 == CH_LEAD), "lead doit jouer");
    assert!(out.iter().any(|n| n.0 == CH_DRUMS), "drums doivent jouer");
    assert!(out.iter().all(|n| n.1 + n.2 <= 1.0 / 3.0 + 1e-9), "aucune note ne doit déborder de l'accord (12:)");
}

#[test]
fn accord_3_tiers_de_mesure_lead_et_drums() {
    let out = one_chord(4.0 / 3.0);
    let leads: Vec<_> = out.iter().filter(|n| n.0 == CH_LEAD).collect();
    assert!(!leads.is_empty(), "lead doit jouer");
    assert!(leads.iter().all(|n| n.1 + n.2 <= 4.0 / 3.0 + 1e-9), "le lead ne doit pas déborder de l'accord (3:)");
    assert!(out.iter().any(|n| n.0 == CH_DRUMS), "drums doivent jouer");
}

fn g(channel: u8, pitch: u8, velocity: u8, beat: u32, half: bool, dur: DurKind) -> GridNote {
    GridNote { channel, pitch, velocity, beat, half, dur }
}

#[test]
fn rock_bar_without_walking() {
    let c = cfg("rock", false);
    let out = grid_chord_notes(&[48, 60, 64, 67], 48, shape_of(4.0, 0.0), 0, &c).unwrap();
    assert_eq!(out.len(), 34);
    // lead: three tones on each off-beat
    assert_eq!(out[0], g(CH_LEAD, 60, 100, 0, true, DurKind::Quarter));
    assert_eq!(out[11], g(CH_LEAD, 67, 100, 3, true, DurKind::Quarter));
    // the root held over the bar, then the pads
    assert_eq!(out[12], g(CH_BASS, 48, 100, 0, false, DurKind::Chord));
    assert_eq!(out[13], g(CH_STR, 60, 100, 0, false, DurKind::Chord));
    // beat 1: kick, hi-hat, off-beat hi-hat
    assert_eq!(out[16], g(CH_DRUMS, 36, 70, 0, false, DurKind::Quarter));
    assert_eq!(out[17], g(CH_DRUMS, 42, 62, 0, false, DurKind::Quarter));
    assert_eq!(out[18], g(CH_DRUMS, 42, 51, 0, true, DurKind::Quarter));
    // beat 2: snare, hi-hats, then the accent
    assert_eq!(out[19], g(CH_DRUMS, 38, 59, 1, false, DurKind::Quarter));
    assert_eq!(out[22], g(CH_ACC, 60, 100, 1, false, DurKind::Eighth));
    // beat 4 ends with the accent
    assert_eq!(out[33], g(CH_ACC, 67, 100, 3, false, DurKind::Eighth));
    let accents: Vec<u32> = out.iter().filter(|n| n.channel == CH_ACC).map(|n| n.beat).collect();
    assert_eq!(accents, vec![1, 1, 1, 3, 3, 3]);
}

#[test]
fn drums_follow_the_beat_of_the_bar() {
    let c = cfg("rock", false);
    let out = grid_chord_notes(&[48, 60], 48, shape_of(2.0, 3.0), 0, &c).unwrap();
    let drums: Vec<(u8, u32)> = out.iter().filter(|n| n.channel == CH_DRUMS && !n.half).map(|n| (n.pitch, n.beat)).collect();
    // the chord starts on the fourth beat (snare), then the next bar (kick)
    assert_eq!(drums, vec![(38, 0), (42, 0), (36, 1), (42, 1)]);
}

#[test]
fn reggae_keeps_pads_only_on_short_chords() {
    let c = cfg("reggae", false);
    let long = grid_chord_notes(&[48, 60, 64], 48, shape_of(4.0, 0.0), 0, &c).unwrap();
    assert!(!long.iter().any(|n| n.channel == CH_STR));
    let one = grid_chord_notes(&[48, 60, 64], 48, shape_of(1.0, 0.0), 0, &c).unwrap();
    assert_eq!(one.iter().filter(|n| n.channel == CH_STR).count(), 2);
}

#[test]
fn muted_and_missing_tracks_play_nothing() {
    let mut c = cfg("rock", false);
    c.tracks = vec![track(CH_BASS, false)];
    c.tracks[0].mute = true;
    let out = grid_chord_notes(&[48, 60, 64], 48, shape_of(4.0, 0.0), 0, &c).unwrap();
    assert!(out.is_empty());
}

#[test]
fn walking_bass_of_a_grid_uses_next_roots_and_counted_seeds() {
    let c = cfg("rock", true);
    let grid = vec![vec![48u8, 52, 55], vec![], vec![53u8, 57, 60]];
    let shapes = vec![shape_of(4.0, 0.0), shape_of(4.0, 4.0), shape_of(2.0, 8.0)];
    let out = grid_notes(&grid, &shapes, &c).unwrap();
    assert_eq!(out.len(), 3);
    assert!(out[1].is_empty());
    // first chord: seed 0, heading for the root of the rest's first chord (48)
    let w0 = walking_bass_checked(&[48, 52, 55], 48, 0, false).unwrap();
    let b0: Vec<u8> = out[0].iter().filter(|n| n.channel == CH_BASS).map(|n| n.pitch).collect();
    assert_eq!(b0, w0.to_vec());
    // last chord: seed 1, heading back for the first chord's root; a
    // two-beat chord keeps the walking notes of its two beats
    let w2 = walking_bass_checked(&[53, 57, 60], 48, 1, false).unwrap();
    let b2: Vec<u8> = out[2].iter().filter(|n| n.channel == CH_BASS).map(|n| n.pitch).collect();
    assert_eq!(b2, w2[..2].to_vec());
}

#[test]
fn walking_out_of_range_gives_none() {
    let c = cfg("rock", true);
    assert!(grid_chord_notes(&[250, 5, 9], 48, shape_of(4.0, 0.0), 0, &c).is_none());
    assert!(grid_notes(&[vec![48, 52], vec![250, 5]], &[shape_of(4.0, 0.0), shape_of(4.0, 4.0)], &c).is_none());
    let held = cfg("rock", false);
    assert!(grid_chord_notes(&[250, 5, 9], 48, shape_of(4.0, 0.0), 0, &held).is_some());
}

#[test]
fn a_rest_after_a_short_walking_chord_stays_silent() {
    let c = cfg("rock", true);
    let grid = vec![vec![48u8, 60, 64], vec![]];
    let shapes = vec![shape_of(2.0, 0.0), shape_of(4.0, 2.0)];
    let out = grid_notes(&grid, &shapes, &c).unwrap();
    // every note of the first chord starts before beat 2, where the rest begins
    assert!(out[0].iter().all(|n| place(n, 2.0).1 < 2.0));
    let bass_beats: Vec<u32> = out[0].iter().filter(|n| n.channel == CH_BASS).map(|n| n.beat).collect();
    assert_eq!(bass_beats, vec![0, 1]);
    assert!(out[1].is_empty());
    // a one-beat and a 3.5-beat walking chord
    let one = grid_chord_notes(&[48, 60, 64], 48, shape_of(1.0, 0.0), 0, &c).unwrap();
    assert_eq!(one.iter().filter(|n| n.channel == CH_BASS).count(), 1);
    let longer = grid_chord_notes(&[48, 60, 64], 48, shape_of(3.5, 0.0), 0, &c).unwrap();
    let walk: Vec<(u32, DurKind)> = longer.iter().filter(|n| n.channel == CH_BASS).map(|n| (n.beat, n.dur)).collect();
    assert_eq!(walk, vec![(0, DurKind::WalkBeat), (1, DurKind::WalkBeat), (2, DurKind::WalkBeat), (3, DurKind::WalkRest)]);
}

#[test]
fn a_chord_without_length_plays_nothing() {
    let c = cfg("rock", true);
    assert!(grid_chord_notes(&[48, 60, 64], 48, shape_of(0.0, 0.0), 0, &c).unwrap().is_empty());
    // no walking line is asked for it either
    assert!(grid_chord_notes(&[250, 5, 9], 48, shape_of(0.0, 0.0), 0, &c).unwrap().is_empty());
}
