use chords_server_rs::dsp::Fx;
use chords_server_rs::patterns::{render_drum_hits, DrumHit, PAT_REGGAE, PAT_ROCK};
use chords_server_rs::render::{
    audible, beats_per_bar, find_char, generate_click_smf, generate_smf_fmt0, generate_smf_from_custom, render_tracks_list,
    track_for_channel, RenderCfg, TickNote, TrackCfg, CH_DRUMS,
};

fn parse_smf_notes(smf: &[u8]) -> Vec<(u8, u8, u8)> {
    let mut out = Vec::new();
    let mut i = 0;
    assert_eq!(&smf[i..i + 4], b"MThd", "header SMF attendu");
    i += 4;
    let hlen = u32::from_be_bytes(smf[i..i + 4].try_into().unwrap()) as usize;
    i += 4 + hlen;
    while i + 4 <= smf.len() {
        assert_eq!(&smf[i..i + 4], b"MTrk", "piste SMF attendue");
        i += 4;
        let tlen = u32::from_be_bytes(smf[i..i + 4].try_into().unwrap()) as usize;
        i += 4;
        let end = i + tlen;
        let mut running: Option<u8> = None;
        while i < end {
            // delta-time (VLQ)
            loop {
                let b = smf[i];
                i += 1;
                if b & 0x80 == 0 {
                    break;
                }
            }
            let mut status = smf[i];
            if status & 0x80 == 0 {
                status = running.expect("running status sans statut initial");
            } else {
                i += 1;
            }
            match status {
                0x90..=0x9f | 0x80..=0x8f => {
                    let d1 = smf[i];
                    let d2 = smf[i + 1];
                    i += 2;
                    running = Some(status);
                    if status & 0xf0 == 0x90 && d2 > 0 {
                        out.push((status & 0x0f, d1, d2));
                    }
                }
                0xc0..=0xcf | 0xd0..=0xdf => {
                    i += 1;
                    running = Some(status);
                }
                0xb0..=0xbf | 0xe0..=0xef => {
                    i += 2;
                    running = Some(status);
                }
                0xff => {
                    i += 1; // type de meta event
                    let mut mlen = 0u32;
                    loop {
                        let b = smf[i];
                        i += 1;
                        mlen = (mlen << 7) | (b & 0x7f) as u32;
                        if b & 0x80 == 0 {
                            break;
                        }
                    }
                    i += mlen as usize; // données du meta event
                    running = None;
                }
                _ => {
                    running = Some(status);
                }
            }
        }
        i = end;
    }
    out
}

fn cfg_with(tracks: Vec<TrackCfg>) -> RenderCfg {
    RenderCfg {
        tempo: 120,
        pattern: "rock".into(),
        walking: false,
        sig: "4/4".into(),
        lead_inst: 51,
        tracks,
    }
}

fn tcfg(channel: u8, drums: bool) -> TrackCfg {
    TrackCfg { channel, program: 1, volume: 100, mute: false, drums, bank_msb: 0, bank_lsb: 0, fx: Fx::default() }
}

#[test]
fn render_tracks_synthetise_la_piste_drums_manquante() {
    let cfg = cfg_with(vec![tcfg(5, true)]);
    let notes = vec![CH_DRUMS];
    let list = render_tracks_list(&cfg, &notes);
    assert!(list.iter().any(|t| t.channel == CH_DRUMS), "une piste drums canal 9 doit être synthétisée");
    let empty: Vec<u8> = vec![];
    let list2 = render_tracks_list(&cfg, &empty);
    assert!(!list2.iter().any(|t| t.channel == CH_DRUMS), "pas de synthèse sans notes canal 9");
    let cfg2 = cfg_with(vec![tcfg(5, true), tcfg(9, false)]);
    let list3 = render_tracks_list(&cfg2, &notes);
    assert_eq!(list3.iter().filter(|t| t.channel == CH_DRUMS).count(), 1);
}

#[test]
fn generate_click_smf_notes_et_accents() {
    let smf = generate_click_smf(120, 4, 8, true, 0);
    assert!(smf.starts_with(b"MThd"));
    let evs = parse_smf_notes(&smf);
    assert_eq!(evs.len(), 8);
    let accented = evs.iter().filter(|(_, _, v)| *v == 127).count();
    assert_eq!(accented, 2, "2 débuts de mesure sur 8 battements en 4/4");
    let smf = generate_click_smf(120, 4, 8, false, 0);
    let evs = parse_smf_notes(&smf);
    assert_eq!(evs.len(), 8);
    assert!(evs.iter().all(|(_, _, v)| *v == 120));
    let smf = generate_click_smf(120, 7, 14, true, 0);
    let evs = parse_smf_notes(&smf);
    assert_eq!(evs.len(), 14);
    let accented = evs.iter().filter(|(_, _, v)| *v == 127).count();
    assert_eq!(accented, 2);
}

#[test]
fn generate_click_smf_sons_et_pitches() {
    let smf = generate_click_smf(120, 4, 4, true, 0);
    let evs = parse_smf_notes(&smf);
    assert_eq!(evs.len(), 4);
    assert_eq!(evs[0], (9, 34, 127));
    assert_eq!(evs[1], (9, 33, 120));
    let smf = generate_click_smf(120, 4, 1, true, 1);
    let evs = parse_smf_notes(&smf);
    assert_eq!(evs[0], (15, 72, 127));
    let smf = generate_click_smf(120, 4, 1, true, 3);
    let evs = parse_smf_notes(&smf);
    assert_eq!(evs[0], (15, 55, 127));
}

#[test]
fn custom_smf_mutes_and_redirects_drums() {
    let tracks = vec![tcfg(5, true), TrackCfg { mute: true, ..tcfg(2, false) }];
    let notes = vec![
        TickNote { channel: 5, pitch: 36, velocity: 100, start_tick: 0, end_tick: 72, eot_tick: 76 },
        TickNote { channel: 2, pitch: 40, velocity: 90, start_tick: 0, end_tick: 72, eot_tick: 76 },
        TickNote { channel: 0, pitch: 60, velocity: 80, start_tick: 288, end_tick: 576, eot_tick: 580 },
    ];
    let smf = generate_smf_from_custom(&notes, &tracks, 120);
    let evs = parse_smf_notes(&smf);
    assert_eq!(evs, vec![(9, 36, 100), (0, 60, 80)]);
    assert_eq!(&smf[8..14], &[0, 0, 0, 1, 1, 32]);
}

#[test]
fn beats_per_bar_reads_the_numerator() {
    assert_eq!(beats_per_bar("3/4"), 3);
    assert_eq!(beats_per_bar("7/8"), 7);
    assert_eq!(beats_per_bar("x/4"), 4);
    assert_eq!(beats_per_bar("12"), 12);
}

#[test]
fn grid_file_bytes_with_the_lead_program_added() {
    let bass = TrackCfg { channel: 2, program: 33, volume: 70, mute: false, drums: false, bank_msb: 0, bank_lsb: 0, fx: Fx::default() };
    let cfg = RenderCfg { tempo: 120, pattern: "rock".into(), walking: false, sig: "4/4".into(), lead_inst: 51, tracks: vec![bass] };
    let n = TickNote { channel: 2, pitch: 40, velocity: 90, start_tick: 0, end_tick: 288, eot_tick: 292 };
    let smf = generate_smf_fmt0(&[n], &cfg);
    let mut expected = vec![0x4D, 0x54, 0x68, 0x64, 0, 0, 0, 6, 0, 0, 0, 1, 0x01, 0x20, 0x4D, 0x54, 0x72, 0x6B, 0, 0, 0, 26];
    expected.extend([0x00, 0xFF, 0x51, 0x03, 0x07, 0xA1, 0x20]);
    expected.extend([0x00, 0xC2, 33, 0x00, 0xC0, 51]);
    expected.extend([0x00, 0x92, 40, 90, 0x82, 0x20, 0x82, 40, 64]);
    expected.extend([0x00, 0xFF, 0x2F, 0x00]);
    assert_eq!(smf, expected);
}

#[test]
fn audible_drops_muted_tracks_and_moves_drum_tracks() {
    let mut muted = TrackCfg { channel: 3, program: 48, volume: 60, mute: true, drums: false, bank_msb: 0, bank_lsb: 0, fx: Fx::default() };
    let mut kit = muted;
    kit.channel = 5;
    kit.mute = false;
    kit.drums = true;
    muted.channel = 3;
    let note = |channel: u8| TickNote { channel, pitch: 38, velocity: 100, start_tick: 0, end_tick: 72, eot_tick: 76 };
    let out = audible(&[note(3), note(5), note(7)], &[muted, kit]);
    assert_eq!(out.iter().map(|n| n.channel).collect::<Vec<_>>(), vec![9, 7]);
    assert_eq!(track_for_channel(&[muted, kit], 5), Some(kit));
    assert_eq!(track_for_channel(&[muted, kit], 1), None);
}

#[test]
fn rendered_drum_hits_of_a_rock_beat() {
    let h = render_drum_hits(PAT_ROCK, 0, 100, true);
    assert_eq!(
        h,
        vec![
            DrumHit { pitch: 36, velocity: 70, upbeat: false },
            DrumHit { pitch: 42, velocity: 62, upbeat: false },
            DrumHit { pitch: 42, velocity: 51, upbeat: true },
        ]
    );
    let h = render_drum_hits(PAT_REGGAE, 2, 100, false);
    assert_eq!(h.iter().map(|x| x.pitch).collect::<Vec<_>>(), vec![36, 42, 37]);
    assert!(h.iter().all(|x| !x.upbeat));
}

#[test]
fn find_char_gives_the_first_position() {
    let v: Vec<char> = "6/8/2".chars().collect();
    assert_eq!(find_char(&v, '/'), Some(1));
    assert_eq!(find_char(&v, 'x'), None);
}
