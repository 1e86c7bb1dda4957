use chords_server_rs::dsp::Fx;
use chords_server_rs::midi::{
    apply_config, apply_play_settings, apply_tracks, note_midi, note_midi_is_defined, notes_from_vec, tuning_messages, ConfigChange, Live,
    LiveTrack, PlaySettings, TrackCfg,
};
use chords_server_rs::smf::write_vlq;

#[test]
fn note_names_to_midi() {
    assert_eq!(note_midi("C4"), Ok(60));
    assert_eq!(note_midi("F#3"), Ok(54));
    assert_eq!(note_midi("Bb4"), Ok(70));
    assert_eq!(note_midi(" c-1 "), Ok(0));
    assert_eq!(note_midi("G9"), Ok(127));
    assert_eq!(note_midi("A9"), Err("note hors limites MIDI".to_string()));
    assert_eq!(note_midi("H4"), Err("note inconnue".to_string()));
    assert_eq!(note_midi("Cx"), Err("octave invalide".to_string()));
    assert!(!note_midi_is_defined(""));
    assert!(note_midi_is_defined("C4"));
}

#[test]
fn notes_from_vec_skips_bad_names() {
    let v: Vec<String> = vec!["C4".into(), "_".into(), "E4".into(), "Z1".into()];
    assert_eq!(notes_from_vec(&v), vec![60, 64]);
}

#[test]
fn apply_tracks_updates_matching_channel_only() {
    let mut live = Live {
        tracks: vec![LiveTrack::new(0, 51, 100), LiveTrack::new(2, 33, 90)],
        pattern: 0,
        tempo: 120,
        stop: false,
        sig: 44,
        walking: false,
        master_vol: 127,
        use432: false,
        loop_offset: 0,
        use_loops: false,
        loop_name: String::new(),
        loop_volume: 100,
    };
    apply_tracks(&mut live, &[TrackCfg { channel: 2, program: Some(40), volume: None, mute: Some(true) },
        TrackCfg { channel: 7, program: Some(1), volume: Some(1), mute: Some(true) }]);
    assert_eq!(live.tracks[1], LiveTrack { channel: 2, program: 40, volume: 90, mute: true });
    assert_eq!(live.tracks[0], LiveTrack::new(0, 51, 100));
}

#[test]
fn vlq_encoding() {
    let mut b = Vec::new();
    write_vlq(&mut b, 0);
    write_vlq(&mut b, 127);
    write_vlq(&mut b, 128);
    write_vlq(&mut b, 0x0FFF_FFFF);
    assert_eq!(b, vec![0x00, 0x7F, 0x81, 0x00, 0xFF, 0xFF, 0xFF, 0x7F]);
}

#[test]
fn fx_off_when_all_zero() {
    assert!(Fx::default().is_off());
    assert!(!Fx { reverb: 1, chorus: 0, delay: 0, drive: 0 }.is_off());
}

fn five_tracks_live() -> Live {
    Live {
        tracks: vec![LiveTrack::new(0, 51, 60), LiveTrack::new(2, 33, 70), LiveTrack::new(3, 48, 60), LiveTrack::new(9, 1, 90), LiveTrack::new(4, 2, 50)],
        pattern: 0,
        tempo: 120,
        stop: true,
        sig: 44,
        walking: false,
        master_vol: 127,
        use432: false,
        loop_offset: 0,
        use_loops: false,
        loop_name: String::new(),
        loop_volume: 100,
    }
}

#[test]
fn play_settings_use_the_switches_without_a_track_list() {
    let mut live = five_tracks_live();
    let s = PlaySettings { tempo: 90, sig: 34, pattern: 2, walking: Some(true), inst_val: 5, arps: false, bass: true, nappes: false, drums: true };
    apply_play_settings(&mut live, &s, None);
    assert_eq!((live.tempo, live.sig, live.pattern, live.walking, live.stop), (90, 34, 2, true, false));
    assert_eq!(live.tracks[0], LiveTrack { channel: 0, program: 5, volume: 60, mute: true });
    assert!(!live.tracks[1].mute);
    assert!(live.tracks[2].mute);
    assert!(!live.tracks[3].mute);
}

#[test]
fn play_settings_keep_the_tempo_when_zero_and_prefer_the_track_list() {
    let mut live = five_tracks_live();
    let s = PlaySettings { tempo: 0, sig: 44, pattern: 0, walking: None, inst_val: 5, arps: false, bass: false, nappes: false, drums: false };
    apply_play_settings(&mut live, &s, Some(&[TrackCfg { channel: 4, program: None, volume: Some(20), mute: None }]));
    assert_eq!(live.tempo, 120);
    assert_eq!(live.tracks[4], LiveTrack { channel: 4, program: 2, volume: 20, mute: false });
    assert_eq!(live.tracks[0], LiveTrack::new(0, 51, 60));
}

#[test]
fn config_changes_and_tuning_bends() {
    let mut live = five_tracks_live();
    let c = ConfigChange {
        drums: Some(false),
        bass: None,
        arpeggios: None,
        nappes: Some(true),
        pattern: Some(1),
        tempo: Some(100),
        sig: None,
        instrument: Some(12),
        walking: None,
        master_vol: Some(90),
        use432: Some(true),
    };
    let msgs = apply_config(&mut live, &c, None);
    assert_eq!(msgs, tuning_messages(true));
    assert_eq!(msgs[0], vec![0xE0, 97, 53]);
    assert!(live.tracks[3].mute);
    assert!(!live.tracks[2].mute);
    assert_eq!(live.tracks[0].program, 12);
    assert_eq!((live.pattern, live.tempo, live.master_vol, live.use432, live.stop), (1, 100, 90, true, true));
    let again = apply_config(&mut live, &c, None);
    assert!(again.is_empty(), "no bend when the tuning does not change");
    assert_eq!(tuning_messages(false)[3], vec![0xE4, 0, 64]);
}

#[test]
fn notes_from_vec_skips_names_it_cannot_cut() {
    let v: Vec<String> = vec!["".into(), "   ".into(), "C4".into(), "éa4".into(), "C99999999999".into(), "E4".into()];
    assert_eq!(notes_from_vec(&v), vec![60, 64]);
}
