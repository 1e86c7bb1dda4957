use chords_server_rs::dsp::Fx;
use chords_server_rs::navig::{
    classic_kept, click_sound_for, click_target, click_velocity, custom_note_route, custom_setup_messages, fluid_click_program,
    external_setup_messages, free_click_channel, note_out_channel, request_tracks, track_out_channel, RequestTrack,
};
use chords_server_rs::render::TrackCfg;

fn track(channel: u8, program: u16, volume: u8) -> TrackCfg {
    TrackCfg { channel, program, volume, mute: false, drums: false, bank_msb: 0, bank_lsb: 0, fx: Fx::default() }
}

#[test]
fn click_channel_is_the_first_free_melodic_one() {
    assert_eq!(free_click_channel(&[0, 2, 3, 9, 4]), 1);
    assert_eq!(free_click_channel(&[]), 0);
    let all_but_nine: Vec<u8> = (0..16).filter(|c| *c != 9).collect();
    assert_eq!(free_click_channel(&all_but_nine), 9);
}

#[test]
fn click_sound_falls_back_on_melodic_sounds() {
    assert_eq!(click_sound_for(9, 2), (34, 0));
    assert_eq!(click_sound_for(1, 0), (72, 115));
    assert_eq!(click_sound_for(1, 1), (72, 115));
    assert_eq!(click_sound_for(1, 2), (74, 114));
    assert_eq!(click_sound_for(1, 3), (55, 116));
}

#[test]
fn click_velocity_rounds_the_scaled_base() {
    assert_eq!(click_velocity(100, true), 127);
    assert_eq!(click_velocity(100, false), 120);
    assert_eq!(click_velocity(80, true), 102);
    assert_eq!(click_velocity(50, false), 60);
    assert_eq!(click_velocity(0, true), 0);
}

#[test]
fn setup_skips_muted_and_redirected_drum_tracks() {
    let mut muted = track(3, 48, 60);
    muted.mute = true;
    let mut drum_on_five = track(5, 0, 90);
    drum_on_five.drums = true;
    let mut kit = track(9, 25, 90);
    kit.bank_msb = 1;
    let mut lead = track(0, 51, 60);
    lead.fx = Fx { reverb: 40, chorus: 10, delay: 0, drive: 0 };
    let m = custom_setup_messages(&[lead, muted, drum_on_five, kit]);
    assert_eq!(
        m,
        vec![
            vec![0xB0, 123, 0],
            vec![0xB2, 123, 0],
            vec![0xB3, 123, 0],
            vec![0xB4, 123, 0],
            vec![0xB9, 123, 0],
            vec![0xC0, 51],
            vec![0xB0, 91, 40],
            vec![0xB0, 93, 10],
            vec![0xB9, 0, 1],
            vec![0xB9, 32, 0],
            vec![0xC9, 25],
        ]
    );
}

#[test]
fn piano_roll_notes_follow_their_track() {
    let mut drums = track(5, 0, 127);
    drums.drums = true;
    let mut muted = track(3, 48, 60);
    muted.mute = true;
    let tracks = [track(0, 51, 64), drums, muted];
    assert_eq!(custom_note_route(&tracks, 0, 100), Some((0, 50)));
    assert_eq!(custom_note_route(&tracks, 5, 100), Some((9, 100)));
    assert_eq!(custom_note_route(&tracks, 3, 100), None);
    assert_eq!(custom_note_route(&tracks, 7, 100), None);
}

#[test]
fn request_tracks_fill_defaults_or_use_the_switches() {
    let req = [RequestTrack { channel: 6, program: Some(40), volume: None, mute: None, drums: Some(true), bank_msb: None, bank_lsb: Some(2), effects: None }];
    let t = request_tracks(Some(&req), 51, true, true, true, true);
    assert_eq!(t, vec![TrackCfg { channel: 6, program: 40, volume: 100, mute: false, drums: true, bank_msb: 0, bank_lsb: 2, fx: Fx::default() }]);
    let t = request_tracks(None, 30, false, true, false, true);
    assert_eq!(t.len(), 5);
    assert_eq!((t[0].channel, t[0].program, t[0].volume, t[0].mute), (0, 30, 60, true));
    assert_eq!((t[1].channel, t[1].program, t[1].mute), (2, 33, false));
    assert_eq!((t[2].channel, t[2].program, t[2].mute), (3, 48, true));
    assert_eq!((t[3].channel, t[3].program, t[3].volume, t[3].mute), (9, 1, 90, false));
    assert_eq!((t[4].channel, t[4].program, t[4].volume, t[4].mute), (4, 2, 50, false));
}

#[test]
fn generated_notes_of_edited_channels_give_way() {
    assert_eq!(classic_kept(&[0, 2, 9, 0, 3], &[0, 3]), vec![1, 2]);
    assert_eq!(classic_kept(&[0, 2], &[]), vec![0, 1]);
    assert_eq!(classic_kept(&[], &[1]), Vec::<usize>::new());
}

#[test]
fn notes_of_any_drum_track_go_to_channel_nine() {
    let mut drums = track(5, 1, 100);
    drums.drums = true;
    let tracks = vec![track(5, 1, 100), drums, track(2, 1, 100)];
    assert_eq!(note_out_channel(&tracks, 5), 9);
    assert_eq!(note_out_channel(&tracks, 2), 2);
    assert_eq!(note_out_channel(&tracks, 7), 7);
    assert_eq!(track_out_channel(&tracks[1]), 9);
    assert_eq!(track_out_channel(&tracks[0]), 5);
}

#[test]
fn click_program_and_target_by_sound() {
    assert_eq!(fluid_click_program(1), Some(115));
    assert_eq!(fluid_click_program(2), Some(114));
    assert_eq!(fluid_click_program(3), Some(116));
    assert_eq!(fluid_click_program(0), None);
    assert_eq!(click_target(true, 3, 4, 72), (15, 55, 55));
    assert_eq!(click_target(true, 0, 4, 72), (9, 34, 33));
    assert_eq!(click_target(false, 1, 9, 34), (9, 34, 33));
    assert_eq!(click_target(false, 2, 6, 74), (6, 74, 74));
}

#[test]
fn external_setup_resets_then_sets_each_playing_track() {
    let mut drums = track(5, 7, 100);
    drums.drums = true;
    let mut muted = track(2, 33, 100);
    muted.mute = true;
    let msgs = external_setup_messages(&[track(0, 51, 80), muted, drums]);
    assert_eq!(msgs.len(), 5 + 3 + 3);
    assert_eq!(msgs[5], vec![0xC0, 51]);
    assert_eq!(msgs[8], vec![0xC9, 7]);
    assert_eq!(msgs[9], vec![0xB9, 91, 0]);
}
