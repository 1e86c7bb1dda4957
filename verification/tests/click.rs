use chords_server_rs::click::{apply_click_change, click_modes, load, next_frame, resample_i16, sound_name, ClickChange, ClickState};

#[test]
fn resample_conserve_longueur_et_valeurs() {
    let src: Vec<i16> = (0..4410).map(|i| (i % 100) as i16).collect();
    let up = resample_i16(&src, 1, 44100, 88200);
    assert_eq!(up.len(), 8820, "upsampling 2× → 2× de frames");
    let down = resample_i16(&src, 1, 44100, 22050);
    assert_eq!(down.len(), 2205, "downsampling /2 → moitié de frames");
    let cst = vec![1234i16; 1000];
    let cst_up = resample_i16(&cst, 1, 44100, 48000);
    assert_eq!(cst_up.len(), 1088);
    assert!(cst_up.iter().all(|&s| s == 1234));
}

#[test]
fn next_frame_loop_repart_a_zero() {
    assert_eq!(next_frame(0, 100, 0, 100, false), Some(0));
    assert_eq!(next_frame(99, 100, 0, 100, false), Some(99));
    assert_eq!(next_frame(100, 100, 0, 100, false), None, "fin sans boucle → stop");
    assert_eq!(next_frame(100, 100, 0, 100, true), Some(0), "fin avec boucle → retour au début");
    assert_eq!(next_frame(101, 100, 0, 100, true), Some(0), "au-delà de la fin → retour au début");
    assert_eq!(next_frame(0, 0, 0, 0, true), None, "buffer vide → rien");
}

#[test]
fn next_frame_loop_intervalle_locators() {
    assert_eq!(next_frame(50, 300, 100, 200, true), Some(50), "avant L → joué (passe 0)");
    assert_eq!(next_frame(199, 300, 100, 200, true), Some(199));
    assert_eq!(next_frame(200, 300, 100, 200, true), Some(100), "R atteint → retour à L");
    assert_eq!(next_frame(250, 300, 100, 200, true), Some(100), "au-delà de R → retour à L");
    assert_eq!(next_frame(200, 300, 100, 200, false), None, "sans boucle → fin à R");
    assert_eq!(next_frame(250, 300, 250, 100, true), Some(0));
}

#[test]
fn resample_interpolates_between_frames() {
    let up = resample_i16(&[0, 100], 1, 1, 2);
    assert_eq!(up, vec![0, 50, 100, 100]);
    let stereo = resample_i16(&[0, -100, 10, -90], 2, 2, 4);
    assert_eq!(stereo, vec![0, -100, 5, -95, 10, -90, 10, -90]);
    assert_eq!(resample_i16(&[7, 8, 9], 1, 44100, 44100), vec![7, 8, 9]);
    assert_eq!(resample_i16(&[], 2, 44100, 48000), Vec::<i16>::new());
    assert_eq!(resample_i16(&[5], 2, 44100, 48000), vec![5]);
}

#[test]
fn resample_rounds_halves_away_from_zero() {
    assert_eq!(resample_i16(&[0, 1], 1, 1, 2), vec![0, 1, 1, 1]);
    assert_eq!(resample_i16(&[0, -1], 1, 1, 2), vec![0, -1, -1, -1]);
}

#[test]
fn click_sound_names() {
    assert_eq!(sound_name(0), "Métronome GM");
    assert_eq!(sound_name(1), "Woodblock");
    assert_eq!(sound_name(2), "Agogo");
    assert_eq!(sound_name(3), "Taiko");
    assert_eq!(sound_name(42), "Métronome GM");
}

#[test]
fn click_defaults_and_load() {
    let mut st = ClickState::default();
    assert_eq!(st.volume, 80);
    assert!(st.accent);
    st.out_device = Some("hub".to_string());
    st.delay_ms = -12;
    let c = load(&st);
    assert_eq!(c.volume, 80);
    assert_eq!(c.out_device.as_deref(), Some("hub"));
    assert_eq!(c.delay_ms, -12);
    assert!(!c.in_render);
}

#[test]
fn click_change_caps_and_clears() {
    let mut st = ClickState::default();
    apply_click_change(&mut st, ClickChange {
        volume: Some(150),
        accent: Some(false),
        sound: Some(9),
        in_render: Some(true),
        out_device: Some("hub".to_string()),
        delay_ms: Some(-500),
    });
    assert_eq!(st.volume, 100);
    assert!(!st.accent);
    assert_eq!(st.sound, 3);
    assert!(st.in_render);
    assert_eq!(st.out_device, Some("hub".to_string()));
    assert_eq!(st.delay_ms, -200);
    apply_click_change(&mut st, ClickChange { volume: None, accent: None, sound: None, in_render: None, out_device: Some(String::new()), delay_ms: Some(42) });
    assert_eq!(st.out_device, None);
    assert_eq!(st.delay_ms, 42);
    assert_eq!(st.volume, 100);
}

#[test]
fn click_modes_request_flags_win() {
    assert_eq!(click_modes(true, false, false, true), (true, false));
    assert_eq!(click_modes(false, true, true, false), (false, true));
    assert_eq!(click_modes(false, false, true, true), (true, false));
    assert_eq!(click_modes(false, false, false, true), (false, true));
    assert_eq!(click_modes(false, false, false, false), (false, false));
}
