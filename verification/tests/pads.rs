use chords_server_rs::pads::{
    check_upload, content_type, ffplay_args, pad_player_args, is_allowed_ext, pad_file_name, pad_rand, path_for, ALLOWED_EXTS,
    MAX_UPLOAD_BYTES,
};

#[test]
fn ffplay_args_volume_borne() {
    let a = ffplay_args(80);
    assert_eq!(a[0], "-nodisp");
    assert!(a.iter().any(|s| s == "-volume"));
    assert!(a.iter().any(|s| s == "80"));
    assert!(ffplay_args(200).iter().any(|s| s == "100"));
    assert!(ffplay_args(0).iter().any(|s| s == "0"));
}

#[test]
fn extensions_acceptees_et_refusees() {
    assert!(ALLOWED_EXTS.contains(&"wav"));
    assert!(ALLOWED_EXTS.contains(&"mp3"));
    assert!(!ALLOWED_EXTS.contains(&"exe"));
    assert!(!ALLOWED_EXTS.contains(&"mid"));
}

#[test]
fn path_for_refuse_la_traversee() {
    let dir = "/home/u/samples/pads";
    assert!(path_for(dir, "pad_1.wav").is_some());
    assert!(path_for(dir, "pad_1.mp3").is_some());
    assert!(path_for(dir, "../secret.wav").is_none());
    assert!(path_for(dir, "pad_1/../../x").is_none());
    assert!(path_for(dir, "autre.wav").is_none());
    assert!(path_for(dir, "").is_none());
    assert!(path_for(dir, "pad_..wav").is_none());
}

#[test]
fn content_type_par_extension() {
    assert_eq!(content_type("wav"), "audio/wav");
    assert_eq!(content_type("MP3"), "audio/mpeg");
    assert_eq!(content_type("flac"), "audio/flac");
    assert_eq!(content_type("inconnu"), "application/octet-stream");
}

#[test]
fn path_for_joins_the_directory() {
    assert_eq!(path_for("/p", "pad_1.wav").as_deref(), Some("/p/pad_1.wav"));
    assert_eq!(path_for("/p/", "pad_1.wav").as_deref(), Some("/p/pad_1.wav"));
    assert_eq!(path_for("", "pad_1.wav").as_deref(), Some("pad_1.wav"));
    assert!(path_for("/p", "pad\\x").is_none());
}

#[test]
fn upload_checks_in_order() {
    assert_eq!(check_upload(0, "wav"), Err("fichier vide".to_string()));
    assert_eq!(check_upload(MAX_UPLOAD_BYTES + 1, "wav"), Err("fichier trop gros (max 25 Mo)".to_string()));
    assert_eq!(
        check_upload(4, "exe"),
        Err("extension « exe » non supportée (acceptées : wav, mp3, ogg, flac, m4a, aiff)".to_string())
    );
    assert_eq!(check_upload(4, "MP3"), Ok("mp3".to_string()));
    assert_eq!(check_upload(MAX_UPLOAD_BYTES, "aiff"), Ok("aiff".to_string()));
}

#[test]
fn upload_names_and_extensions() {
    assert!(is_allowed_ext("m4a"));
    assert!(!is_allowed_ext("WAV"));
    assert_eq!(pad_file_name(1700000000123, 123456, "wav"), "pad_1700000000123_3456.wav");
    assert_eq!(pad_rand(3, 10), 3u32.wrapping_mul(10).wrapping_add(10 / 7));
    assert_eq!(pad_rand(u32::MAX, 1 << 32), 0);
}

#[test]
fn save_refuse_vide_trop_gros_et_mauvaise_extension() {
    assert!(check_upload(0, "wav").is_err());
    assert!(check_upload(MAX_UPLOAD_BYTES + 1, "wav").is_err());
    assert!(check_upload(b"data".len(), "exe").is_err());
    assert!(check_upload(b"data".len(), "MP3").is_ok());
}

#[test]
fn pad_player_args_loop_and_path() {
    let a = pad_player_args(150, true, "/pads/pad_1.wav");
    assert_eq!(a, vec!["-nodisp", "-autoexit", "-loglevel", "quiet", "-volume", "100", "-loop", "0", "/pads/pad_1.wav"]);
    let a = pad_player_args(30, false, "p.mp3");
    assert_eq!(a, vec!["-nodisp", "-autoexit", "-loglevel", "quiet", "-volume", "30", "p.mp3"]);
}

#[test]
fn an_uploaded_name_is_served_back() {
    for ext in ALLOWED_EXTS {
        let name = pad_file_name(1_700_000_123_456, pad_rand(4242, 1_700_000_123_456), ext);
        assert!(path_for("/home/u/samples/pads", &name).is_some(), "{name}");
    }
}
