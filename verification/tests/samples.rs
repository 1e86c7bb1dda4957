use chords_server_rs::samples::sample_key;

#[test]
fn sample_key_splits_name_and_tempo() {
    assert_eq!(sample_key("snap5_160"), Some(("snap5".to_string(), 160)));
}

#[test]
fn sample_key_uses_the_last_underscore() {
    assert_eq!(sample_key("funk_loop_92"), Some(("funk_loop".to_string(), 92)));
}

#[test]
fn sample_key_rejects_names_without_tempo() {
    assert_eq!(sample_key("snap5"), None);
    assert_eq!(sample_key("snap5_fast"), None);
    assert_eq!(sample_key("snap5_70000"), None);
}

#[test]
fn sample_key_accepts_a_plus_sign_like_str_parse() {
    assert_eq!(sample_key("kick_+120"), Some(("kick".to_string(), 120)));
    assert_eq!(sample_key("_90"), Some((String::new(), 90)));
}
