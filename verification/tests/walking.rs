use chords_server_rs::walking::{
    bass_clamp, generate_walking_bass, is_minor, is_minor_checked, walking_bass_checked, MAX_NOTE, MIN_NOTE,
};

#[test]
fn test_bass_clamp() {
    assert_eq!(bass_clamp(36), 36);
    assert_eq!(bass_clamp(48), 36);
    assert_eq!(bass_clamp(12), 24);
    assert_eq!(bass_clamp(22), 22);
    assert_eq!(bass_clamp(42), 42);
    assert_eq!(bass_clamp(21), 33);
    assert_eq!(bass_clamp(43), 31);
}

#[test]
fn test_is_minor_major() {
    assert!(!is_minor(&[48, 52, 55]));
    assert!(is_minor(&[48, 51, 55]));
    assert!(!is_minor(&[]));
    assert!(!is_minor(&[48]));
}

#[test]
fn test_generate_walking_bass_length() {
    let notes = generate_walking_bass(&[48, 52, 55], 53, 0, false);
    assert_eq!(notes.len(), 4);
}

#[test]
fn test_generate_walking_bass_first_note_is_root() {
    let notes = generate_walking_bass(&[48, 52, 55], 53, 0, false);
    assert_eq!(notes[0], 48, "Le temps 1 doit être la fondamentale");
}

#[test]
fn test_generate_walking_bass_minor_second_note() {
    let notes = generate_walking_bass(&[48, 51, 55], 53, 0, true);
    assert_eq!(notes[1], 50);
}

#[test]
fn test_generate_walking_bass_approche_chromatique() {
    let notes = generate_walking_bass(&[48, 52, 55], 53, 0, false);
    assert_eq!(notes[3], 41, "l'approche chromatique doit rester dans la tessiture");
}

#[test]
fn test_bass_clamp_stability() {
    for n in MIN_NOTE..=MAX_NOTE {
        assert_eq!(bass_clamp(n), n, "bass_clamp({n}) devrait être {n}");
    }
}

#[test]
fn checked_walking_matches_unchecked() {
    for seed in 0..200u64 {
        let a = walking_bass_checked(&[48, 52, 55], 53, seed, false).unwrap();
        assert_eq!(a, generate_walking_bass(&[48, 52, 55], 53, seed, false));
        assert_eq!(a[0], 48);
    }
    assert_eq!(walking_bass_checked(&[], 53, 0, false), None);
    assert_eq!(walking_bass_checked(&[255, 52], 53, 0, true), None);
}

#[test]
fn checked_minor_rejects_far_notes() {
    assert_eq!(is_minor_checked(&[48, 51, 55]), Some(true));
    assert_eq!(is_minor_checked(&[60, 40]), None);
    assert_eq!(is_minor_checked(&[]), Some(false));
}
