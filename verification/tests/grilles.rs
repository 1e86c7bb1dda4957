use chords_server_rs::grilles::{civil_from_days, iso_from_secs, iso_now, sanitize_name, secure_path_name};

#[test]
fn sanitize_keeps_words_and_reduces_underscores() {
    assert_eq!(sanitize_name("Blue Bossa"), "Blue_Bossa");
    assert_eq!(sanitize_name("  a//b..c  "), "a_b_c");
    assert_eq!(sanitize_name("Été-2024_v2"), "Été-2024_v2");
    assert_eq!(sanitize_name("___"), "grille");
    assert_eq!(sanitize_name(""), "grille");
    assert_eq!(sanitize_name("../../etc/passwd"), "etc_passwd");
}

#[test]
fn secure_path_name_is_always_the_sanitized_name() {
    for n in ["a/b", "..", "x\\y", "ok", "", "ü/..", "C:\\win"] {
        assert_eq!(secure_path_name(n), Some(sanitize_name(n)));
    }
}

#[test]
fn civil_dates_of_known_days() {
    assert_eq!(civil_from_days(0), (1970, 1, 1));
    assert_eq!(civil_from_days(59), (1970, 3, 1));
    assert_eq!(civil_from_days(11016), (2000, 2, 29));
    assert_eq!(civil_from_days(-1), (1969, 12, 31));
    assert_eq!(civil_from_days(19723), (2024, 1, 1));
    assert_eq!(civil_from_days(-719468), (0, 3, 1));
}

#[test]
fn iso_timestamps() {
    assert_eq!(iso_from_secs(0), "1970-01-01T00:00:00Z");
    assert_eq!(iso_from_secs(951782400 + 3661), "2000-02-29T01:01:01Z");
    let now = iso_now();
    assert_eq!(now.len(), 20);
    assert!(now.ends_with('Z'));
}

#[test]
fn sanitized_names_are_stable_and_well_formed() {
    for name in ["__Ma grille//v2__", "a..b\\c", "***", "é-tude  n°1", "", "x"] {
        let once = sanitize_name(name);
        assert!(!once.is_empty());
        assert!(!once.starts_with('_') && !once.ends_with('_'));
        assert!(!once.contains("__"));
        assert_eq!(sanitize_name(&once), once);
    }
    assert_eq!(sanitize_name("***"), "grille");
    assert_eq!(sanitize_name("__Ma grille//v2__"), "Ma_grille_v2");
}
