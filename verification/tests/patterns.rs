use chords_server_rs::patterns::{
    live_drum_hits, pat, sc, PAT_BOSSA, PAT_JAZZ, PAT_ONEDROP, PAT_POP, PAT_REGGAE, PAT_ROCK, DRUM_HH, DRUM_KICK,
};

#[test]
fn test_pat() {
    assert_eq!(pat("rock"), PAT_ROCK);
    assert_eq!(pat("reggae"), PAT_REGGAE);
    assert_eq!(pat("jazz"), PAT_JAZZ);
    assert_eq!(pat("pop"), PAT_POP);
    assert_eq!(pat("bossa"), PAT_BOSSA);
    assert_eq!(pat("onedrop"), PAT_ONEDROP);
    assert_eq!(pat("inconnu"), PAT_ROCK);
}

#[test]
fn test_sc() {
    assert_eq!(sc(127, 100), 100);
    assert_eq!(sc(64, 100), 50);
    assert_eq!(sc(0, 100), 0);
    assert_eq!(sc(200, 100), 127);
}

#[test]
fn rock_downbeat_kick_and_hihat() {
    let hits = live_drum_hits(0, PAT_ROCK, true, false, 4, 127, 127);
    assert_eq!(hits, vec![(DRUM_KICK, sc(127, 90)), (DRUM_HH, sc(127, 80))]);
    assert!(live_drum_hits(3, PAT_ROCK, false, false, 4, 127, 127).is_empty());
}
