use chords_server_rs::server::{filter_excluded, is_plain_name, rendered_name_ok, i51, mv127, n, nd, nv, rk, s44, sig_code, sig_code_checked, t120, y};

#[test]
fn sig_code_examples() {
    assert_eq!(sig_code("4/4"), 44);
    assert_eq!(sig_code("3/4"), 34);
    assert_eq!(sig_code("6/8"), 68);
    assert_eq!(sig_code("5/4"), 54);
    assert_eq!(sig_code("4"), 44);
    assert_eq!(sig_code("4/4/4"), 44);
    assert_eq!(sig_code("x/8"), 48);
    assert_eq!(sig_code("12/+8"), 128);
    assert_eq!(sig_code_checked("9999/9"), None);
    assert_eq!(sig_code_checked("6553/5"), Some(65535));
}

#[test]
fn filter_excluded_keeps_other_channels() {
    assert_eq!(filter_excluded(&[0, 9, 2, 9, 3], Some(9)), vec![0, 2, 4]);
    assert_eq!(filter_excluded(&[0, 9, 2], None), vec![0, 1, 2]);
    assert_eq!(filter_excluded(&[], Some(1)), Vec::<usize>::new());
}

#[test]
fn request_defaults() {
    assert_eq!(t120(), 120);
    assert!(y());
    assert!(!n());
    assert_eq!(rk(), "rock");
    assert_eq!(s44(), "4/4");
    assert_eq!(i51(), 51);
    assert_eq!(nv(), 100);
    assert_eq!(nd(), 400);
    assert_eq!(mv127(), 127);
}

#[test]
fn filter_excluded_exclut_le_canal_rec() {
    let channels = [2u8, 3, 2];
    let out = filter_excluded(&channels, Some(2));
    assert_eq!(out.len(), 1);
    assert_eq!(channels[out[0]], 3, "le canal exclu ne doit pas être joué");
    let out = filter_excluded(&channels, None);
    assert_eq!(out.len(), 3);
    let out = filter_excluded(&channels, Some(9));
    assert_eq!(out.len(), 3, "pas de canal 9 ici → rien d'exclu");
}

#[test]
fn rendered_names_are_plain_ascii() {
    assert!(rendered_name_ok("pp_1700000000_3.wav"));
    assert!(rendered_name_ok("dual_12-main.wav"));
    assert!(!rendered_name_ok(""));
    assert!(!rendered_name_ok("../etc/passwd"));
    assert!(!rendered_name_ok("é.wav"));
}

#[test]
fn plain_names_cannot_leave_their_folder() {
    assert!(is_plain_name("snap5_160.wav"));
    assert!(!is_plain_name("a/b.wav"));
    assert!(!is_plain_name("a\\b.wav"));
    assert!(!is_plain_name("..wav"));
    assert!(is_plain_name("a.b.wav"));
}
