use chords_server_rs::num::{parse_signed_chars, parse_unsigned_chars};
use chords_server_rs::text::{
    chars_eq, chars_of, copy_range, find_chars, has_char, owned, push_decimal, push_decimal_padded, str_eq, string_from_chars,
    trim_chars,
};

fn cv(s: &str) -> Vec<char> {
    s.chars().collect()
}

#[test]
fn characters_round_trip() {
    assert_eq!(chars_of("été"), vec!['é', 't', 'é']);
    assert_eq!(string_from_chars(&['a', 'é']), "aé");
    assert_eq!(owned("x/y"), "x/y".to_string());
    assert_eq!(copy_range(&cv("abcdef"), 1, 4), cv("bcd"));
    assert!(has_char(&cv("a/b"), '/'));
    assert!(!has_char(&cv("ab"), '/'));
}

#[test]
fn comparisons_and_search() {
    assert!(str_eq("fluid", "fluid"));
    assert!(!str_eq("fluid", "Fluid"));
    assert!(chars_eq(&cv("ab"), &cv("ab")));
    assert!(!chars_eq(&cv("ab"), &cv("abc")));
    assert_eq!(find_chars(&cv("hw:3,0 ]: USB"), &cv("]: ")), Some(7));
    assert_eq!(find_chars(&cv("abc"), &cv("")), Some(0));
    assert_eq!(find_chars(&cv("abc"), &cv("x")), None);
}

#[test]
fn trimming_and_decimals() {
    assert_eq!(trim_chars(&cv("  C4\t\n")), cv("C4"));
    assert_eq!(trim_chars(&cv(" \t ")), Vec::<char>::new());
    let mut s = String::from("t=");
    push_decimal(&mut s, 0);
    push_decimal(&mut s, 4096);
    assert_eq!(s, "t=04096");
    let mut d = String::new();
    push_decimal_padded(&mut d, 7, 2);
    push_decimal_padded(&mut d, 2024, 2);
    assert_eq!(d, "072024");
}

#[test]
fn integer_parsing_follows_str_parse() {
    assert_eq!(parse_unsigned_chars(&cv("160"), 65535), Some(160));
    assert_eq!(parse_unsigned_chars(&cv("+9"), 65535), Some(9));
    assert_eq!(parse_unsigned_chars(&cv("70000"), 65535), None);
    assert_eq!(parse_unsigned_chars(&cv("-1"), 65535), None);
    assert_eq!(parse_unsigned_chars(&cv(""), 65535), None);
    assert_eq!(parse_signed_chars(&cv("-1"), -128, 127), Some(-1));
    assert_eq!(parse_signed_chars(&cv("-129"), -128, 127), None);
    assert_eq!(parse_signed_chars(&cv("+12"), -128, 127), Some(12));
    assert_eq!(parse_signed_chars(&cv("1a"), -128, 127), None);
}

#[test]
fn trim_chars_agrees_with_std_on_every_white_space() {
    for u in 0u32..0x3100 {
        if let Some(c) = char::from_u32(u) {
            let v: Vec<char> = vec![c, 'a', c];
            let expect: Vec<char> = String::from_iter(v.iter()).trim().chars().collect();
            assert_eq!(trim_chars(&v), expect, "U+{:04X}", u);
        }
    }
}
