use jampgame_proxy::utils::{
    atoi, c_strlen, client_clean_name, is_color_string_ext, is_valid_ascii_str, strchrs,
    strip_color, strncpyz,
};

#[test]
fn valid_ascii() {
    assert!(is_valid_ascii_str(b"abc DEF09~"));
    assert!(!is_valid_ascii_str(b"abc\x01"));
    assert!(!is_valid_ascii_str(b"abc\x7f"));
}

#[test]
fn strchrs_finds_any() {
    assert_eq!(strchrs(b"say hello", b"\r\n"), None);
    assert_eq!(strchrs(b"a;b", b";"), Some(1));
    assert_eq!(strchrs(b"a\rb", b"\r\n"), Some(1));
    assert_eq!(strchrs(b"a\nb", b"\r\n"), Some(1));
}

#[test]
fn color_escape() {
    assert!(is_color_string_ext(b"^3red"));
    assert!(!is_color_string_ext(b"^fred"));
    assert!(!is_color_string_ext(b"^"));
    assert!(!is_color_string_ext(b"abc"));
}

#[test]
fn clean_name_leading_junk() {
    let mut out = [0u8; 36];
    client_clean_name(b"  **  Hello", &mut out);
    assert_eq!(c_strlen(&out), 7);
    assert_eq!(&out[..8], b"  Hello\0");
}

#[test]
fn clean_name_empty_falls_back_to_padawan() {
    let mut out = [0u8; 36];
    client_clean_name(b"   ", &mut out);
    assert_eq!(c_strlen(&out), 7);
    assert_eq!(&out[..7], b"Padawan");
}

#[test]
fn clean_name_triple_space_collapse() {
    let mut out = [0u8; 36];
    client_clean_name(b"a   b", &mut out);
    assert_eq!(&out[..5], b"a  b\0");
}

#[test]
fn atoi_matches_c() {
    assert_eq!(atoi(b"42"), 42);
    assert_eq!(atoi(b"  -7"), -7);
    assert_eq!(atoi(b"abc"), 0);
    assert_eq!(atoi(b"2147483648"), i32::MAX);
    assert_eq!(atoi(b"-2147483649"), i32::MIN);
    assert_eq!(atoi(b"12x"), 12);
}

#[test]
fn strip_color_removes_color_escapes() {
    let mut s = *b"^3red^7";
    strip_color(&mut s);
    assert_eq!(&s[..4], b"red\0");
}

#[test]
fn clean_name_color_only_becomes_padawan() {
    let mut out = [b'x'; 36];
    client_clean_name(b"^1^2", &mut out);
    assert_eq!(&out[..8], b"Padawan\0");
}

#[test]
fn clean_name_drops_controls_and_truncates() {
    let mut out = [0u8; 6];
    client_clean_name(b"ab\x01cd\x81efgh", &mut out);
    assert_eq!(&out, b"abcde\0");
    let mut small = [7u8; 1];
    client_clean_name(b"Bob", &mut small);
    assert_eq!(small, [0]);
}

#[test]
fn clean_name_squeezes_at_runs() {
    let mut out = [0u8; 36];
    client_clean_name(b"a@@@@b", &mut out);
    assert_eq!(&out[..5], b"a@@b\0");
}

#[test]
fn strip_color_joins_and_repeats() {
    // Removing `^1` joins `^` and `2` into a new escape, removed by the next pass.
    let mut s = *b"^^12x\0zz";
    strip_color(&mut s);
    assert_eq!(&s[..2], b"x\0");
    // Untouched text stays byte-identical.
    let mut t = *b"plain\0q";
    strip_color(&mut t);
    assert_eq!(&t, b"plain\0q");
}

#[test]
fn strncpyz_truncates_and_terminates() {
    let mut out = [9u8; 4];
    strncpyz(&mut out, b"abcdef");
    assert_eq!(&out, b"abc\0");
    let mut out2 = [9u8; 6];
    strncpyz(&mut out2, b"ab");
    assert_eq!(&out2, &[b'a', b'b', 0, 9, 9, 9]);
    let mut empty: [u8; 0] = [];
    strncpyz(&mut empty, b"ab");
}

#[test]
fn c_strlen_stops_at_nul_or_end() {
    assert_eq!(c_strlen(b"ab\0cd"), 2);
    assert_eq!(c_strlen(b"abc"), 3);
    assert_eq!(c_strlen(b""), 0);
}

#[test]
fn atoi_sign_and_blanks() {
    assert_eq!(atoi(b"\t+15"), 15);
    assert_eq!(atoi(b"-"), 0);
    assert_eq!(atoi(b"99999999999999999999999"), i32::MAX);
    assert_eq!(atoi(b" - 3"), 0);
}
