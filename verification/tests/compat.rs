use jampgame_proxy::hooks::compat::{check_dir_traversal, cmd_tokenize_string2, filename_compare};

#[test]
fn dir_traversal_detection() {
    assert!(check_dir_traversal(b"../foo.pk3"));
    assert!(check_dir_traversal(b"..\\foo.pk3"));
    assert!(!check_dir_traversal(b"maps/foo.pk3"));
    assert!(!check_dir_traversal(b"base"));
}

#[test]
fn filename_compare_case_and_sep_insensitive() {
    // Returns true when strings *differ*.
    assert!(!filename_compare(b"foo.pk3", b"FOO.PK3"));
    assert!(!filename_compare(b"a/b.pk3", b"a\\b.pk3"));
    assert!(!filename_compare(b"a/b.pk3", b"a:b.pk3"));
    assert!(filename_compare(b"foo.pk3", b"bar.pk3"));
    assert!(!filename_compare(b"", b""));
}

fn toks(text: &[u8], ignore_quotes: bool) -> Vec<String> {
    cmd_tokenize_string2(text, ignore_quotes)
        .into_iter()
        .map(|t| String::from_utf8(t).unwrap())
        .collect()
}

#[test]
fn tokenizer_splits_quotes_and_comments() {
    assert_eq!(toks(b"  a bb\tccc ", false), vec!["a", "bb", "ccc"]);
    assert_eq!(toks(b"say \"hello world\" x", false), vec!["say", "hello world", "x"]);
    assert_eq!(toks(b"say \"hello world\" x", true), vec!["say", "\"hello", "world\"", "x"]);
    assert_eq!(toks(b"a // rest", false), vec!["a"]);
    assert_eq!(toks(b"a /* skip */ b", false), vec!["a", "b"]);
    assert_eq!(toks(b"a/*", false), vec!["a"]);
    assert_eq!(toks(b"\"open", false), vec!["open"]);
    assert!(toks(b"", false).is_empty());
    let many = "x ".repeat(2000);
    assert_eq!(toks(many.as_bytes(), true).len(), 1024);
}
