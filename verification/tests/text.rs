use domcp::text::{
    before, decimal_text, ends_with, join, parse_u16, same, split, split_once, starts_with,
    strip_last, strip_prefix, trim,
};

#[test]
fn numbers_are_read_back() {
    for n in [0u16, 9, 10, 80, 8080, 65535] {
        assert_eq!(parse_u16(&decimal_text(n as u32)), Some(n));
        assert_eq!(decimal_text(n as u32), n.to_string());
    }
    assert_eq!(decimal_text(u32::MAX), "4294967295");
}

#[test]
fn cutting_and_joining() {
    assert_eq!(split("a,,b", ','), vec!["a", "", "b"]);
    assert_eq!(split("", ','), vec![""]);
    assert_eq!(split_once("k=v=w", '='), Some(("k", "v=w")));
    assert_eq!(split_once("k", '='), None);
    assert_eq!(join(&["a".to_string(), "b".to_string()], ", "), "a, b");
    assert_eq!(join(&[], ","), "");
    assert_eq!(trim("\u{2003} x y\n"), "x y");
    assert_eq!(trim(" \t"), "");
}

#[test]
fn prefixes_and_suffixes() {
    assert_eq!(strip_prefix("\u{e9}ab", "\u{e9}"), Some("ab"));
    assert_eq!(strip_prefix("a", "ab"), None);
    assert_eq!(strip_last("ab*", '*'), Some("ab"));
    assert_eq!(strip_last("", '*'), None);
    assert!(starts_with("abc", "ab"));
    assert!(!starts_with("ab", "abc"));
    assert!(ends_with("abc", "bc"));
    assert!(!ends_with("c", "bc"));
    assert!(same("x", "x"));
    assert!(!same("x", "X"));
}

#[test]
fn order_of_texts() {
    let words = ["", "a", "ab", "b", "B", "\u{e9}", "\u{1f600}", "\u{ffff}"];
    for a in words {
        for b in words {
            assert_eq!(before(a, b), a < b);
        }
    }
}
