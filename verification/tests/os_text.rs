use domcp::os_text::OsText;

#[test]
fn unicode_stays_unicode() {
    assert_eq!(OsText::of("a\u{e9}").extend("/\u{20ac}b"), OsText::of("a\u{e9}/\u{20ac}b"));
    assert_eq!(OsText::of("\u{e9}").bytes, vec![0xc3, 0xa9]);
}

#[test]
fn texts_are_the_same_where_bytes_and_text_are() {
    let one = OsText {
        bytes: vec![0xff],
        text: "\u{fffd}".to_string(),
    };
    let two = OsText {
        bytes: vec![0xfe],
        text: "\u{fffd}".to_string(),
    };
    assert!(one.is(&one.copy()));
    assert!(!one.is(&two));
    assert_eq!(one.extend("x").bytes, vec![0xff, b'x']);
}
