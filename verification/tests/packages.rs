use domcp::packages::{canonicalize, label_value, parse_label_value, PACKAGES_LABEL_KEY};

fn list(items: &[&str]) -> Vec<String> {
    items.iter().map(|s| s.to_string()).collect()
}

#[test]
fn test_canonicalize_sorts_and_dedups() {
    let input = vec![
        " git ".to_string(),
        "openssh".to_string(),
        "git".to_string(),
        "".to_string(),
        "  ".to_string(),
    ];
    assert_eq!(
        canonicalize(&input),
        vec!["git".to_string(), "openssh".to_string()]
    );
}

#[test]
fn test_label_value_serializes_canonical_list() {
    let input = vec!["openssh".to_string(), "git".to_string()];
    assert_eq!(label_value(&input), "git,openssh");
}

#[test]
fn test_parse_label_value_roundtrip() {
    let value = "git,openssh";
    let parsed = parse_label_value(value).unwrap();
    assert_eq!(parsed, vec!["git".to_string(), "openssh".to_string()]);
}

#[test]
fn test_parse_label_value_empty_string() {
    let parsed = parse_label_value("").unwrap();
    assert!(parsed.is_empty());
}

#[test]
fn label_key() {
    assert_eq!(PACKAGES_LABEL_KEY, "domcp.packages");
}

#[test]
fn order_is_that_of_strings() {
    let input = list(&["b", "a", "B", "ab", "\u{e9}", "z", "\u{1f600}", "\u{ff5e}", ""]);
    let mut expected: Vec<String> = input.iter().filter(|s| !s.is_empty()).cloned().collect();
    expected.sort();
    assert_eq!(canonicalize(&input), expected);
}

#[test]
fn white_space_is_that_of_trim() {
    for code in 0..=0x10ffffu32 {
        if let Some(c) = char::from_u32(code) {
            if code > 0x4000 && code % 97 != 0 {
                continue;
            }
            let text = format!("{c}x{c}");
            assert_eq!(canonicalize(&[text.clone()]), vec![text.trim().to_string()]);
        }
    }
}

#[test]
fn same_packages_give_the_same_list() {
    assert_eq!(
        canonicalize(&list(&["b", "a", "b "])),
        canonicalize(&list(&[" a", "b", "", "a"]))
    );
    let once = canonicalize(&list(&["q", "p", "q"]));
    assert_eq!(canonicalize(&once), once);
}

#[test]
fn labels_give_packages_back() {
    let input = list(&[" vim", "git", "git", "\t"]);
    assert_eq!(
        parse_label_value(&label_value(&input)),
        Some(canonicalize(&input))
    );
    assert_eq!(parse_label_value(" , b ,,a, "), Some(list(&["a", "b"])));
    assert_eq!(parse_label_value(" \n "), Some(vec![]));
    assert_eq!(label_value(&[]), "");
    // A comma inside a name is taken for a separator
    assert_eq!(
        parse_label_value(&label_value(&list(&["a,b"]))),
        Some(list(&["a", "b"]))
    );
}
