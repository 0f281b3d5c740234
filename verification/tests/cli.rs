use domcp::cli::{expand_tilde, expand_tilde_in, parse, parse_in, Args};
use domcp::os_text::OsText;

fn args() -> Args {
    Args {
        engine: None,
        workdir: None,
        no_workdir: false,
        extra_mounts: vec![],
        expose_env: vec![],
        network: None,
        packages: vec![],
        rebuild: false,
        ports: vec![],
        user_map: true,
        no_user_map: false,
        dry_run: false,
        command: vec!["uvx".to_string(), "x".to_string()],
    }
}

fn os(text: &str) -> OsText {
    OsText::of(text)
}

fn some(text: &str) -> Option<OsText> {
    Some(os(text))
}

fn list(texts: &[&str]) -> Vec<OsText> {
    texts.iter().map(|text| os(text)).collect()
}

/// Expands a text, and shows what comes of it.
fn expand(path: &str, home: &Option<OsText>, windows: bool) -> String {
    let r = expand_tilde_in(&os(path), home, windows);
    assert_eq!(r, os(&r.text));
    r.text
}

fn home() -> std::path::PathBuf {
    dirs::home_dir().expect("home directory unavailable")
}

#[test]
fn expand_tilde_rewrites_bare_home_directory() {
    let home = home();
    assert_eq!(std::path::PathBuf::from(expand_tilde(&os("~")).text), home);
}

#[test]
fn expand_tilde_rewrites_home_relative_paths() {
    let home = home();
    assert_eq!(std::path::PathBuf::from(expand_tilde(&os("~/repo")).text), home.join("repo"));
    assert_eq!(
        std::path::PathBuf::from(expand_tilde(&os("~/.ssh/config")).text),
        home.join(".ssh").join("config")
    );
}

#[test]
fn expand_tilde_leaves_non_tilde_paths_unchanged() {
    let path = "/tmp/domcp-test-path";
    assert_eq!(expand_tilde(&os(path)), os(path));
}

#[test]
fn expand_tilde_does_not_expand_other_users() {
    let path = "~alice/project";
    assert_eq!(expand_tilde(&os(path)), os(path));
}

#[test]
fn tilde_in_a_given_home() {
    let home = some("/home/me");
    let root = some("/");
    assert_eq!(expand("~", &home, false), "/home/me");
    assert_eq!(expand("~/a/b", &home, false), "/home/me/a/b");
    assert_eq!(expand("~/a", &root, false), "/a");
    assert_eq!(expand("~/", &home, false), "/home/me/");
    assert_eq!(expand("~//etc", &home, false), "/home/me/etc");
    assert_eq!(expand("~///a//b", &root, false), "/a//b");
    assert_eq!(expand("~/\\a", &home, false), "/home/me/\\a");
    assert_eq!(expand("a/~/b", &home, false), "a/~/b");
    assert_eq!(expand("", &home, false), "");
    assert_eq!(expand("~", &None, false), "~");
    assert_eq!(expand("~/a", &None, false), "~/a");
}

#[test]
fn tilde_on_windows() {
    let home = some("C:\\Users\\u");
    assert_eq!(expand("~", &home, true), "C:\\Users\\u");
    assert_eq!(expand("~/repo", &home, true), "C:\\Users\\u\\repo");
    assert_eq!(expand("~/a/b", &home, true), "C:\\Users\\u\\a/b");
    assert_eq!(expand("~/\\etc", &home, true), "C:\\Users\\u\\etc");
    assert_eq!(expand("~/x", &some("D:\\"), true), "D:\\x");
    assert_eq!(expand("~\\x", &home, true), "~\\x");
    assert_eq!(expand("~/x", &some("C:"), true), "C:x");
    assert_eq!(expand("~/x", &some("C:"), false), "C:/x");
}

#[test]
fn joining_is_that_of_paths() {
    for base in ["/home/me", "/", "rel/dir", "/trailing/"] {
        for rest in ["x", "", "a/b", "../up"] {
            let joined = std::path::Path::new(base).join(rest);
            assert_eq!(
                expand(&format!("~/{rest}"), &some(base), false),
                joined.to_string_lossy()
            );
        }
    }
}

#[test]
fn arguments_are_settled() {
    let home = some("/h");
    let mut a = args();
    a.workdir = some("~/w");
    a.extra_mounts = list(&["~", "/d", "~/e"]);
    let r = parse_in(a, &home, false);
    assert_eq!(r.workdir, some("/h/w"));
    assert_eq!(r.extra_mounts, list(&["/h", "/d", "/h/e"]));
    assert!(r.user_map);
    assert_eq!(r.command, vec!["uvx", "x"]);
    let mut a = args();
    a.no_user_map = true;
    let r = parse_in(a, &home, false);
    assert!(!r.user_map);
    assert_eq!(r.workdir, None);
}

#[test]
fn arguments_are_settled_for_the_user() {
    let mut a = args();
    a.extra_mounts = list(&["~/x"]);
    let r = parse(a);
    assert_eq!(std::path::PathBuf::from(&r.extra_mounts[0].text), home().join("x"));
}

#[test]
fn home_matters_only_where_named() {
    let mut a = args();
    a.workdir = some("/w");
    a.extra_mounts = list(&["~alice/x", "y~"]);
    let here = parse_in(a.clone(), &some("/h"), false);
    let nowhere = parse_in(a.clone(), &None, false);
    let settled = parse(a);
    assert_eq!(here.extra_mounts, list(&["~alice/x", "y~"]));
    assert_eq!(here.extra_mounts, nowhere.extra_mounts);
    assert_eq!(here.extra_mounts, settled.extra_mounts);
    assert_eq!(settled.workdir, some("/w"));
}

#[test]
fn bytes_are_kept() {
    // Not Unicode: shown with a replacement character
    let odd = OsText {
        bytes: vec![b'/', 0xff],
        text: "/\u{fffd}".to_string(),
    };
    assert_eq!(expand_tilde(&odd), odd);
    let home = Some(odd.clone());
    assert_eq!(expand_tilde_in(&os("~"), &home, false), odd);
    let below = expand_tilde_in(&os("~/\u{e9}"), &home, false);
    assert_eq!(below.bytes, vec![b'/', 0xff, b'/', 0xc3, 0xa9]);
    assert_eq!(below.text, "/\u{fffd}/\u{e9}");
    let mut a = args();
    a.workdir = Some(odd.clone());
    assert_eq!(parse(a).workdir, Some(odd));
}
