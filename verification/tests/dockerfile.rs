use domcp::dockerfile::{generate, generate_for, Runner};

fn list(items: &[&str]) -> Vec<String> {
    items.iter().map(|s| s.to_string()).collect()
}

#[test]
fn runners_are_known_by_name() {
    assert_eq!(Runner::detect("uvx").unwrap(), Runner::Uvx);
    assert_eq!(Runner::detect("npx").unwrap(), Runner::Npx);
    assert_eq!(Runner::detect("pipx").unwrap(), Runner::Pipx);
    for name in ["", "UVX", "uv", "/usr/bin/uvx"] {
        let error = Runner::detect(name).unwrap_err();
        assert_eq!(error.name, name);
        assert_eq!(
            error.message(),
            format!("Unsupported runner `{name}`. Supported runners: uvx, npx, pipx")
        );
    }
}

#[test]
fn plain_dockerfile() {
    assert_eq!(
        generate(Runner::Uvx, &list(&["uvx", "x", "--flag"]), None, &[]),
        "FROM python:3-alpine\nRUN pip install --no-cache-dir uv\n\
         LABEL domcp.packages=\"\"\nENTRYPOINT [\"uvx\",\"x\",\"--flag\"]\n"
    );
    assert_eq!(
        generate_for(Runner::Pipx, "[]", None, &[]),
        "FROM python:3-alpine\nRUN pip install --no-cache-dir pipx\n\
         LABEL domcp.packages=\"\"\nENTRYPOINT []\n"
    );
}

#[test]
fn full_dockerfile() {
    assert_eq!(
        generate(
            Runner::Npx,
            &list(&["npx"]),
            Some(8080),
            &list(&[" vim", "git", "", "vim"])
        ),
        "FROM node:lts-alpine\nRUN apk add --no-cache git vim\n\
         LABEL domcp.packages=\"git,vim\"\nEXPOSE 8080\nENTRYPOINT [\"npx\"]\n"
    );
}

#[test]
fn entrypoints_are_json() {
    let command = list(&["uvx", "a \"b\"", "c\\d", "e\n", "\u{e9}", "\u{7f}"]);
    let text = generate(Runner::Npx, &command, None, &[]);
    let json = text.trim_end().rsplit("ENTRYPOINT ").next().unwrap();
    let back: Vec<String> = serde_json::from_str(json).unwrap();
    assert_eq!(back, command);
    assert!(generate(Runner::Npx, &[], None, &[]).ends_with("ENTRYPOINT []\n"));
    let plain = list(&["\u{e9}", "\u{7f}", ""]);
    assert!(generate(Runner::Npx, &plain, None, &[])
        .ends_with("ENTRYPOINT [\"\u{e9}\",\"\u{7f}\",\"\"]\n"));
}

#[test]
fn only_a_given_port_is_exposed() {
    let with = generate_for(Runner::Uvx, "[]", Some(1), &[]);
    let without = generate_for(Runner::Uvx, "[]", None, &[]);
    assert_eq!(with.lines().filter(|l| l.starts_with("EXPOSE ")).count(), 1);
    assert!(with.contains("\nEXPOSE 1\n"));
    assert!(!without.contains("EXPOSE"));
}

#[test]
fn the_dockerfile_depends_on_names_alone() {
    assert_eq!(
        generate_for(Runner::Uvx, "[]", None, &list(&["b", "a"])),
        generate_for(Runner::Uvx, "[]", None, &list(&[" a ", "b", "a"]))
    );
}
