use domcp::os_text::OsText;
use domcp::mounts::{
    join_container_path, map_container_path, prepare_bind_mount, prepare_extra_mounts, HostPath,
    PathComponent, PathFacts, PathPrefix,
};

fn os(text: &str) -> OsText {
    OsText::of(text)
}

fn posix(text: &str) -> HostPath {
    HostPath {
        name: os(text),
        components: None,
    }
}

/// What a host knows of a path that does not exist.
fn facts(text: &str) -> PathFacts {
    PathFacts {
        path: posix(text),
        resolved: None,
    }
}

fn normal(name: &str) -> PathComponent<OsText> {
    PathComponent::Normal(os(name))
}

/// A path on a drive, as a Windows host takes it apart.
fn drive_path(text: &str) -> HostPath {
    let mut parts = text.split('\\');
    let drive = parts.next().unwrap().as_bytes()[0];
    let mut components = vec![
        PathComponent::Prefix(PathPrefix::Disk(drive)),
        PathComponent::RootDir,
    ];
    components.extend(parts.map(normal));
    HostPath {
        name: os(text),
        components: Some(components),
    }
}

fn windows(components: Vec<PathComponent<OsText>>) -> HostPath {
    HostPath {
        name: os(""),
        components: Some(components),
    }
}

#[test]
fn prepare_extra_mounts_preserve_unix_paths() {
    let home = dirs::home_dir().expect("home directory unavailable");
    let mount = home.join(".ssh").display().to_string();
    let mounts = vec![os(&mount)];

    let prepared = prepare_extra_mounts(&mounts, &vec![facts(&mount)], &None);

    assert_eq!(prepared.len(), 1);
    assert_eq!(prepared[0].host.text, mount);
    assert_eq!(prepared[0].container, prepared[0].host.text);
}

#[test]
fn prepare_bind_mount_keeps_home_relative_shape_after_tilde_expansion() {
    let home = dirs::home_dir().expect("home directory unavailable");
    let expanded = home.join("projects").join("domcp").display().to_string();

    let prepared = prepare_bind_mount(&os(&expanded), &vec![facts(&expanded)], &None);

    assert_eq!(prepared.host.text, expanded);
    assert_eq!(prepared.container, prepared.host.text);
}

#[test]
fn prepare_extra_mounts_passthrough_outside_home() {
    let mount = "/tmp/domcp-non-home";
    let mounts = vec![os(mount)];

    let prepared = prepare_extra_mounts(&mounts, &vec![facts(mount)], &None);

    assert_eq!(prepared.len(), 1);
    assert_eq!(prepared[0].host.text, mount);
    assert_eq!(prepared[0].container, prepared[0].host.text);
}

#[test]
fn windows_home_paths_map_under_opt_home() {
    let home = drive_path(r"C:\Users\me");
    let mount = drive_path(r"C:\Users\me\Documents\repo");

    assert_eq!(map_container_path(&mount, &Some(home)), "/opt/home/Documents/repo");
}

#[test]
fn windows_prepared_home_mount_matches_tilde_expanded_layout() {
    let home = drive_path(r"C:\Users\me");
    let expanded = drive_path(r"C:\Users\me\projects\domcp");
    let text = expanded.name.clone();
    let known = vec![PathFacts {
        path: expanded,
        resolved: None,
    }];

    let prepared = prepare_bind_mount(&text, &known, &Some(home));

    assert_eq!(prepared.host, text);
    assert_eq!(prepared.container, "/opt/home/projects/domcp");
}

#[test]
fn windows_non_home_paths_map_under_opt_host() {
    let mount = drive_path(r"D:\work\repo");

    assert_eq!(map_container_path(&mount, &None), "/opt/host/d/work/repo");
    let home = drive_path(r"C:\Users\me");
    assert_eq!(map_container_path(&mount, &Some(home)), "/opt/host/d/work/repo");
}

#[test]
fn windows_prefixes() {
    let cases: Vec<(PathPrefix<OsText>, &str)> = vec![
        (PathPrefix::VerbatimDisk(b'C'), "/opt/host/c/x"),
        (
            PathPrefix::Unc(os("Srv"), os("Share")),
            "/opt/host/unc/Srv/Share/x",
        ),
        (
            PathPrefix::VerbatimUnc(os("s"), os("t")),
            "/opt/host/unc/s/t/x",
        ),
        (PathPrefix::Verbatim(os("pics")), "/opt/host/pics/x"),
        (PathPrefix::DeviceNs(os("COM42")), "/opt/host/COM42/x"),
    ];
    for (prefix, expected) in cases {
        let path = windows(vec![
            PathComponent::Prefix(prefix),
            PathComponent::RootDir,
            PathComponent::CurDir,
            PathComponent::ParentDir,
            normal("x"),
        ]);
        assert_eq!(map_container_path(&path, &None), expected);
    }
}

#[test]
fn windows_paths_without_a_prefix() {
    assert_eq!(map_container_path(&windows(vec![]), &None), "/opt/host");
    // The first component counts only as a prefix
    let path = windows(vec![normal("a"), normal("b")]);
    assert_eq!(map_container_path(&path, &None), "/opt/host/b");
    // The home directory itself
    let home = drive_path(r"C:\Users\me");
    let same = drive_path(r"C:\Users\me");
    assert_eq!(map_container_path(&same, &Some(home)), "/opt/home");
    // A name that only begins like the home directory
    let home = drive_path(r"C:\Users\me");
    let other = drive_path(r"C:\Users\meg");
    assert_eq!(map_container_path(&other, &Some(home)), "/opt/host/c/Users/meg");
}

#[test]
fn joining_container_paths() {
    let relative = vec![normal("a"), PathComponent::ParentDir, normal("b")];
    assert_eq!(join_container_path("/opt/home//", &relative, 0), "/opt/home/a/b");
    assert_eq!(join_container_path("/opt/home", &relative, 1), "/opt/home/b");
    assert_eq!(join_container_path("/", &relative, 3), "");
}

#[test]
fn resolved_paths_are_mounted() {
    let link = PathFacts {
        path: posix("link"),
        resolved: Some(posix("/real")),
    };
    let known = vec![facts("other"), link, facts("link")];
    let prepared = prepare_bind_mount(&os("link"), &known, &Some(posix("/home/me")));
    assert_eq!(prepared.host, os("/real"));
    assert_eq!(prepared.container, "/real");
}

#[test]
fn mounts_are_of_the_written_paths() {
    let elsewhere = PathFacts {
        path: posix("/a"),
        resolved: Some(posix("/root")),
    };
    let prepared = prepare_bind_mount(&os("/b"), &vec![elsewhere], &None);
    assert_eq!(prepared.host, os("/b"));
    assert_eq!(prepared.container, "/b");
}

#[test]
fn verbatim_paths_inside_home() {
    let home = drive_path(r"C:\Users\me");
    let resolved = windows(vec![
        PathComponent::Prefix(PathPrefix::VerbatimDisk(b'C')),
        PathComponent::RootDir,
        normal("Users"),
        normal("me"),
        normal("repo"),
    ]);
    assert_eq!(map_container_path(&resolved, &Some(home)), "/opt/home/repo");
    let home = drive_path(r"D:\Users\me");
    assert_eq!(
        map_container_path(&resolved, &Some(home)),
        "/opt/host/c/Users/me/repo"
    );
    let share = |prefix| {
        windows(vec![
            PathComponent::Prefix(prefix),
            PathComponent::RootDir,
            normal("x"),
        ])
    };
    let home = share(PathPrefix::Unc(os("s"), os("t")));
    let resolved = share(PathPrefix::VerbatimUnc(os("s"), os("t")));
    assert_eq!(map_container_path(&resolved, &Some(home)), "/opt/home");
    let other = share(PathPrefix::Unc(os("s"), os("u")));
    assert_eq!(
        map_container_path(&resolved, &Some(other)),
        "/opt/host/unc/s/t/x"
    );
}

#[test]
fn paths_that_look_alike_are_told_apart() {
    let odd = |byte: u8| OsText {
        bytes: vec![b'/', byte],
        text: "/\u{fffd}".to_string(),
    };
    let known = vec![PathFacts {
        path: HostPath {
            name: odd(0xfe),
            components: None,
        },
        resolved: Some(posix("/other")),
    }];
    let prepared = prepare_bind_mount(&odd(0xff), &known, &None);
    assert_eq!(prepared.host, odd(0xff));
    assert_eq!(prepared.container, "/\u{fffd}");
    assert_eq!(prepare_bind_mount(&odd(0xfe), &known, &None).host, os("/other"));
}
