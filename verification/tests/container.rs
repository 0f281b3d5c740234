use domcp::container::{
    dash_out, image_tag, BuildStep, Detection, Engine, EngineError, ImagePackageState,
    InspectConfig, InspectRecord, Inspection, Lookup, RunConfig,
};
use domcp::mounts::BindMount;
use domcp::os_text::OsText;
use domcp::packages::{label_value, PACKAGES_LABEL_KEY};

fn list(items: &[&str]) -> Vec<String> {
    items.iter().map(|s| s.to_string()).collect()
}

fn mount(host: &str, container: &str) -> BindMount {
    BindMount {
        host: OsText::of(host),
        container: container.to_string(),
    }
}

fn engine(name: &str) -> Engine {
    Engine::located(name, &format!("/usr/bin/{name}\n"))
}

fn config() -> RunConfig {
    RunConfig {
        image: "domcp/x:latest".to_string(),
        workdir: None,
        extra_mounts: vec![],
        envs: vec![],
        network: None,
        ports: vec![],
        user_map: false,
    }
}

#[test]
fn test_image_tag_format() {
    let cmd: Vec<String> = vec!["uvx".into(), "mcp-server-fetch".into()];
    assert_eq!(image_tag(&cmd), "domcp/mcp-server-fetch:latest");
}

#[test]
fn test_image_tag_different_commands() {
    let cmd1: Vec<String> = vec!["uvx".into(), "mcp-server-fetch".into()];
    let cmd2: Vec<String> = vec!["uvx".into(), "mcp-server-git".into()];
    assert_ne!(image_tag(&cmd1), image_tag(&cmd2));
}

#[test]
fn test_image_tag_scoped_npm() {
    let cmd: Vec<String> = vec![
        "npx".into(),
        "-y".into(),
        "@modelcontextprotocol/server-filesystem".into(),
    ];
    assert_eq!(
        image_tag(&cmd),
        "domcp/modelcontextprotocol-server-filesystem:latest"
    );
}

#[test]
fn image_tag_edge_cases() {
    assert_eq!(image_tag(&[]), "domcp/mcp:latest");
    assert_eq!(image_tag(&list(&["uvx", "-q", "--x"])), "domcp/mcp:latest");
    assert_eq!(
        image_tag(&list(&["uvx", "--from", "Pkg.Name@1_0"])),
        "domcp/pkg-name-1-0:latest"
    );
    assert_eq!(image_tag(&list(&["npx", "@@a"])), "domcp/-a:latest");
    assert_eq!(
        image_tag(&list(&["uvx", "\u{c4}pp_\u{4e2d}"])),
        "domcp/\u{e4}pp-\u{4e2d}:latest"
    );
    assert_eq!(dash_out("a-\u{2161}\u{20ac}9"), "a-\u{2161}-9");
}

#[test]
fn podman_is_preferred() {
    match Engine::detect(None, &vec![]) {
        Detection::LookUp(name) => assert_eq!(name, "podman"),
        other => panic!("{other:?}"),
    }
    match Engine::detect(None, &vec![Lookup::Found(b" /usr/bin/podman \n".to_vec())]) {
        Detection::Found(engine) => {
            assert_eq!(engine.name, "podman");
            assert_eq!(engine.path, "/usr/bin/podman");
            assert!(engine.is_podman);
        }
        other => panic!("{other:?}"),
    }
    match Engine::detect(None, &vec![Lookup::NotFound]) {
        Detection::LookUp(name) => assert_eq!(name, "docker"),
        other => panic!("{other:?}"),
    }
    match Engine::detect(None, &vec![Lookup::Failed, Lookup::Found(b"/d\n".to_vec())]) {
        Detection::Found(engine) => {
            assert_eq!(engine.name, "docker");
            assert_eq!(engine.path, "/d");
            assert!(!engine.is_podman);
        }
        other => panic!("{other:?}"),
    }
    match Engine::detect(None, &vec![Lookup::NotFound, Lookup::Failed]) {
        Detection::Failed(error) => assert_eq!(
            error.message(),
            "No container engine found. Install podman or docker.\n\
             See: https://podman.io/getting-started/installation"
        ),
        other => panic!("{other:?}"),
    }
}

#[test]
fn named_engine_is_the_only_one() {
    match Engine::detect(Some("nerdctl"), &vec![]) {
        Detection::LookUp(name) => assert_eq!(name, "nerdctl"),
        other => panic!("{other:?}"),
    }
    match Engine::detect(Some("nerdctl"), &vec![Lookup::NotFound]) {
        Detection::Failed(error) => {
            assert!(matches!(error, EngineError::NotFound(_)));
            assert_eq!(error.message(), "`nerdctl` not found in PATH");
        }
        other => panic!("{other:?}"),
    }
    match Engine::detect(Some("docker"), &vec![Lookup::Failed]) {
        Detection::Failed(error) => {
            assert!(matches!(error, EngineError::LookupFailed(_)));
            assert_eq!(error.message(), "Failed to look up `docker`");
        }
        other => panic!("{other:?}"),
    }
}

#[test]
fn malformed_output_is_replaced() {
    let found = Engine::find("docker", &Lookup::Found(vec![b'/', 0xff, b'd', b'\n'])).unwrap();
    assert_eq!(found.path, "/\u{fffd}d");
    let found = Engine::find("docker", &Lookup::Found("/\u{e9}\n".as_bytes().to_vec())).unwrap();
    assert_eq!(found.path, "/\u{e9}");
}

fn records(labels: Option<Vec<(String, String)>>) -> Inspection {
    Inspection::Records(vec![InspectRecord {
        config: InspectConfig { labels },
    }])
}

#[test]
fn inspection_of_an_image() {
    let state = Engine::image_package_state("t", &Inspection::Absent).unwrap();
    assert!(matches!(state, ImagePackageState::NotFound));
    let state = Engine::image_package_state("t", &Inspection::Records(vec![])).unwrap();
    assert!(matches!(state, ImagePackageState::NotFound));
    let state = Engine::image_package_state("t", &records(None)).unwrap();
    assert!(matches!(state, ImagePackageState::Missing));
    let other = vec![("maintainer".to_string(), "me".to_string())];
    let state = Engine::image_package_state("t", &records(Some(other))).unwrap();
    assert!(matches!(state, ImagePackageState::Missing));
    let labels = vec![
        (PACKAGES_LABEL_KEY.to_string(), "b, a".to_string()),
        ("x".to_string(), "y".to_string()),
    ];
    match Engine::image_package_state("t", &records(Some(labels))).unwrap() {
        ImagePackageState::Present(packages) => assert_eq!(packages, list(&["a", "b"])),
        other => panic!("{other:?}"),
    }
    let error = Engine::image_package_state("t", &Inspection::Failed).unwrap_err();
    assert!(matches!(error, EngineError::InspectFailed(_)));
    assert_eq!(error.message(), "Failed to inspect image `t`");
    let error = Engine::image_package_state("t", &Inspection::Unreadable).unwrap_err();
    assert!(matches!(error, EngineError::InspectUnreadable(_)));
    assert_eq!(error.message(), "Failed to parse inspect output for `t`");
}

fn step(packages: &[&str], force: bool, state: Option<&ImagePackageState>) -> BuildStep {
    Engine::build_image(&list(&["uvx", "x"]), &list(packages), force, state)
}

#[test]
fn image_is_built_when_needed() {
    match step(&[], false, None) {
        BuildStep::Inspect(tag) => assert_eq!(tag, "domcp/x:latest"),
        other => panic!("{other:?}"),
    }
    match step(&[], true, None) {
        BuildStep::Build(tag) => assert_eq!(tag, "domcp/x:latest"),
        other => panic!("{other:?}"),
    }
    let missing = ImagePackageState::Missing;
    let present = ImagePackageState::Present(list(&["a", "b"]));
    let absent = ImagePackageState::NotFound;
    assert!(matches!(step(&[], false, Some(&absent)), BuildStep::Build(_)));
    assert!(matches!(step(&[], false, Some(&missing)), BuildStep::Reuse(_)));
    assert!(matches!(step(&["a"], false, Some(&missing)), BuildStep::Build(_)));
    assert!(matches!(step(&["b", " a", "b"], false, Some(&present)), BuildStep::Reuse(_)));
    assert!(matches!(step(&["b"], false, Some(&present)), BuildStep::Build(_)));
    assert!(matches!(step(&["b", "a"], true, Some(&present)), BuildStep::Build(_)));
}

#[test]
fn labelled_image_is_used_again() {
    let built = list(&["git", "vim"]);
    let labels = vec![(PACKAGES_LABEL_KEY.to_string(), label_value(&built))];
    let state = Engine::image_package_state("t", &records(Some(labels))).unwrap();
    assert!(matches!(step(&["vim ", "git", "vim"], false, Some(&state)), BuildStep::Reuse(_)));
    assert!(matches!(step(&["vim"], false, Some(&state)), BuildStep::Build(_)));
}

#[test]
fn engine_arguments() {
    assert_eq!(Engine::inspect_args("t"), list(&["image", "inspect", "t"]));
    let odd = OsText {
        bytes: vec![b'/', 0xff],
        text: "/\u{fffd}".to_string(),
    };
    let args = Engine::build_args(&odd, "t");
    assert_eq!(args[2], odd);
    let shown: Vec<String> = args.into_iter().map(|arg| arg.text).collect();
    assert_eq!(shown, list(&["build", "-f", "/\u{fffd}", "-t", "t", "."]));
}

#[test]
fn result_of_a_build() {
    assert_eq!(Engine::build_result("t".to_string(), true, b"noise").unwrap(), "t");
    let error = Engine::build_result("t".to_string(), false, b"no space").unwrap_err();
    assert!(matches!(error, EngineError::BuildFailed(_)));
    assert_eq!(error.message(), "Container image build failed:\nno space");
}

#[test]
fn plain_container() {
    assert_eq!(
        engine("podman").run_container(&config()),
        list(&["run", "-i", "--rm", "--hostname", "domcp", "domcp/x:latest"])
    );
}

#[test]
fn full_container_on_docker() {
    let mut c = config();
    c.network = Some("host".to_string());
    c.workdir = Some(mount("/w", "/w"));
    c.extra_mounts = vec![mount("/a", "/a"), mount("C:\\b", "/opt/host/c/b")];
    c.ports = list(&["1:1", "2:2"]);
    c.envs = list(&["K=v"]);
    c.user_map = true;
    assert_eq!(
        engine("docker").run_container_as(&c, 1000, 0),
        list(&[
            "run", "-i", "--rm", "--network", "host", "-v", "/w:/w", "-w", "/w", "-v", "/a:/a",
            "-v", "C:\\b:/opt/host/c/b", "--user", "1000:0", "-p", "1:1", "-p", "2:2", "-e", "K=v",
            "--hostname", "domcp", "domcp/x:latest",
        ])
    );
}

#[test]
fn podman_relabels_and_keeps_the_user() {
    let mut c = config();
    c.workdir = Some(mount("/w", "/w"));
    c.extra_mounts = vec![mount("/a", "/b")];
    c.user_map = true;
    assert_eq!(
        engine("podman").run_container(&c),
        list(&[
            "run", "-i", "--rm", "-v", "/w:/w:Z", "-w", "/w", "-v", "/a:/b:Z",
            "--userns=keep-id", "--hostname", "domcp", "domcp/x:latest",
        ])
    );
}

#[test]
fn docker_runs_as_the_current_user() {
    let mut c = config();
    c.user_map = true;
    let args = engine("docker").run_container(&c);
    let user = format!("{}:{}", nix::unistd::getuid(), nix::unistd::getgid());
    assert_eq!(args[3..5], [String::from("--user"), user]);
}

#[test]
fn default_isolation() {
    let args = engine("docker").run_container_as(&config(), 1, 1);
    assert!(!args.contains(&"-v".to_string()));
    assert!(!args.contains(&"-e".to_string()));
    assert!(!args.contains(&"--privileged".to_string()));
    let mut c = config();
    c.workdir = Some(mount("/w", "/w"));
    let args = engine("docker").run_container_as(&c, 1, 1);
    assert_eq!(args.iter().filter(|a| *a == "-v").count(), 1);
}

fn passes(args: &[String], option: &str, value: &str) -> bool {
    args.windows(2).any(|pair| pair[0] == option && pair[1] == value)
}

#[test]
fn what_is_asked_for_is_passed() {
    let mut c = config();
    c.network = Some("bridge".to_string());
    c.workdir = Some(mount("/w", "/x"));
    c.extra_mounts = vec![mount("/a", "/a"), mount("/b", "/c")];
    c.ports = list(&["1:1", "2:2"]);
    c.envs = list(&["K=v", "L=w"]);
    let args = engine("podman").run_container(&c);
    for (option, value) in [
        ("--network", "bridge"),
        ("-v", "/w:/x:Z"),
        ("-w", "/x"),
        ("-v", "/a:/a:Z"),
        ("-v", "/b:/c:Z"),
        ("-p", "1:1"),
        ("-p", "2:2"),
        ("-e", "K=v"),
        ("-e", "L=w"),
    ] {
        assert!(passes(&args, option, value), "{option} {value}");
    }
}

#[test]
fn the_user_is_mapped_where_asked_for() {
    let mut c = config();
    assert!(!engine("docker").run_container_as(&c, 5, 6).contains(&"--user".to_string()));
    c.user_map = true;
    assert!(passes(&engine("docker").run_container_as(&c, 5, 6), "--user", "5:6"));
    let args = engine("podman").run_container_as(&c, 5, 6);
    assert!(args.contains(&"--userns=keep-id".to_string()));
}

#[test]
fn tag_names_are_plain() {
    let command = list(&["npx", "@Scope/My_Pkg@1.0~x!"]);
    assert_eq!(image_tag(&command), "domcp/scope-my-pkg-1-0-x-:latest");
}

#[test]
fn the_rest_is_left_to_the_engine() {
    for name in ["podman", "docker"] {
        let args = engine(name).run_container_as(&config(), 5, 6);
        for option in ["--network", "-p", "--user", "--userns=keep-id"] {
            assert!(!args.contains(&option.to_string()));
        }
    }
}

#[test]
fn the_package_names_the_image() {
    assert_eq!(
        image_tag(&list(&["pipx", "run", "mcp-server-time"])),
        "domcp/mcp-server-time:latest"
    );
    assert_eq!(
        image_tag(&list(&["pipx", "--quiet", "run", "--verbose", "a", "b"])),
        "domcp/a:latest"
    );
    assert_eq!(image_tag(&list(&["pipx", "run"])), "domcp/mcp:latest");
    assert_eq!(image_tag(&list(&["pipx", "x", "run"])), "domcp/x:latest");
    assert_eq!(image_tag(&list(&["uvx", "run", "x"])), "domcp/run:latest");
}
