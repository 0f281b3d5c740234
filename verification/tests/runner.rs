use domcp::cli::Args;
use domcp::container::Engine;
use domcp::mounts::{HostPath, PathFacts};
use domcp::os_text::OsText;
use domcp::runner::{
    apply_http_transport, check_command, choose_workdir, collect_exposed_host_env, dry_run_report,
    dry_run_report_for, env_pattern_matches, plan, run, HostFacts, LaunchPlan, Outcome, RunError,
    Stage, WorkdirChoice,
};
use domcp::transport::Transport;

fn list(items: &[&str]) -> Vec<String> {
    items.iter().map(|s| s.to_string()).collect()
}

fn args(command: &[&str]) -> Args {
    Args {
        engine: None,
        workdir: None,
        no_workdir: false,
        extra_mounts: vec![],
        expose_env: vec![],
        network: None,
        packages: vec![],
        rebuild: false,
        ports: vec![],
        user_map: true,
        no_user_map: false,
        dry_run: false,
        command: list(command),
    }
}

fn paths(items: &[&str]) -> Vec<OsText> {
    items.iter().map(|s| OsText::of(s)).collect()
}

fn posix(text: &str) -> HostPath {
    HostPath {
        name: OsText::of(text),
        components: None,
    }
}

fn host() -> HostFacts {
    HostFacts {
        variables: vec![
            ("HOME".to_string(), "/h".to_string()),
            ("PORT".to_string(), "7001".to_string()),
        ],
        current_dir: Some(OsText::of("/w")),
        paths: vec![],
        home: None,
    }
}

#[test]
fn env_pattern_matches_exact() {
    assert!(env_pattern_matches("FOO", "FOO"));
    assert!(!env_pattern_matches("FOO", "FOOBAR"));
}

#[test]
fn env_pattern_matches_prefix() {
    assert!(env_pattern_matches("ATLASSIAN_*", "ATLASSIAN_TOKEN"));
    assert!(!env_pattern_matches("ATLASSIAN_*", "GITHUB_TOKEN"));
}

#[test]
fn env_pattern_edge_cases() {
    assert!(env_pattern_matches("*", ""));
    assert!(env_pattern_matches("*", "ANY"));
    assert!(env_pattern_matches("A*", "A"));
    assert!(!env_pattern_matches("A*B", "AxB"));
    assert!(env_pattern_matches("A**", "A*x"));
    assert!(!env_pattern_matches("", "A"));
    assert!(env_pattern_matches("", ""));
}

#[test]
fn collect_exposed_host_env_respects_patterns() {
    let key = "DOMCP_TEST_ENV_COLLECT";
    let value = "value123";
    let variables = vec![
        ("HOME".to_string(), "/h".to_string()),
        (key.to_string(), value.to_string()),
    ];
    let patterns = vec!["DOMCP_TEST_ENV_*".to_string(), key.to_string()];
    let collected = collect_exposed_host_env(&patterns, &variables);
    let matches: Vec<_> = collected.iter().filter(|(k, _)| k == key).collect();
    assert_eq!(1, matches.len());
    assert!(matches.iter().any(|(_, v)| v == value));
    assert_eq!(collected.len(), 1);
}

#[test]
fn collect_exposed_host_env_empty_without_patterns() {
    assert!(collect_exposed_host_env(&[], &vec![]).is_empty());
    assert!(collect_exposed_host_env(&[], &host().variables).is_empty());
}

#[test]
fn http_needs_a_network() {
    let mut ports = list(&["1:1"]);
    let error = apply_http_transport(&Some("none".to_string()), &mut ports, 8080).unwrap_err();
    assert_eq!(error, RunError::NoNetwork(8080));
    assert_eq!(
        error.message(),
        "--network none is incompatible with HTTP transport (port 8080).\n\
         Remove --network none or use --network bridge."
    );
    assert_eq!(ports, list(&["1:1"]));
}

#[test]
fn http_port_is_mapped() {
    let cases: Vec<(&[&str], &[&str])> = vec![
        (&[], &["80:80"]),
        (&["80"], &["80"]),
        (&["80:80"], &["80:80"]),
        (&["127.0.0.1:9:80"], &["127.0.0.1:9:80"]),
        (&["80:81"], &["80:81", "80:80"]),
        (&["180"], &["180", "80:80"]),
        (&["1:180"], &["1:180", "80:80"]),
    ];
    for (given, expected) in cases {
        let mut ports = list(given);
        assert_eq!(apply_http_transport(&Some("host".to_string()), &mut ports, 80), Ok(()));
        assert_eq!(ports, list(expected));
        assert_eq!(apply_http_transport(&None, &mut ports, 80), Ok(()));
        assert_eq!(ports, list(expected));
    }
}

#[test]
fn commands_are_checked() {
    assert_eq!(check_command(&[]), Err(RunError::NoCommand));
    assert_eq!(check_command(&list(&["uvx"])), Ok(()));
}

#[test]
fn plan_needs_a_command() {
    let error = plan(&args(&[]), &host()).unwrap_err();
    assert_eq!(error, RunError::NoCommand);
    assert_eq!(
        error.message(),
        "No command provided. Usage: domcp -- uvx <mcp-server> [args...]"
    );
}

#[test]
fn default_plan() {
    let made = plan(&args(&["uvx", "x"]), &host()).unwrap();
    assert_eq!(made.transport, Transport::Stdio);
    assert!(made.envs.is_empty());
    assert!(made.ports.is_empty());
    assert!(made.extra_mounts.is_empty());
    assert_eq!(made.network, None);
    assert_eq!(made.expose_port(), None);
    let workdir = made.workdir.unwrap();
    assert_eq!(workdir.host, OsText::of("/w"));
    assert_eq!(workdir.container, "/w");
}

#[test]
fn plan_passes_what_is_exposed() {
    let mut a = args(&["uvx", "x"]);
    a.expose_env = list(&["POR*"]);
    a.no_workdir = true;
    a.extra_mounts = paths(&["/d"]);
    let h = host();
    let made = plan(&a, &h).unwrap();
    assert_eq!(made.envs, list(&["PORT=7001"]));
    assert_eq!(made.transport, Transport::Http { port: 7001 });
    assert_eq!(made.expose_port(), Some(7001));
    assert_eq!(made.ports, list(&["7001:7001"]));
    assert!(made.workdir.is_none());
    assert_eq!(made.extra_mounts.len(), 1);
    let config = made.run_config("i".to_string());
    assert_eq!(config.image, "i");
    assert_eq!(config.envs, list(&["PORT=7001"]));
    assert!(config.user_map);
    a.network = Some("none".to_string());
    assert_eq!(plan(&a, &h).unwrap_err(), RunError::NoNetwork(7001));
}

#[test]
fn workdir_choices() {
    let mut a = args(&["uvx"]);
    assert!(matches!(choose_workdir(&a), WorkdirChoice::Current));
    a.workdir = Some(OsText::of("/x"));
    match choose_workdir(&a) {
        WorkdirChoice::Given(path) => assert_eq!(path, OsText::of("/x")),
        other => panic!("{other:?}"),
    }
    a.no_workdir = true;
    assert!(matches!(choose_workdir(&a), WorkdirChoice::Nothing));
}

fn http_plan() -> LaunchPlan {
    let mut a = args(&["uvx", "x", "--port", "80"]);
    a.network = Some("host".to_string());
    a.ports = list(&["1:1"]);
    a.extra_mounts = paths(&["/d", "/e"]);
    plan(&a, &host()).unwrap()
}

#[test]
fn report_of_a_dry_run() {
    let text = dry_run_report_for(&http_plan(), &paths(&["/d", "/e"]), "FROM x", "CMD");
    assert_eq!(
        text,
        "=== Detected transport ===\nHttp { port: 80 }\n\n=== Generated Dockerfile ===\n\
         FROM x\n=== Workdir ===\n/w -> /w\nExtra mount: /d -> /d\nExtra mount: /e -> /e\n\
         \n=== Port mappings ===\n  1:1\n  80:80\n\n=== Network ===\nhost\n\
         \n=== Container command ===\nCMD\n"
    );
}

#[test]
fn report_shows_the_command_and_transport_as_debug_does() {
    let mut a = args(&["uvx", "a \"b\"", "\u{1b}"]);
    a.no_workdir = true;
    let made = plan(&a, &host()).unwrap();
    let text = dry_run_report(&made, &a, "F");
    assert_eq!(
        text,
        format!(
            "=== Detected transport ===\n{:?}\n\n=== Generated Dockerfile ===\nF\n\
             === Workdir ===\n(none)\n\n=== Network ===\n(engine default)\n\
             \n=== Container command ===\n{:?}\n",
            Transport::Stdio, a.command
        )
    );
    let http = dry_run_report_for(&http_plan(), &vec![], "", "");
    assert!(http.contains(&format!("{:?}", Transport::Http { port: 80 })));
}

fn after(outcomes: &[Outcome], dry_run: bool, transport: Transport) -> Stage {
    let mut stage = Stage::Command;
    for outcome in outcomes {
        stage = run(stage, *outcome, dry_run, transport);
    }
    stage
}

#[test]
fn stages_of_a_run() {
    let done = [Outcome::Done; 7];
    assert_eq!(after(&done[..6], false, Transport::Stdio), Stage::Launch);
    assert_eq!(after(&done, false, Transport::Stdio), Stage::Proxy);
    assert_eq!(after(&done, false, Transport::Http { port: 1 }), Stage::Await);
    assert_eq!(
        run(Stage::Proxy, Outcome::Exited(4), false, Transport::Stdio),
        Stage::Finished(4)
    );
    assert_eq!(
        run(Stage::Await, Outcome::Exited(0), false, Transport::Http { port: 1 }),
        Stage::Finished(0)
    );
}

#[test]
fn stages_of_a_dry_run() {
    let done = [Outcome::Done; 7];
    assert_eq!(after(&done[..5], true, Transport::Stdio), Stage::Report);
    assert_eq!(after(&done[..6], true, Transport::Stdio), Stage::Finished(0));
    assert_eq!(after(&done, true, Transport::Stdio), Stage::Finished(0));
}

#[test]
fn failures_end_a_run() {
    for n in 0..7 {
        let mut outcomes = vec![Outcome::Done; n];
        outcomes.push(Outcome::Failed);
        outcomes.push(Outcome::Done);
        assert_eq!(after(&outcomes, false, Transport::Stdio), Stage::Failed);
    }
    assert_eq!(
        run(Stage::Finished(3), Outcome::Failed, false, Transport::Stdio),
        Stage::Finished(3)
    );
}

fn engine() -> Engine {
    Engine::located("docker", "/usr/bin/docker\n")
}

fn container_args(a: &Args, h: &HostFacts) -> Vec<String> {
    let made = plan(a, h).unwrap();
    engine().run_container_as(&made.run_config("i".to_string()), 1, 1)
}

fn passes(args: &[String], option: &str, value: &str) -> bool {
    args.windows(2).any(|pair| pair[0] == option && pair[1] == value)
}

#[test]
fn a_run_is_isolated_by_default() {
    let run = container_args(&args(&["uvx", "x"]), &host());
    assert_eq!(run.iter().filter(|a| *a == "-v").count(), 1);
    assert!(passes(&run, "-v", "/w:/w"));
    assert!(!run.contains(&"-e".to_string()));
    assert!(!run.contains(&"--privileged".to_string()));
    let mut a = args(&["uvx", "x"]);
    a.no_workdir = true;
    assert!(!container_args(&a, &host()).contains(&"-v".to_string()));
}

#[test]
fn http_servers_can_be_reached() {
    let mut a = args(&["uvx", "x", "--port", "90"]);
    assert!(passes(&container_args(&a, &host()), "-p", "90:90"));
    a.ports = list(&["8:90"]);
    let run = container_args(&a, &host());
    assert!(passes(&run, "-p", "8:90"));
    assert!(!passes(&run, "-p", "90:90"));
}

#[test]
fn exposed_variables_are_passed() {
    let mut a = args(&["uvx", "x"]);
    a.expose_env = list(&["HO*"]);
    let run = container_args(&a, &host());
    assert!(passes(&run, "-e", "HOME=/h"));
    assert_eq!(run.iter().filter(|a| *a == "-e").count(), 1);
}

#[test]
fn a_run_mounts_only_what_was_asked_for() {
    let mut h = host();
    h.paths = vec![
        PathFacts {
            path: posix("/root/.ssh"),
            resolved: None,
        },
        PathFacts {
            path: posix("link"),
            resolved: Some(posix("/real")),
        },
    ];
    let mut a = args(&["uvx", "x"]);
    a.workdir = Some(OsText::of("/a"));
    let made = plan(&a, &h).unwrap();
    assert_eq!(made.workdir.unwrap().host, OsText::of("/a"));
    assert!(made.extra_mounts.is_empty());
    a.extra_mounts = paths(&["link", "/e"]);
    let made = plan(&a, &h).unwrap();
    let hosts: Vec<_> = made.extra_mounts.iter().map(|m| m.host.text.as_str()).collect();
    assert_eq!(hosts, vec!["/real", "/e"]);
}

#[test]
fn a_run_passes_what_was_asked_for() {
    let mut a = args(&["uvx", "x"]);
    a.network = Some("host".to_string());
    a.ports = list(&["1:1"]);
    a.extra_mounts = paths(&["/e"]);
    let run = container_args(&a, &host());
    for (option, value) in [
        ("--network", "host"),
        ("-p", "1:1"),
        ("-v", "/e:/e"),
        ("-v", "/w:/w"),
        ("-w", "/w"),
        ("--user", "1:1"),
    ] {
        assert!(passes(&run, option, value), "{option} {value}");
    }
    a.user_map = false;
    assert!(!container_args(&a, &host()).contains(&"--user".to_string()));
}

#[test]
fn the_current_directory_matters_only_where_it_is_used() {
    let mut h = host();
    h.current_dir = None;
    let mut a = args(&["uvx", "x"]);
    a.workdir = Some(OsText::of("/a"));
    assert_eq!(plan(&a, &h).unwrap().workdir.unwrap().container, "/a");
    a.no_workdir = true;
    assert!(plan(&a, &h).unwrap().workdir.is_none());
}
