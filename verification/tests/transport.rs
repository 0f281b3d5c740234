use domcp::transport::{
    detect, ensure_bind_all, names_http, scan_combined_port_flag, scan_combined_transport_flag,
    scan_env_port, scan_env_transport, scan_port_flag, scan_transport_flag, Transport,
    DEFAULT_HTTP_PORT,
};

fn list(items: &[&str]) -> Vec<String> {
    items.iter().map(|s| s.to_string()).collect()
}

#[test]
fn test_stdio_default() {
    let cmd: Vec<String> = vec!["uvx".into(), "mcp-server-fetch".into()];
    assert_eq!(detect(&cmd, &[]), Transport::Stdio);
}

#[test]
fn test_detect_transport_flag_sse() {
    let cmd: Vec<String> = vec![
        "uvx".into(),
        "mcp-server-sse".into(),
        "--transport".into(),
        "sse".into(),
    ];
    assert_eq!(
        detect(&cmd, &[]),
        Transport::Http {
            port: DEFAULT_HTTP_PORT
        }
    );
}

#[test]
fn test_detect_transport_flag_streamable_http() {
    let cmd: Vec<String> = vec![
        "uvx".into(),
        "mcp-server-x".into(),
        "--transport".into(),
        "streamable-http".into(),
        "--port".into(),
        "3000".into(),
    ];
    assert_eq!(detect(&cmd, &[]), Transport::Http { port: 3000 });
}

#[test]
fn test_detect_combined_transport_flag() {
    let cmd: Vec<String> = vec![
        "npx".into(),
        "-y".into(),
        "some-mcp-server".into(),
        "--transport=sse".into(),
        "--port=9090".into(),
    ];
    assert_eq!(detect(&cmd, &[]), Transport::Http { port: 9090 });
}

#[test]
fn test_detect_port_flag_implies_http() {
    let cmd: Vec<String> = vec![
        "uvx".into(),
        "mcp-server-http".into(),
        "--port".into(),
        "8080".into(),
    ];
    assert_eq!(detect(&cmd, &[]), Transport::Http { port: 8080 });
}

#[test]
fn test_detect_combined_port_flag() {
    let cmd: Vec<String> = vec!["uvx".into(), "mcp-server-http".into(), "--port=4000".into()];
    assert_eq!(detect(&cmd, &[]), Transport::Http { port: 4000 });
}

#[test]
fn test_detect_env_transport() {
    let cmd: Vec<String> = vec!["uvx".into(), "mcp-server-x".into()];
    let envs: Vec<String> = vec!["MCP_TRANSPORT=sse".into()];
    assert_eq!(
        detect(&cmd, &envs),
        Transport::Http {
            port: DEFAULT_HTTP_PORT
        }
    );
}

#[test]
fn test_detect_env_port() {
    let cmd: Vec<String> = vec!["uvx".into(), "mcp-server-x".into()];
    let envs: Vec<String> = vec!["PORT=7777".into()];
    assert_eq!(detect(&cmd, &envs), Transport::Http { port: 7777 });
}

#[test]
fn test_detect_env_transport_and_port() {
    let cmd: Vec<String> = vec!["uvx".into(), "mcp-server-x".into()];
    let envs: Vec<String> = vec![
        "MCP_TRANSPORT=streamable-http".into(),
        "MCP_PORT=5555".into(),
    ];
    assert_eq!(detect(&cmd, &envs), Transport::Http { port: 5555 });
}

#[test]
fn test_detect_ignores_domcp_port_format() {
    // domcp's own -p uses HOST:CONTAINER, which should not confuse detection
    let cmd: Vec<String> = vec!["uvx".into(), "mcp-server-fetch".into()];
    // This only appears in Args.ports, not in the command itself
    assert_eq!(detect(&cmd, &[]), Transport::Stdio);
}

#[test]
fn test_detect_port_flag_ignores_colon_format() {
    let cmd: Vec<String> = vec![
        "uvx".into(),
        "mcp-server-fetch".into(),
        "--port".into(),
        "8080:8080".into(),
    ];
    assert_eq!(detect(&cmd, &[]), Transport::Stdio);
}

#[test]
fn test_ensure_bind_all_appends() {
    let mut cmd: Vec<String> = vec!["uvx".into(), "mcp-server-sse".into()];
    ensure_bind_all(&mut cmd);
    assert_eq!(cmd, vec!["uvx", "mcp-server-sse", "--host", "0.0.0.0"]);
}

#[test]
fn test_ensure_bind_all_skips_when_present() {
    let mut cmd: Vec<String> = vec![
        "uvx".into(),
        "mcp-server-sse".into(),
        "--host".into(),
        "127.0.0.1".into(),
    ];
    ensure_bind_all(&mut cmd);
    // Should NOT double-add
    assert_eq!(cmd, vec!["uvx", "mcp-server-sse", "--host", "127.0.0.1"]);
}

#[test]
fn test_ensure_bind_all_skips_combined() {
    let mut cmd: Vec<String> = vec![
        "uvx".into(),
        "mcp-server-sse".into(),
        "--host=0.0.0.0".into(),
    ];
    ensure_bind_all(&mut cmd);
    assert_eq!(cmd, vec!["uvx", "mcp-server-sse", "--host=0.0.0.0"]);
}

#[test]
fn default_port_is_8080() {
    let cmd = list(&["uvx", "s", "-t", "HTTP"]);
    assert_eq!(detect(&cmd, &[]), Transport::Http { port: 8080 });
}

#[test]
fn flag_values_are_not_read_as_flags() {
    assert_eq!(scan_port_flag(&list(&["uvx", "--port", "--port", "80"])), None);
    assert_eq!(
        scan_port_flag(&list(&["uvx", "--port", "x", "-p", "81", "-p", "82"])),
        Some(81)
    );
    assert_eq!(
        scan_transport_flag(&list(&["uvx", "-t", "stdio", "--transport", "Sse"])),
        Some("sse".to_string())
    );
    assert_eq!(scan_transport_flag(&list(&["uvx", "--transport"])), None);
    assert_eq!(scan_port_flag(&list(&["uvx", "-p"])), None);
}

#[test]
fn runner_name_is_no_port_flag() {
    assert_eq!(scan_port_flag(&list(&["--port", "8080"])), None);
    assert_eq!(scan_port_flag(&[]), None);
    assert_eq!(detect(&[], &[]), Transport::Stdio);
}

#[test]
fn port_numbers_are_exact() {
    assert_eq!(scan_port_flag(&list(&["x", "-p", "65535"])), Some(65535));
    assert_eq!(scan_port_flag(&list(&["x", "-p", "65536"])), None);
    assert_eq!(scan_port_flag(&list(&["x", "-p", "+80"])), Some(80));
    assert_eq!(scan_port_flag(&list(&["x", "-p", "00080"])), Some(80));
    assert_eq!(scan_port_flag(&list(&["x", "-p", "+"])), None);
    assert_eq!(scan_port_flag(&list(&["x", "-p", "-1"])), None);
    assert_eq!(scan_port_flag(&list(&["x", "-p", " 80"])), None);
    assert_eq!(scan_port_flag(&list(&["x", "-p", ""])), None);
}

#[test]
fn combined_flags() {
    assert_eq!(
        scan_combined_port_flag(&list(&["-p=1:1", "--port=x", "-p=77"])),
        Some(77)
    );
    assert_eq!(
        scan_combined_transport_flag(&list(&["--transport=stdio", "--transport=HTTP"])),
        Some("http".to_string())
    );
    assert_eq!(scan_combined_transport_flag(&list(&["-t=sse"])), None);
    assert_eq!(
        detect(&list(&["x", "--transport", "sse", "--port=9"]), &[]),
        Transport::Http { port: 9 }
    );
    assert_eq!(
        detect(
            &list(&["uvx", "mcp-server-sse", "--transport", "sse", "--port=9090"]),
            &list(&["PORT=1"])
        ),
        Transport::Http { port: 9090 }
    );
    assert_eq!(
        detect(&list(&["x", "--port=9", "--port", "8"]), &[]),
        Transport::Http { port: 8 }
    );
    assert_eq!(
        detect(&list(&["x", "--transport=sse", "--port", "9"]), &[]),
        Transport::Http { port: 9 }
    );
}

#[test]
fn environment_names_in_any_case() {
    assert_eq!(scan_env_port(&list(&["mcp_port=12"])), Some(12));
    assert_eq!(scan_env_port(&list(&["OTHER=12", "Server_Port=13"])), Some(13));
    assert_eq!(scan_env_port(&list(&["PORT", "PORT="])), None);
    assert_eq!(
        scan_env_transport(&list(&["fastmcp_transport=Streamable-HTTP"])),
        Some("streamable-http".to_string())
    );
    assert_eq!(
        scan_env_transport(&list(&["TRANSPORT=stdio", "MCP_TRANSPORT=a=b"])),
        None
    );
    // Upper case reaches beyond ASCII
    assert_eq!(
        scan_env_transport(&list(&["tran\u{17f}port=sse"])),
        Some("sse".to_string())
    );
}

#[test]
fn lower_case_reaches_beyond_ascii() {
    // The Kelvin sign is a letter that lower case makes ASCII
    assert_eq!(scan_transport_flag(&list(&["-t", "\u{212a}"])), None);
    assert!(names_http("streamable-http"));
    assert!(!names_http("SSE"));
}

#[test]
fn flags_outrank_variables() {
    let cmd = list(&["uvx", "s", "--port", "5"]);
    let one = list(&["PORT=1"]);
    let two = list(&["MCP_TRANSPORT=sse", "PORT=2"]);
    assert_eq!(detect(&cmd, &one), Transport::Http { port: 5 });
    assert_eq!(detect(&cmd, &one), detect(&cmd, &two));
}

#[test]
fn bind_all_is_done_once_and_keeps_the_transport() {
    let mut cmd = list(&["uvx", "s", "--port"]);
    let before = detect(&cmd, &[]);
    ensure_bind_all(&mut cmd);
    let once = cmd.clone();
    ensure_bind_all(&mut cmd);
    assert_eq!(cmd, once);
    assert_eq!(detect(&cmd, &[]), before);
    let mut listening = list(&["x", "--listen=1"]);
    ensure_bind_all(&mut listening);
    assert_eq!(listening, list(&["x", "--listen=1"]));
    let mut other = list(&["x", "--hostname"]);
    ensure_bind_all(&mut other);
    assert_eq!(other, list(&["x", "--hostname", "--host", "0.0.0.0"]));
}
