//! Which transport an MCP server speaks, read off its command line and environment.

use crate::platform;
use crate::text;
use crate::text::{parse_u16, same, split_once};
use vstd::prelude::*;

verus! {

/// The detected MCP transport mode.
#[derive(Debug, Clone, Copy, PartialEq, Eq, Structural)]
pub enum Transport {
    /// JSON-RPC over stdin/stdout (the default for most MCP servers).
    Stdio,
    /// HTTP-based: SSE or Streamable HTTP on a specific port.
    Http { port: u16 },
}

/// The port of an HTTP server that names none.
pub const DEFAULT_HTTP_PORT: u16 = 8080;

/// The flags that carry a transport.
pub open spec fn transport_flags() -> Set<Seq<char>> {
    set!["--transport"@, "-t"@]
}

/// The flags that carry a transport in the form with an equals sign.
pub open spec fn attached_transport_flags() -> Set<Seq<char>> {
    set!["--transport"@]
}

/// The flags that carry a port number.
pub open spec fn port_flags() -> Set<Seq<char>> {
    set!["--port"@, "-p"@]
}

/// The flags that carry an address to listen on.
pub open spec fn host_flags() -> Set<Seq<char>> {
    set!["--host"@, "--bind"@, "--listen"@]
}

/// The environment variables, in upper case, that carry a transport.
pub open spec fn transport_variables() -> Set<Seq<char>> {
    set!["MCP_TRANSPORT"@, "TRANSPORT"@, "FASTMCP_TRANSPORT"@]
}

/// The environment variables, in upper case, that carry a port number.
pub open spec fn port_variables() -> Set<Seq<char>> {
    set!["PORT"@, "MCP_PORT"@, "FASTMCP_PORT"@, "SERVER_PORT"@]
}

/// Whether a transport, in lower case, is one over HTTP.
pub open spec fn is_http_transport(name: Seq<char>) -> bool {
    name == "sse"@ || name == "streamable-http"@ || name == "http"@
}

/// The values of some flags, each the argument behind its flag. A value is not itself read
/// as a flag, and a flag at the end has none.
pub open spec fn following(args: Seq<Seq<char>>, flags: Set<Seq<char>>) -> Seq<Seq<char>>
    decreases args.len(),
{
    if args.len() == 0 {
        Seq::empty()
    } else if flags.contains(args[0]) {
        if args.len() == 1 {
            Seq::empty()
        } else {
            seq![args[1]] + following(args.skip(2), flags)
        }
    } else {
        following(args.skip(1), flags)
    }
}

/// The values of some flags that stand in one argument with their flag, behind an equals sign.
pub open spec fn attached(args: Seq<Seq<char>>, flags: Set<Seq<char>>) -> Seq<Seq<char>>
    decreases args.len(),
{
    if args.len() == 0 {
        Seq::empty()
    } else {
        match text::halves(args[0], '=') {
            Some((flag, value)) if flags.contains(flag) => seq![value] + attached(
                args.skip(1),
                flags,
            ),
            _ => attached(args.skip(1), flags),
        }
    }
}

/// The values of some environment variables, whatever the case their names are written in.
pub open spec fn assigned(envs: Seq<Seq<char>>, names: Set<Seq<char>>) -> Seq<Seq<char>>
    decreases envs.len(),
{
    if envs.len() == 0 {
        Seq::empty()
    } else {
        match text::halves(envs[0], '=') {
            Some((name, value)) if names.contains(platform::uppercase(name)) => seq![value]
                + assigned(envs.skip(1), names),
            _ => assigned(envs.skip(1), names),
        }
    }
}

/// The first value that is a transport over HTTP, in lower case.
pub open spec fn first_http(values: Seq<Seq<char>>) -> Option<Seq<char>>
    decreases values.len(),
{
    if values.len() == 0 {
        None
    } else if is_http_transport(platform::lowercase(values[0])) {
        Some(platform::lowercase(values[0]))
    } else {
        first_http(values.skip(1))
    }
}

/// The first value that is a port number.
pub open spec fn first_port(values: Seq<Seq<char>>) -> Option<u16>
    decreases values.len(),
{
    if values.len() == 0 {
        None
    } else {
        match text::number_u16(values[0]) {
            Some(port) => Some(port),
            None => first_port(values.skip(1)),
        }
    }
}

/// A port, or the usual one where there is none.
pub open spec fn http_on(port: Option<u16>) -> Transport {
    match port {
        Some(port) => Transport::Http { port },
        None => Transport::Http { port: DEFAULT_HTTP_PORT },
    }
}

/// The port numbers behind the flags of a command, its first word left out.
pub open spec fn flag_ports(command: Seq<Seq<char>>) -> Seq<Seq<char>> {
    if command.len() == 0 {
        Seq::empty()
    } else {
        following(command.skip(1), port_flags())
    }
}

/// The port that a command names: behind a port flag, or else in one argument with it.
pub open spec fn command_port(command: Seq<Seq<char>>) -> Option<u16> {
    match first_port(flag_ports(command)) {
        Some(port) => Some(port),
        None => first_port(attached(command, port_flags())),
    }
}

/// Whether a command names a transport over HTTP, in either form of the flag.
pub open spec fn names_http_transport(command: Seq<Seq<char>>) -> bool {
    ||| first_http(following(command, transport_flags())) is Some
    ||| first_http(attached(command, attached_transport_flags())) is Some
}

/// The transport that a command and the environment it is given ask for.
pub open spec fn detected(command: Seq<Seq<char>>, envs: Seq<Seq<char>>) -> Transport {
    let flag_port = command_port(command);
    let env_port = first_port(assigned(envs, port_variables()));
    if names_http_transport(command) || flag_port is Some {
        http_on(flag_port)
    } else if first_http(assigned(envs, transport_variables())) is Some || env_port is Some {
        http_on(env_port)
    } else {
        Transport::Stdio
    }
}

/// What the value at the front contributes to [`first_http`].
proof fn lemma_first_http(value: Seq<char>, rest: Seq<Seq<char>>)
    ensures
        first_http(seq![value] + rest) == if is_http_transport(platform::lowercase(value)) {
            Some(platform::lowercase(value))
        } else {
            first_http(rest)
        },
{
    assert((seq![value] + rest).skip(1) =~= rest);
}

/// What the value at the front contributes to [`first_port`].
proof fn lemma_first_port(value: Seq<char>, rest: Seq<Seq<char>>)
    ensures
        first_port(seq![value] + rest) == match text::number_u16(value) {
            Some(port) => Some(port),
            None => first_port(rest),
        },
{
    assert((seq![value] + rest).skip(1) =~= rest);
}

/// Whether a transport name, in lower case, is one over HTTP.
pub fn names_http(name: &str) -> (r: bool)
    ensures
        r == is_http_transport(name@),
{
    same(name, "sse") || same(name, "streamable-http") || same(name, "http")
}

/// A transport over HTTP in lower case, or nothing.
fn http_transport(value: &str) -> (r: Option<String>)
    ensures
        r.deep_view() == if is_http_transport(platform::lowercase(value@)) {
            Some(platform::lowercase(value@))
        } else {
            None
        },
{
    let lower = value.to_lowercase();
    if names_http(lower.as_str()) {
        Some(lower)
    } else {
        None
    }
}

/// Look for `--transport <value>` where value indicates HTTP.
pub fn scan_transport_flag(command: &[String]) -> (r: Option<String>)
    ensures
        r.deep_view() == first_http(following(command.deep_view(), transport_flags())),
{
    let ghost args = command.deep_view();
    let mut i: usize = 0;
    proof {
        assert(args.skip(0) =~= args);
    }
    while i < command.len()
        invariant
            args == command.deep_view(),
            i <= command.len(),
            first_http(following(args.skip(i as int), transport_flags())) == first_http(
                following(args, transport_flags()),
            ),
        decreases command.len() - i,
    {
        let arg = command[i].as_str();
        proof {
            assert(args.skip(i as int)[0] == arg@);
            assert(args.skip(i as int).skip(1) =~= args.skip(i + 1));
        }
        if same(arg, "--transport") || same(arg, "-t") {
            if i + 1 == command.len() {
                return None;
            }
            let value = command[i + 1].as_str();
            proof {
                assert(args.skip(i as int)[1] == value@);
                assert(args.skip(i as int).skip(2) =~= args.skip(i + 2));
                lemma_first_http(value@, following(args.skip(i + 2), transport_flags()));
            }
            let found = http_transport(value);
            if found.is_some() {
                return found;
            }
            i = i + 2;
        } else {
            i = i + 1;
        }
    }
    None
}

/// Look for `--transport=<value>` combined form.
pub fn scan_combined_transport_flag(command: &[String]) -> (r: Option<String>)
    ensures
        r.deep_view() == first_http(attached(command.deep_view(), attached_transport_flags())),
{
    let ghost args = command.deep_view();
    proof {
        assert(args.skip(0) =~= args);
    }
    for i in 0..command.len()
        invariant
            args == command.deep_view(),
            first_http(attached(args.skip(i as int), attached_transport_flags())) == first_http(
                attached(args, attached_transport_flags()),
            ),
    {
        let arg = command[i].as_str();
        proof {
            assert(args.skip(i as int)[0] == arg@);
            assert(args.skip(i as int).skip(1) =~= args.skip(i + 1));
        }
        if let Some((flag, value)) = split_once(arg, '=') {
            if same(flag, "--transport") {
                proof {
                    lemma_first_http(
                        value@,
                        attached(args.skip(i + 1), attached_transport_flags()),
                    );
                }
                let found = http_transport(value);
                if found.is_some() {
                    return found;
                }
            }
        }
    }
    None
}

/// Look for `--port <N>` / `-p <N>` and return the port number.
///
/// Only the arguments after the runner name are looked at. A `HOST:CONTAINER` value is no
/// port number and is passed over.
pub fn scan_port_flag(command: &[String]) -> (r: Option<u16>)
    ensures
        r == first_port(flag_ports(command.deep_view())),
{
    if command.len() == 0 {
        return None;
    }
    let ghost args = command.deep_view();
    let mut i: usize = 1;
    while i < command.len()
        invariant
            args == command.deep_view(),
            1 <= i <= command.len(),
            first_port(following(args.skip(i as int), port_flags())) == first_port(
                flag_ports(args),
            ),
        decreases command.len() - i,
    {
        let arg = command[i].as_str();
        proof {
            assert(args.skip(i as int)[0] == arg@);
            assert(args.skip(i as int).skip(1) =~= args.skip(i + 1));
        }
        if same(arg, "--port") || same(arg, "-p") {
            if i + 1 == command.len() {
                return None;
            }
            let value = command[i + 1].as_str();
            proof {
                assert(args.skip(i as int)[1] == value@);
                assert(args.skip(i as int).skip(2) =~= args.skip(i + 2));
                lemma_first_port(value@, following(args.skip(i + 2), port_flags()));
            }
            let found = parse_u16(value);
            if found.is_some() {
                return found;
            }
            i = i + 2;
        } else {
            i = i + 1;
        }
    }
    None
}

/// Look for `--port=<N>` combined form.
pub fn scan_combined_port_flag(command: &[String]) -> (r: Option<u16>)
    ensures
        r == first_port(attached(command.deep_view(), port_flags())),
{
    let ghost args = command.deep_view();
    proof {
        assert(args.skip(0) =~= args);
    }
    for i in 0..command.len()
        invariant
            args == command.deep_view(),
            first_port(attached(args.skip(i as int), port_flags())) == first_port(
                attached(args, port_flags()),
            ),
    {
        let arg = command[i].as_str();
        proof {
            assert(args.skip(i as int)[0] == arg@);
            assert(args.skip(i as int).skip(1) =~= args.skip(i + 1));
        }
        if let Some((flag, value)) = split_once(arg, '=') {
            if same(flag, "--port") || same(flag, "-p") {
                proof {
                    lemma_first_port(value@, attached(args.skip(i + 1), port_flags()));
                }
                let found = parse_u16(value);
                if found.is_some() {
                    return found;
                }
            }
        }
    }
    None
}

/// Scan environment variable definitions for transport hints.
pub fn scan_env_transport(envs: &[String]) -> (r: Option<String>)
    ensures
        r.deep_view() == first_http(assigned(envs.deep_view(), transport_variables())),
{
    let ghost vars = envs.deep_view();
    proof {
        assert(vars.skip(0) =~= vars);
    }
    for i in 0..envs.len()
        invariant
            vars == envs.deep_view(),
            first_http(assigned(vars.skip(i as int), transport_variables())) == first_http(
                assigned(vars, transport_variables()),
            ),
    {
        let env = envs[i].as_str();
        proof {
            assert(vars.skip(i as int)[0] == env@);
            assert(vars.skip(i as int).skip(1) =~= vars.skip(i + 1));
        }
        if let Some((name, value)) = split_once(env, '=') {
            let upper = name.to_uppercase();
            if same(upper.as_str(), "MCP_TRANSPORT") || same(upper.as_str(), "TRANSPORT") || same(
                upper.as_str(),
                "FASTMCP_TRANSPORT",
            ) {
                proof {
                    lemma_first_http(value@, assigned(vars.skip(i + 1), transport_variables()));
                }
                let found = http_transport(value);
                if found.is_some() {
                    return found;
                }
            }
        }
    }
    None
}

/// Scan environment variables for port hints.
pub fn scan_env_port(envs: &[String]) -> (r: Option<u16>)
    ensures
        r == first_port(assigned(envs.deep_view(), port_variables())),
{
    let ghost vars = envs.deep_view();
    proof {
        assert(vars.skip(0) =~= vars);
    }
    for i in 0..envs.len()
        invariant
            vars == envs.deep_view(),
            first_port(assigned(vars.skip(i as int), port_variables())) == first_port(
                assigned(vars, port_variables()),
            ),
    {
        let env = envs[i].as_str();
        proof {
            assert(vars.skip(i as int)[0] == env@);
            assert(vars.skip(i as int).skip(1) =~= vars.skip(i + 1));
        }
        if let Some((name, value)) = split_once(env, '=') {
            let upper = name.to_uppercase();
            if same(upper.as_str(), "PORT") || same(upper.as_str(), "MCP_PORT") || same(
                upper.as_str(),
                "FASTMCP_PORT",
            ) || same(upper.as_str(), "SERVER_PORT") {
                proof {
                    lemma_first_port(value@, assigned(vars.skip(i + 1), port_variables()));
                }
                let found = parse_u16(value);
                if found.is_some() {
                    return found;
                }
            }
        }
    }
    None
}

/// HTTP on a port, or on the usual one where there is none.
fn http_transport_on(port: Option<u16>) -> (r: Transport)
    ensures
        r == http_on(port),
{
    match port {
        Some(port) => Transport::Http { port },
        None => Transport::Http { port: DEFAULT_HTTP_PORT },
    }
}

/// Detect the MCP transport mode from the command arguments and environment
/// variables that will be passed into the container.
///
/// The heuristics (in priority order):
///
/// 1. Explicit `--transport sse|streamable-http|http` flag: HTTP, on the port of a port flag
///    or on the usual one
/// 2. `--port <N>` / `-p <N>` flag: HTTP on that port
/// 3. Environment variable `MCP_TRANSPORT=sse|http|streamable-http`: HTTP
/// 4. Environment variable with a port hint (e.g. `FASTMCP_PORT`, `PORT`): HTTP
/// 5. Everything else: stdio
///
/// A flag may stand in one argument with its value, behind an equals sign. Of two port flags
/// the one in two arguments counts.
pub fn detect(command: &[String], envs: &[String]) -> (r: Transport)
    ensures
        r == detected(command.deep_view(), envs.deep_view()),
{
    let flag_port = match scan_port_flag(command) {
        Some(port) => Some(port),
        None => scan_combined_port_flag(command),
    };
    if scan_transport_flag(command).is_some() || scan_combined_transport_flag(command).is_some()
        || flag_port.is_some() {
        return http_transport_on(flag_port);
    }
    let env_port = scan_env_port(envs);
    if scan_env_transport(envs).is_some() || env_port.is_some() {
        return http_transport_on(env_port);
    }
    Transport::Stdio
}

/// The name of the flag in an argument: all of it, or what stands before an equals sign.
pub open spec fn flag_name(arg: Seq<char>) -> Seq<char> {
    match text::halves(arg, '=') {
        Some((name, _)) => name,
        None => arg,
    }
}

/// Whether a command says which address to listen on.
pub open spec fn names_host(command: Seq<Seq<char>>) -> bool {
    exists|i: int|
        0 <= i < command.len() && host_flags().contains(flag_name(#[trigger] command[i]))
}

/// The two arguments that bind a command to every address.
pub open spec fn bind_all_args() -> Seq<Seq<char>> {
    seq!["--host"@, "0.0.0.0"@]
}

/// A command that listens on every address, unless it says otherwise.
pub open spec fn bound_to_all(command: Seq<Seq<char>>) -> Seq<Seq<char>> {
    if names_host(command) {
        command
    } else {
        command + bind_all_args()
    }
}

/// Whether a flag name carries an address to listen on.
fn carries_host(name: &str) -> (r: bool)
    ensures
        r == host_flags().contains(name@),
{
    same(name, "--host") || same(name, "--bind") || same(name, "--listen")
}

/// Rewrite the command to ensure the server binds on 0.0.0.0 inside the
/// container (required for port-forwarding to work from outside).
///
/// If the server already has a `--host` / `--bind` flag we leave it alone.
/// Otherwise we append `--host 0.0.0.0`.
pub fn ensure_bind_all(command: &mut Vec<String>)
    ensures
        final(command).deep_view() == bound_to_all(old(command).deep_view()),
{
    let ghost args = command.deep_view();
    for i in 0..command.len()
        invariant
            *command == *old(command),
            args == command.deep_view(),
            forall|j: int|
                0 <= j < i ==> !host_flags().contains(flag_name(#[trigger] args[j])),
    {
        let arg = command[i].as_str();
        assert(args[i as int] == arg@);
        let name = match split_once(arg, '=') {
            Some((name, _)) => name,
            None => arg,
        };
        if carries_host(name) {
            return;
        }
    }
    command.push("--host".to_owned());
    command.push("0.0.0.0".to_owned());
    assert(command.deep_view() =~= args + bind_all_args());
}

/// Stdio is what is left: it is detected exactly where no flag and no variable asks for HTTP.
pub proof fn law_stdio_is_the_default(command: Seq<Seq<char>>, envs: Seq<Seq<char>>)
    ensures
        detected(command, envs) == Transport::Stdio <==> {
            &&& first_http(following(command, transport_flags())) is None
            &&& first_port(flag_ports(command)) is None
            &&& first_http(attached(command, attached_transport_flags())) is None
            &&& first_port(attached(command, port_flags())) is None
            &&& first_http(assigned(envs, transport_variables())) is None
            &&& first_port(assigned(envs, port_variables())) is None
        },
{
}

/// The command outranks the environment: where a flag asks for HTTP, no variable matters.
pub proof fn law_flags_outrank_variables(
    command: Seq<Seq<char>>,
    envs: Seq<Seq<char>>,
    other_envs: Seq<Seq<char>>,
)
    requires
        detected(command, Seq::empty()) != Transport::Stdio,
    ensures
        detected(command, envs) == detected(command, other_envs),
{
    assert(first_http(assigned(Seq::empty(), transport_variables())) is None);
    assert(first_port(assigned(Seq::empty(), port_variables())) is None);
}

/// A transport over HTTP is found among some values exactly where there is one.
pub proof fn law_http_value_is_found(values: Seq<Seq<char>>)
    ensures
        first_http(values) is Some <==> exists|i: int|
            0 <= i < values.len() && is_http_transport(platform::lowercase(#[trigger] values[i])),
    decreases values.len(),
{
    if values.len() > 0 {
        let rest = values.skip(1);
        law_http_value_is_found(rest);
        if is_http_transport(platform::lowercase(values[0])) {
        } else if first_http(rest) is Some {
            let i = choose|i: int|
                0 <= i < rest.len() && is_http_transport(platform::lowercase(#[trigger] rest[i]));
            assert(is_http_transport(platform::lowercase(values[i + 1])));
        } else {
            assert forall|i: int| 0 <= i < values.len() implies !is_http_transport(
                platform::lowercase(#[trigger] values[i]),
            ) by {
                if i > 0 {
                    assert(rest[i - 1] == values[i]);
                }
            }
        }
    }
}

/// The port that is found among some values is the first of them that is a number.
pub proof fn law_first_number_is_the_port(values: Seq<Seq<char>>, i: int)
    requires
        0 <= i < values.len(),
        text::number_u16(values[i]) is Some,
        forall|j: int| 0 <= j < i ==> text::number_u16(#[trigger] values[j]) is None,
    ensures
        first_port(values) == text::number_u16(values[i]),
    decreases i,
{
    if i > 0 {
        let rest = values.skip(1);
        assert forall|j: int| 0 <= j < i - 1 implies text::number_u16(
            #[trigger] rest[j],
        ) is None by {
            assert(rest[j] == values[j + 1]);
        }
        law_first_number_is_the_port(rest, i - 1);
    }
}

/// A value in `HOST:CONTAINER` form is never taken for a port number.
pub proof fn law_port_mapping_is_no_port(value: Seq<char>)
    requires
        value.contains(':'),
    ensures
        text::number_u16(value) is None,
{
    let i = choose|i: int| 0 <= i < value.len() && value[i] == ':';
    if value[0] == '+' {
        assert(!text::is_digit(value.skip(1)[i - 1]));
    } else {
        assert(!text::is_digit(value[i]));
    }
}

/// The names of the transports over HTTP are recognised as they stand.
pub proof fn law_http_names_are_recognised(name: Seq<char>)
    requires
        is_http_transport(name),
    ensures
        is_http_transport(platform::lowercase(name)),
{
    reveal_strlit("sse");
    reveal_strlit("http");
    reveal_strlit("streamable-http");
    assert(platform::lowercase(name) =~= name);
}

/// A `--transport` flag with a transport over HTTP means HTTP, whatever else is on the
/// command line or in the environment, and the port is that of a port flag, in either form, or
/// the usual one.
pub proof fn law_transport_flag_means_http(
    front: Seq<Seq<char>>,
    value: Seq<char>,
    back: Seq<Seq<char>>,
    envs: Seq<Seq<char>>,
)
    requires
        forall|i: int| 0 <= i < front.len() ==> !transport_flags().contains(#[trigger] front[i]),
        is_http_transport(platform::lowercase(value)),
    ensures
        ({
            let command = front + seq!["--transport"@, value] + back;
            detected(command, envs) == http_on(command_port(command))
        }),
{
    let command = front + seq!["--transport"@, value] + back;
    lemma_following_from(command, transport_flags(), front.len() as int);
    let tail = command.skip(front.len() as int);
    assert(tail[0] == "--transport"@);
    assert(tail[1] == value);
    lemma_first_http(value, following(tail.skip(2), transport_flags()));
}

/// A port in one argument with its flag counts as one behind its flag does: where no port
/// stands behind a flag, and no other was named before, it is the port, whatever the transport
/// flag looks like.
pub proof fn law_attached_port_is_the_port(
    front: Seq<Seq<char>>,
    value: Seq<char>,
    port: u16,
    back: Seq<Seq<char>>,
    envs: Seq<Seq<char>>,
)
    requires
        text::number_u16(value) == Some(port),
        first_port(attached(front, port_flags())) is None,
        first_port(flag_ports(front + seq!["--port="@ + value] + back)) is None,
    ensures
        detected(front + seq!["--port="@ + value] + back, envs) == (Transport::Http { port }),
{
    let arg = "--port="@ + value;
    let command = front + seq![arg] + back;
    let tail = seq![arg] + back;
    reveal_strlit("--port=");
    reveal_strlit("--port");
    assert(arg[6] == '=');
    assert(arg.take(6) =~= "--port"@);
    assert(!"--port"@.contains('='));
    text::lemma_halves(arg, '=', 6);
    assert(arg.skip(7) =~= value);
    assert(command =~= front + tail);
    assert(tail[0] == arg);
    lemma_first_port(value, attached(tail.skip(1), port_flags()));
    lemma_first_attached_port(front, tail);
}

/// Where the front of a command has no port in one argument with its flag, the back decides.
proof fn lemma_first_attached_port(front: Seq<Seq<char>>, back: Seq<Seq<char>>)
    requires
        first_port(attached(front, port_flags())) is None,
    ensures
        first_port(attached(front + back, port_flags())) == first_port(
            attached(back, port_flags()),
        ),
    decreases front.len(),
{
    let all = front + back;
    if front.len() == 0 {
        assert(all =~= back);
    } else {
        let rest = front.skip(1);
        assert(all.skip(1) =~= rest + back);
        assert(all[0] == front[0]);
        if let Some((flag, value)) = text::halves(front[0], '=') {
            if port_flags().contains(flag) {
                lemma_first_port(value, attached(rest, port_flags()));
                lemma_first_port(value, attached(rest + back, port_flags()));
            }
        }
        lemma_first_attached_port(rest, back);
    }
}

/// Arguments that are no flags add no values.
proof fn lemma_following_from(args: Seq<Seq<char>>, flags: Set<Seq<char>>, n: int)
    requires
        0 <= n <= args.len(),
        forall|i: int| 0 <= i < n ==> !flags.contains(#[trigger] args[i]),
    ensures
        following(args, flags) == following(args.skip(n), flags),
    decreases n,
{
    if n > 0 {
        let rest = args.skip(1);
        assert forall|i: int| 0 <= i < n - 1 implies !flags.contains(#[trigger] rest[i]) by {
            assert(rest[i] == args[i + 1]);
        }
        lemma_following_from(rest, flags, n - 1);
        assert(rest.skip(n - 1) =~= args.skip(n));
    } else {
        assert(args.skip(0) =~= args);
    }
}

/// Binding a command to every address is done once: the rewritten command names a host,
/// begins with the command as it was, and is left alone from then on.
pub proof fn law_bind_all_is_done_once(command: Seq<Seq<char>>)
    ensures
        names_host(bound_to_all(command)),
        command.is_prefix_of(bound_to_all(command)),
        bound_to_all(bound_to_all(command)) == bound_to_all(command),
{
    let bound = bound_to_all(command);
    if !names_host(command) {
        reveal_strlit("--host");
        assert(!"--host"@.contains('='));
        text::lemma_no_halves("--host"@, '=');
        assert(bound[command.len() as int] == "--host"@);
        assert(host_flags().contains(flag_name(bound[command.len() as int])));
        assert(bound.take(command.len() as int) =~= command);
    }
}

/// The arguments that bind to every address carry no equals sign, no transport and no port.
proof fn lemma_bind_all_args()
    ensures
        text::halves("--host"@, '=') is None,
        text::halves("0.0.0.0"@, '=') is None,
        !transport_flags().contains("--host"@),
        !transport_flags().contains("0.0.0.0"@),
        !port_flags().contains("--host"@),
        !port_flags().contains("0.0.0.0"@),
        !is_http_transport(platform::lowercase("--host"@)),
        text::number_u16("--host"@) is None,
{
    reveal_strlit("--host");
    reveal_strlit("0.0.0.0");
    reveal_strlit("--transport");
    reveal_strlit("-t");
    reveal_strlit("--port");
    reveal_strlit("-p");
    reveal_strlit("sse");
    reveal_strlit("http");
    reveal_strlit("streamable-http");
    text::lemma_no_halves("--host"@, '=');
    text::lemma_no_halves("0.0.0.0"@, '=');
    assert("--host"@.len() == 6);
    assert("0.0.0.0"@.len() == 7);
    assert("--host"@[2] == 'h' && "--port"@[2] == 'p');
    assert(!text::is_digit("--host"@[0]));
    assert(platform::lowercase("--host"@).len() == 6);
}

/// What follows the flags of a command does not change when it is bound to every address,
/// but for a flag at its end that had no value.
proof fn lemma_following_bound(args: Seq<Seq<char>>, flags: Set<Seq<char>>)
    requires
        !flags.contains("--host"@),
        !flags.contains("0.0.0.0"@),
    ensures
        ({
            let before = following(args, flags);
            let after = following(args + bind_all_args(), flags);
            after == before || after == before.push("--host"@)
        }),
    decreases args.len(),
{
    let bound = args + bind_all_args();
    if args.len() == 0 {
        assert(bound =~= bind_all_args());
        lemma_following_from(bound, flags, 2);
        assert(bound.skip(2) =~= Seq::<Seq<char>>::empty());
    } else if flags.contains(args[0]) {
        if args.len() == 1 {
            assert(bound[1] == "--host"@);
            let rest = bound.skip(2);
            assert(rest =~= seq!["0.0.0.0"@]);
            lemma_following_from(rest, flags, 1);
            assert(rest.skip(1) =~= Seq::<Seq<char>>::empty());
            assert(following(bound, flags) =~= following(args, flags).push("--host"@));
        } else {
            lemma_following_bound(args.skip(2), flags);
            assert(bound.skip(2) =~= args.skip(2) + bind_all_args());
            let before = following(args.skip(2), flags);
            assert(seq![args[1]] + before.push("--host"@) =~= (seq![args[1]] + before).push(
                "--host"@,
            ));
        }
    } else {
        lemma_following_bound(args.skip(1), flags);
        assert(bound.skip(1) =~= args.skip(1) + bind_all_args());
    }
}

/// Binding to every address adds no value behind an equals sign.
proof fn lemma_attached_bound(args: Seq<Seq<char>>, flags: Set<Seq<char>>)
    ensures
        attached(args + bind_all_args(), flags) == attached(args, flags),
    decreases args.len(),
{
    lemma_bind_all_args();
    let bound = args + bind_all_args();
    if args.len() == 0 {
        assert(bound =~= bind_all_args());
        assert(bound.skip(1) =~= seq!["0.0.0.0"@]);
        assert(bound.skip(1).skip(1) =~= Seq::<Seq<char>>::empty());
        assert(attached(bound.skip(1), flags) == attached(bound.skip(1).skip(1), flags));
    } else {
        assert(bound.skip(1) =~= args.skip(1) + bind_all_args());
        lemma_attached_bound(args.skip(1), flags);
    }
}

/// A value at the end that is no transport over HTTP changes nothing.
proof fn lemma_first_http_push(values: Seq<Seq<char>>, value: Seq<char>)
    requires
        !is_http_transport(platform::lowercase(value)),
    ensures
        first_http(values.push(value)) == first_http(values),
    decreases values.len(),
{
    if values.len() > 0 {
        assert(values.push(value).skip(1) =~= values.skip(1).push(value));
        lemma_first_http_push(values.skip(1), value);
    } else {
        assert(values.push(value).skip(1) =~= values);
    }
}

/// A value at the end that is no number changes nothing.
proof fn lemma_first_port_push(values: Seq<Seq<char>>, value: Seq<char>)
    requires
        text::number_u16(value) is None,
    ensures
        first_port(values.push(value)) == first_port(values),
    decreases values.len(),
{
    if values.len() > 0 {
        assert(values.push(value).skip(1) =~= values.skip(1).push(value));
        lemma_first_port_push(values.skip(1), value);
    } else {
        assert(values.push(value).skip(1) =~= values);
    }
}

/// Binding a command to every address does not change the transport that it asks for.
pub proof fn law_bind_all_keeps_the_transport(command: Seq<Seq<char>>, envs: Seq<Seq<char>>)
    ensures
        detected(bound_to_all(command), envs) == detected(command, envs),
{
    if !names_host(command) {
        let bound = bound_to_all(command);
        assert(bound =~= command + bind_all_args());
        lemma_bind_all_args();
        lemma_following_bound(command, transport_flags());
        lemma_first_http_push(following(command, transport_flags()), "--host"@);
        lemma_attached_bound(command, attached_transport_flags());
        lemma_attached_bound(command, port_flags());
        if command.len() > 0 {
            assert(bound.skip(1) =~= command.skip(1) + bind_all_args());
            lemma_following_bound(command.skip(1), port_flags());
            lemma_first_port_push(following(command.skip(1), port_flags()), "--host"@);
        } else {
            assert(bound.skip(1) =~= seq!["0.0.0.0"@]);
            lemma_following_from(bound.skip(1), port_flags(), 1);
            assert(bound.skip(1).skip(1) =~= Seq::<Seq<char>>::empty());
        }
    }
}

/// The transports over HTTP, the flags and the variables are these and no others.
pub proof fn law_known_names(name: Seq<char>)
    ensures
        is_http_transport(name) <==> name == "sse"@ || name == "streamable-http"@ || name
            == "http"@,
        transport_flags().contains(name) <==> name == "--transport"@ || name == "-t"@,
        attached_transport_flags().contains(name) <==> name == "--transport"@,
        port_flags().contains(name) <==> name == "--port"@ || name == "-p"@,
        host_flags().contains(name) <==> name == "--host"@ || name == "--bind"@ || name
            == "--listen"@,
        transport_variables().contains(name) <==> name == "MCP_TRANSPORT"@ || name
            == "TRANSPORT"@ || name == "FASTMCP_TRANSPORT"@,
        port_variables().contains(name) <==> name == "PORT"@ || name == "MCP_PORT"@ || name
            == "FASTMCP_PORT"@ || name == "SERVER_PORT"@,
{
}

/// The value of a flag is the argument behind it, whatever it reads; what stands before the
/// first flag adds nothing, and a flag at the end has no value.
pub proof fn law_values_stand_behind_their_flags(
    front: Seq<Seq<char>>,
    flag: Seq<char>,
    value: Seq<char>,
    back: Seq<Seq<char>>,
    flags: Set<Seq<char>>,
)
    requires
        forall|i: int| 0 <= i < front.len() ==> !flags.contains(#[trigger] front[i]),
        flags.contains(flag),
    ensures
        following(front, flags).len() == 0,
        following(front.push(flag), flags).len() == 0,
        following(front + seq![flag, value] + back, flags) == seq![value] + following(back, flags),
{
    let n = front.len() as int;
    let none = Seq::<Seq<char>>::empty();
    lemma_following_from(front, flags, n);
    assert(front.skip(n) =~= none);
    let alone = front.push(flag);
    assert forall|i: int| 0 <= i < n implies !flags.contains(#[trigger] alone[i]) by {
        assert(alone[i] == front[i]);
    }
    lemma_following_from(alone, flags, n);
    assert(alone.skip(n) =~= seq![flag]);
    assert(following(seq![flag], flags) == none);
    let all = front + seq![flag, value] + back;
    assert forall|i: int| 0 <= i < n implies !flags.contains(#[trigger] all[i]) by {
        assert(all[i] == front[i]);
    }
    lemma_following_from(all, flags, n);
    let tail = all.skip(n);
    assert(tail[0] == flag && tail[1] == value);
    assert(tail.skip(2) =~= back);
}

/// A value in one argument with its flag stands behind the first equals sign. Each argument
/// adds its own value, in order, and an argument that is no flag with a value adds none.
pub proof fn law_values_stand_behind_an_equals_sign(
    front: Seq<Seq<char>>,
    flag: Seq<char>,
    value: Seq<char>,
    back: Seq<Seq<char>>,
    flags: Set<Seq<char>>,
)
    requires
        !flag.contains('='),
    ensures
        attached(front + back, flags) == attached(front, flags) + attached(back, flags),
        attached(seq![flag], flags).len() == 0,
        attached(seq![flag + seq!['='] + value], flags) == if flags.contains(flag) {
            seq![value]
        } else {
            Seq::empty()
        },
    decreases front.len(),
{
    let none = Seq::<Seq<char>>::empty();
    lemma_cut_at_equals_sign(flag, value);
    text::lemma_no_halves(flag, '=');
    let one = seq![flag + seq!['='] + value];
    assert(one.skip(1) =~= none);
    assert(attached(none, flags) =~= none);
    assert(seq![value] + none =~= seq![value]);
    assert(seq![flag].skip(1) =~= none);
    if front.len() == 0 {
        assert(front + back =~= back);
        assert(attached(front, flags) + attached(back, flags) =~= attached(back, flags));
    } else {
        law_values_stand_behind_an_equals_sign(front.skip(1), flag, value, back, flags);
        assert((front + back).skip(1) =~= front.skip(1) + back);
        assert(attached(front + back, flags) =~= attached(front, flags) + attached(back, flags));
    }
}

/// A text with an equals sign is cut there.
proof fn lemma_cut_at_equals_sign(name: Seq<char>, value: Seq<char>)
    requires
        !name.contains('='),
    ensures
        text::halves(name + seq!['='] + value, '=') == Some((name, value)),
{
    let all = name + seq!['='] + value;
    assert(all.take(name.len() as int) =~= name);
    assert(all.skip(name.len() as int + 1) =~= value);
    text::lemma_halves(all, '=', name.len() as int);
}

/// A variable that is passed into the container counts by its name in upper case, and its value
/// stands behind the first equals sign. Each variable adds its own value, in order, and any
/// other text adds none.
pub proof fn law_variables_count_by_name(
    front: Seq<Seq<char>>,
    name: Seq<char>,
    value: Seq<char>,
    back: Seq<Seq<char>>,
    names: Set<Seq<char>>,
)
    requires
        !name.contains('='),
    ensures
        assigned(front + back, names) == assigned(front, names) + assigned(back, names),
        assigned(seq![name], names).len() == 0,
        assigned(seq![name + seq!['='] + value], names) == if names.contains(
            platform::uppercase(name),
        ) {
            seq![value]
        } else {
            Seq::empty()
        },
    decreases front.len(),
{
    let none = Seq::<Seq<char>>::empty();
    lemma_cut_at_equals_sign(name, value);
    text::lemma_no_halves(name, '=');
    let one = seq![name + seq!['='] + value];
    assert(one.skip(1) =~= none);
    assert(assigned(none, names) =~= none);
    assert(seq![value] + none =~= seq![value]);
    assert(seq![name].skip(1) =~= none);
    if front.len() == 0 {
        assert(front + back =~= back);
        assert(assigned(front, names) + assigned(back, names) =~= assigned(back, names));
    } else {
        law_variables_count_by_name(front.skip(1), name, value, back, names);
        assert((front + back).skip(1) =~= front.skip(1) + back);
        assert(assigned(front + back, names) =~= assigned(front, names) + assigned(back, names));
    }
}

/// The transport that is found among some values is the first of them over HTTP, in lower case.
pub proof fn law_first_http_value_is_the_transport(values: Seq<Seq<char>>, i: int)
    requires
        0 <= i < values.len(),
        is_http_transport(platform::lowercase(values[i])),
        forall|j: int|
            0 <= j < i ==> !is_http_transport(platform::lowercase(#[trigger] values[j])),
    ensures
        first_http(values) == Some(platform::lowercase(values[i])),
    decreases i,
{
    if i > 0 {
        let rest = values.skip(1);
        assert(!is_http_transport(platform::lowercase(values[0])));
        assert forall|j: int| 0 <= j < i - 1 implies !is_http_transport(
            platform::lowercase(#[trigger] rest[j]),
        ) by {
            assert(rest[j] == values[j + 1]);
        }
        law_first_http_value_is_the_transport(rest, i - 1);
    }
}

/// Where no value is a number there is no port.
pub proof fn law_no_number_is_no_port(values: Seq<Seq<char>>)
    requires
        forall|j: int| 0 <= j < values.len() ==> text::number_u16(#[trigger] values[j]) is None,
    ensures
        first_port(values) is None,
    decreases values.len(),
{
    if values.len() > 0 {
        let rest = values.skip(1);
        assert(text::number_u16(values[0]) is None);
        assert forall|j: int| 0 <= j < rest.len() implies text::number_u16(
            #[trigger] rest[j],
        ) is None by {
            assert(rest[j] == values[j + 1]);
        }
        law_no_number_is_no_port(rest);
    }
}

/// The rules of the detection, in their order. A port on the command line is the port: one
/// behind a flag, not counting the first word, before one in an argument with its flag. Without
/// one a transport over HTTP on the command line means port 8080. Then the same holds of the
/// variables. Whatever is left is stdio.
pub proof fn law_rules_stand_in_order(
    runner: Seq<char>,
    args: Seq<Seq<char>>,
    envs: Seq<Seq<char>>,
)
    ensures
        ({
            let command = seq![runner] + args;
            let behind = first_port(following(args, set!["--port"@, "-p"@]));
            let within = first_port(attached(command, set!["--port"@, "-p"@]));
            let asked = first_http(following(command, set!["--transport"@, "-t"@])) is Some
                || first_http(attached(command, set!["--transport"@])) is Some;
            let port = first_port(
                assigned(envs, set!["PORT"@, "MCP_PORT"@, "FASTMCP_PORT"@, "SERVER_PORT"@]),
            );
            let told = first_http(
                assigned(envs, set!["MCP_TRANSPORT"@, "TRANSPORT"@, "FASTMCP_TRANSPORT"@]),
            ) is Some;
            let r = detected(command, envs);
            &&& behind matches Some(n) ==> r == (Transport::Http { port: n })
            &&& behind is None ==> (within matches Some(n) ==> r == (Transport::Http { port: n }))
            &&& behind is None && within is None && asked ==> r == (Transport::Http { port: 8080 })
            &&& behind is None && within is None && !asked ==> {
                &&& port matches Some(n) ==> r == (Transport::Http { port: n })
                &&& port is None && told ==> r == (Transport::Http { port: 8080 })
                &&& port is None && !told ==> r == Transport::Stdio
            }
        }),
{
    let command = seq![runner] + args;
    assert(command.skip(1) =~= args);
}

/// A port behind a port flag, of either name, is the port of the server, whatever else is on the
/// command line or in the environment, so long as no port flag stands before it.
pub proof fn law_a_port_flag_is_the_port(
    runner: Seq<char>,
    front: Seq<Seq<char>>,
    flag: Seq<char>,
    value: Seq<char>,
    port: u16,
    back: Seq<Seq<char>>,
    envs: Seq<Seq<char>>,
)
    requires
        forall|i: int|
            0 <= i < front.len() ==> (#[trigger] front[i]) != "--port"@ && front[i] != "-p"@,
        flag == "--port"@ || flag == "-p"@,
        text::number_u16(value) == Some(port),
    ensures
        detected(seq![runner] + (front + seq![flag, value] + back), envs) == (Transport::Http {
            port,
        }),
{
    let args = front + seq![flag, value] + back;
    law_values_stand_behind_their_flags(front, flag, value, back, port_flags());
    lemma_first_port(value, following(back, port_flags()));
    law_rules_stand_in_order(runner, args, envs);
    assert(port_flags() =~= set!["--port"@, "-p"@]);
}

/// A command in which no argument is a flag, nor begins with a flag and an equals sign, speaks
/// over stdio where no variable is passed.
pub proof fn law_plain_commands_speak_over_stdio(command: Seq<Seq<char>>)
    requires
        forall|i: int|
            0 <= i < command.len() ==> {
                let arg = #[trigger] command[i];
                &&& arg != "--transport"@ && arg != "-t"@ && arg != "--port"@ && arg != "-p"@
                &&& !"--transport="@.is_prefix_of(arg)
                &&& !"--port="@.is_prefix_of(arg)
                &&& !"-p="@.is_prefix_of(arg)
            },
    ensures
        detected(command, Seq::empty()) == Transport::Stdio,
{
    let none = Seq::<Seq<char>>::empty();
    lemma_following_from(command, transport_flags(), command.len() as int);
    assert(command.skip(command.len() as int) =~= none);
    if command.len() > 0 {
        let args = command.skip(1);
        assert forall|i: int| 0 <= i < args.len() implies !port_flags().contains(
            #[trigger] args[i],
        ) by {
            assert(args[i] == command[i + 1]);
        }
        lemma_following_from(args, port_flags(), args.len() as int);
        assert(args.skip(args.len() as int) =~= none);
    }
    lemma_nothing_attached(command, attached_transport_flags());
    lemma_nothing_attached(command, port_flags());
    assert(assigned(none, transport_variables()) =~= none);
    assert(assigned(none, port_variables()) =~= none);
}

/// Arguments that do not begin with a flag and an equals sign add no values.
proof fn lemma_nothing_attached(args: Seq<Seq<char>>, flags: Set<Seq<char>>)
    requires
        forall|flag: Seq<char>| #[trigger]
            flags.contains(flag) ==> flag == "--transport"@ || flag == "--port"@ || flag == "-p"@,
        forall|i: int|
            0 <= i < args.len() ==> {
                let arg = #[trigger] args[i];
                &&& !"--transport="@.is_prefix_of(arg)
                &&& !"--port="@.is_prefix_of(arg)
                &&& !"-p="@.is_prefix_of(arg)
            },
    ensures
        attached(args, flags) == Seq::<Seq<char>>::empty(),
    decreases args.len(),
{
    if args.len() > 0 {
        let rest = args.skip(1);
        assert forall|i: int| 0 <= i < rest.len() implies {
            let arg = #[trigger] rest[i];
            &&& !"--transport="@.is_prefix_of(arg)
            &&& !"--port="@.is_prefix_of(arg)
            &&& !"-p="@.is_prefix_of(arg)
        } by {
            assert(rest[i] == args[i + 1]);
        }
        lemma_nothing_attached(rest, flags);
        text::law_halves_make_up_the_text(args[0], '=');
        if let Some((flag, value)) = text::halves(args[0], '=') {
            if flags.contains(flag) {
                reveal_strlit("--transport=");
                reveal_strlit("--transport");
                reveal_strlit("--port=");
                reveal_strlit("--port");
                reveal_strlit("-p=");
                reveal_strlit("-p");
                assert("--transport="@ =~= "--transport"@.push('='));
                assert("--port="@ =~= "--port"@.push('='));
                assert("-p="@ =~= "-p"@.push('='));
                assert(args[0].take(flag.len() as int + 1) =~= flag.push('='));
                assert(flag.push('=').is_prefix_of(args[0]));
            }
        }
    }
}

/// A command names an address exactly where an argument is one of the three flags, or begins
/// with one and an equals sign. Such a command is left as it is; any other gets two arguments
/// more.
pub proof fn law_a_named_address_is_kept(command: Seq<Seq<char>>)
    ensures
        names_host(command) <==> exists|i: int|
            0 <= i < command.len() && says_host(#[trigger] command[i]),
        names_host(command) ==> bound_to_all(command) == command,
        !names_host(command) ==> bound_to_all(command) == command.push("--host"@).push(
            "0.0.0.0"@,
        ),
{
    assert forall|i: int| 0 <= i < command.len() implies says_host(#[trigger] command[i])
        == host_flags().contains(flag_name(command[i])) by {
        lemma_says_host(command[i]);
    }
    if names_host(command) {
        let i = choose|i: int|
            0 <= i < command.len() && host_flags().contains(flag_name(#[trigger] command[i]));
        assert(says_host(command[i]));
    } else {
        assert(command + bind_all_args() =~= command.push("--host"@).push("0.0.0.0"@));
    }
}

/// Whether an argument says which address to listen on: a flag, or one with an equals sign.
pub open spec fn says_host(arg: Seq<char>) -> bool {
    ||| arg == "--host"@
    ||| arg == "--bind"@
    ||| arg == "--listen"@
    ||| "--host="@.is_prefix_of(arg)
    ||| "--bind="@.is_prefix_of(arg)
    ||| "--listen="@.is_prefix_of(arg)
}

/// An argument says which address to listen on exactly where the name of its flag does.
proof fn lemma_says_host(arg: Seq<char>)
    ensures
        says_host(arg) == host_flags().contains(flag_name(arg)),
{
    reveal_strlit("--host");
    reveal_strlit("--bind");
    reveal_strlit("--listen");
    reveal_strlit("--host=");
    reveal_strlit("--bind=");
    reveal_strlit("--listen=");
    assert("--host="@ =~= "--host"@.push('='));
    assert("--bind="@ =~= "--bind"@.push('='));
    assert("--listen="@ =~= "--listen"@.push('='));
    text::lemma_no_halves("--host"@, '=');
    text::lemma_no_halves("--bind"@, '=');
    text::lemma_no_halves("--listen"@, '=');
    lemma_flag_with_value(arg, "--host"@);
    lemma_flag_with_value(arg, "--bind"@);
    lemma_flag_with_value(arg, "--listen"@);
}

/// An argument begins with a flag and an equals sign exactly where it is cut behind that flag.
proof fn lemma_flag_with_value(arg: Seq<char>, flag: Seq<char>)
    requires
        !flag.contains('='),
    ensures
        flag.push('=').is_prefix_of(arg) <==> (text::halves(arg, '=') matches Some((name, value))
            && name == flag),
{
    text::law_halves_make_up_the_text(arg, '=');
    if flag.push('=').is_prefix_of(arg) {
        let n = flag.len() as int;
        assert(arg.take(n + 1) == flag.push('='));
        assert(arg.take(n + 1)[n] == '=');
        assert(arg.take(n) =~= flag);
        text::lemma_halves(arg, '=', n);
    }
    if let Some((name, value)) = text::halves(arg, '=') {
        if name == flag {
            assert(arg.take(flag.len() as int + 1) =~= flag.push('='));
        }
    }
}

/// Without a command the variables decide alone.
pub proof fn law_variables_decide_without_a_command(envs: Seq<Seq<char>>)
    ensures
        ({
            let port = first_port(
                assigned(envs, set!["PORT"@, "MCP_PORT"@, "FASTMCP_PORT"@, "SERVER_PORT"@]),
            );
            let told = first_http(
                assigned(envs, set!["MCP_TRANSPORT"@, "TRANSPORT"@, "FASTMCP_TRANSPORT"@]),
            ) is Some;
            let r = detected(Seq::empty(), envs);
            &&& port matches Some(n) ==> r == (Transport::Http { port: n })
            &&& port is None && told ==> r == (Transport::Http { port: 8080 })
            &&& port is None && !told ==> r == Transport::Stdio
        }),
{
    let none = Seq::<Seq<char>>::empty();
    assert(attached(none, port_flags()) =~= none);
    assert(attached(none, attached_transport_flags()) =~= none);
    assert(following(none, transport_flags()) =~= none);
}

} // verus!
