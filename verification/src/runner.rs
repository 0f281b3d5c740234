//! A whole run: what it passes into the container, and in which order it proceeds.

use crate::cli;
use crate::cli::Args;
use crate::container;
use crate::container::RunConfig;
use crate::dockerfile;
use crate::mounts;
use crate::os_text;
use crate::os_text::OsText;
use crate::mounts::{prepare_bind_mount, prepare_extra_mounts, BindMount, HostPath, PathFacts};
use crate::platform;
use crate::platform::debug_text;
use crate::text;
use crate::text::{decimal_text, ends_with, same, starts_with, strip_last};
use crate::transport;
use crate::transport::Transport;
use vstd::prelude::*;

verus! {

/// Why a run cannot begin.
#[derive(Debug, Clone, Copy, PartialEq, Eq, Structural)]
pub enum RunError {
    /// There is no command to run.
    NoCommand,
    /// An HTTP server on that port is to run without a network.
    NoNetwork(u16),
}

impl RunError {
    /// The message that the error shows.
    pub open spec fn text(self) -> Seq<char> {
        match self {
            RunError::NoCommand =>
                "No command provided. Usage: domcp -- uvx <mcp-server> [args...]"@,
            RunError::NoNetwork(port) =>
                "--network none is incompatible with HTTP transport (port "@ + text::decimal(
                port as nat,
            ) + ").\nRemove --network none or use --network bridge."@,
        }
    }

    /// The message that the error shows.
    pub fn message(&self) -> (r: String)
        ensures
            r@ == self.text(),
    {
        match self {
            RunError::NoCommand =>
                "No command provided. Usage: domcp -- uvx <mcp-server> [args...]".to_owned(),
            RunError::NoNetwork(port) => {
                let number = decimal_text(*port as u32);
                "--network none is incompatible with HTTP transport (port ".to_owned().concat(
                    number.as_str(),
                ).concat(").\nRemove --network none or use --network bridge.")
            },
        }
    }
}

/// The mapping of a port to itself.
pub open spec fn port_mapping(port: u16) -> Seq<char> {
    text::decimal(port as nat) + ":"@ + text::decimal(port as nat)
}

/// Whether a port mapping is for some port of the container: `PORT`, or anything that ends
/// with `:PORT`.
pub open spec fn maps_port(mapping: Seq<char>, port: u16) -> bool {
    mapping == text::decimal(port as nat) || (":"@ + text::decimal(port as nat)).is_suffix_of(
        mapping,
    )
}

/// Whether a port of the container is among some mappings.
pub open spec fn is_mapped(ports: Seq<Seq<char>>, port: u16) -> bool {
    exists|i: int| 0 <= i < ports.len() && maps_port(#[trigger] ports[i], port)
}

/// Port mappings with one for some port of the container.
pub open spec fn with_port(ports: Seq<Seq<char>>, port: u16) -> Seq<Seq<char>> {
    if is_mapped(ports, port) {
        ports
    } else {
        ports.push(port_mapping(port))
    }
}

/// Apply adjustments required for HTTP transport mode.
///
/// - Errors if network is "none" (incompatible with port mapping)
/// - Adds the port mapping if not already present
pub fn apply_http_transport(
    network: &Option<String>,
    ports: &mut Vec<String>,
    port: u16,
) -> (r: Result<(), RunError>)
    ensures
        network.deep_view() == Some("none"@) ==> r == Err::<(), RunError>(RunError::NoNetwork(port))
            && final(ports).deep_view() == old(ports).deep_view(),
        network.deep_view() != Some("none"@) ==> r == Ok::<(), RunError>(())
            && final(ports).deep_view() == with_port(old(ports).deep_view(), port),
{
    if let Some(network) = network {
        if same(network.as_str(), "none") {
            return Err(RunError::NoNetwork(port));
        }
    }
    let ghost before = ports.deep_view();
    let number = decimal_text(port as u32);
    let ending = ":".to_owned().concat(number.as_str());
    for i in 0..ports.len()
        invariant
            *ports == *old(ports),
            before == ports.deep_view(),
            number@ == text::decimal(port as nat),
            ending@ == ":"@ + text::decimal(port as nat),
            network.deep_view() != Some("none"@),
            forall|j: int| 0 <= j < i ==> !maps_port(#[trigger] before[j], port),
    {
        assert(before[i as int] == ports[i as int]@);
        if same(ports[i].as_str(), number.as_str()) || ends_with(
            ports[i].as_str(),
            ending.as_str(),
        ) {
            return Ok(());
        }
    }
    let mapping = number.clone().concat(ending.as_str());
    assert(mapping@ =~= port_mapping(port));
    ports.push(mapping);
    assert(ports.deep_view() =~= before.push(port_mapping(port)));
    Ok(())
}

/// After the adjustments some mapping is for the port, and adjusting again changes nothing.
pub proof fn law_http_port_is_mapped_once(ports: Seq<Seq<char>>, port: u16)
    ensures
        is_mapped(with_port(ports, port), port),
        with_port(with_port(ports, port), port) == with_port(ports, port),
        ports.is_prefix_of(with_port(ports, port)),
{
    let more = with_port(ports, port);
    if !is_mapped(ports, port) {
        let number = text::decimal(port as nat);
        let ending = ":"@ + number;
        assert(port_mapping(port).skip(port_mapping(port).len() - ending.len()) =~= ending);
        assert(more[ports.len() as int] == port_mapping(port));
        assert(maps_port(more[ports.len() as int], port));
        assert(more.take(ports.len() as int) =~= ports);
    } else {
        assert(more.take(ports.len() as int) =~= ports);
    }
}

/// Whether a pattern stands for the name of a variable: a name for itself, a prefix that ends
/// with `*` for every name that begins with it.
pub open spec fn pattern_matches(pattern: Seq<char>, key: Seq<char>) -> bool {
    match text::without_last(pattern, '*') {
        Some(prefix) => prefix.is_prefix_of(key),
        None => pattern == key,
    }
}

/// Whether some pattern stands for the name of a variable.
pub open spec fn is_exposed(patterns: Seq<Seq<char>>, key: Seq<char>) -> bool {
    exists|i: int| 0 <= i < patterns.len() && pattern_matches(#[trigger] patterns[i], key)
}

/// The variables that some patterns stand for.
pub open spec fn exposure(patterns: Seq<Seq<char>>) -> spec_fn((Seq<char>, Seq<char>)) -> bool {
    |variable: (Seq<char>, Seq<char>)| is_exposed(patterns, variable.0)
}

/// Of some variables those that the patterns stand for, in the same order.
pub open spec fn exposed(
    patterns: Seq<Seq<char>>,
    variables: Seq<(Seq<char>, Seq<char>)>,
) -> Seq<(Seq<char>, Seq<char>)> {
    variables.filter(exposure(patterns))
}

/// Whether a pattern stands for the name of a variable.
pub fn env_pattern_matches(pattern: &str, key: &str) -> (r: bool)
    ensures
        r == pattern_matches(pattern@, key@),
{
    match strip_last(pattern, '*') {
        Some(prefix) => starts_with(key, prefix),
        None => same(pattern, key),
    }
}

/// Whether some pattern stands for the name of a variable.
fn is_exposed_by(patterns: &[String], key: &str) -> (r: bool)
    ensures
        r == is_exposed(patterns.deep_view(), key@),
{
    let ghost all = patterns.deep_view();
    for i in 0..patterns.len()
        invariant
            all == patterns.deep_view(),
            forall|j: int| 0 <= j < i ==> !pattern_matches(#[trigger] all[j], key@),
    {
        assert(all[i as int] == patterns[i as int]@);
        if env_pattern_matches(patterns[i].as_str(), key) {
            return true;
        }
    }
    false
}

/// Of the variables of the host those that the patterns stand for.
pub fn collect_exposed_host_env(
    patterns: &[String],
    variables: &Vec<(String, String)>,
) -> (r: Vec<(String, String)>)
    ensures
        r.deep_view() == exposed(patterns.deep_view(), variables.deep_view()),
{
    let ghost all = variables.deep_view();
    let ghost pred = exposure(patterns.deep_view());
    let mut out: Vec<(String, String)> = Vec::new();
    assert(all.take(0).filter(pred) =~= Seq::empty()) by {
        reveal(Seq::filter);
    }
    for i in 0..variables.len()
        invariant
            all == variables.deep_view(),
            pred == exposure(patterns.deep_view()),
            out.deep_view() == all.take(i as int).filter(pred),
    {
        let key = variables[i].0.as_str();
        let ghost done = out.deep_view();
        proof {
            all.take(i as int).lemma_filter_push(all[i as int], pred);
            assert(all.take(i as int).push(all[i as int]) =~= all.take(i + 1));
            assert(all[i as int] == (variables[i as int].0@, variables[i as int].1@));
        }
        if is_exposed_by(patterns, key) {
            out.push((variables[i].0.clone(), variables[i].1.clone()));
            assert(out.deep_view() =~= done.push(all[i as int]));
        }
    }
    assert(all.take(variables.len() as int) =~= all);
    out
}

/// A variable reaches the container exactly where the host has it and some pattern stands for
/// its name. Without patterns none does.
pub proof fn law_only_exposed_variables_pass(
    patterns: Seq<Seq<char>>,
    variables: Seq<(Seq<char>, Seq<char>)>,
)
    ensures
        forall|variable: (Seq<char>, Seq<char>)|
            #[trigger] exposed(patterns, variables).contains(variable) <==> variables.contains(
                variable,
            ) && is_exposed(patterns, variable.0),
        patterns.len() == 0 ==> exposed(patterns, variables).len() == 0,
{
    let pred = exposure(patterns);
    let out = exposed(patterns, variables);
    broadcast use vstd::seq_lib::group_filter_ensures;
    assert forall|variable: (Seq<char>, Seq<char>)|
        #[trigger] out.contains(variable) <==> variables.contains(variable) && is_exposed(
            patterns,
            variable.0,
        ) by {
        if out.contains(variable) {
            let i = choose|i: int| 0 <= i < out.len() && out[i] == variable;
            assert(pred(out[i]));
            variables.lemma_filter_contains_rev(pred, variable);
        }
        if variables.contains(variable) && is_exposed(patterns, variable.0) {
            let i = choose|i: int| 0 <= i < variables.len() && variables[i] == variable;
            assert(pred(variables[i]));
            assert(out.contains(variables[i]));
        }
    }
    if patterns.len() == 0 && out.len() > 0 {
        assert(pred(out[0]));
    }
}

/// A variable as it is passed into the container.
pub open spec fn assignment(variable: (Seq<char>, Seq<char>)) -> Seq<char> {
    variable.0 + "="@ + variable.1
}

/// Variables as they are passed into the container.
pub open spec fn assignments(variables: Seq<(Seq<char>, Seq<char>)>) -> Seq<Seq<char>> {
    variables.map_values(|variable: (Seq<char>, Seq<char>)| assignment(variable))
}

/// The variables of the host that are passed into the container, as they are passed.
fn resolve_envs(patterns: &[String], variables: &Vec<(String, String)>) -> (r: Vec<String>)
    ensures
        r.deep_view() == assignments(exposed(patterns.deep_view(), variables.deep_view())),
{
    let chosen = collect_exposed_host_env(patterns, variables);
    let mut out: Vec<String> = Vec::new();
    for i in 0..chosen.len()
        invariant
            out.len() == i,
            forall|j: int|
                0 <= j < i ==> (#[trigger] out[j])@ == assignment(
                    (chosen[j].0@, chosen[j].1@),
                ),
    {
        out.push(chosen[i].0.clone().concat("=").concat(chosen[i].1.as_str()));
    }
    assert(out.deep_view() =~= assignments(chosen.deep_view()));
    out
}

/// Which directory is the working directory.
#[derive(Debug)]
pub enum WorkdirChoice {
    /// None at all.
    Nothing,
    /// The one that was asked for.
    Given(OsText),
    /// The directory that the program runs in.
    Current,
}

/// Which directory is the working directory: none where that is asked for, else the one that
/// is named, else the current one.
pub fn choose_workdir(args: &Args) -> (r: WorkdirChoice)
    ensures
        args.no_workdir ==> r is Nothing,
        !args.no_workdir && args.workdir is None ==> r is Current,
        !args.no_workdir && args.workdir is Some ==> (r matches WorkdirChoice::Given(path)
            && path.deep_view() == args.deep_view().workdir->0),
{
    if args.no_workdir {
        WorkdirChoice::Nothing
    } else {
        match &args.workdir {
            Some(path) => WorkdirChoice::Given(path.copy()),
            None => WorkdirChoice::Current,
        }
    }
}

/// What the host knows, of which a run takes what was asked for.
#[derive(Debug)]
pub struct HostFacts {
    /// The environment variables.
    pub variables: Vec<(String, String)>,
    /// The directory that the program runs in, where it could be told.
    pub current_dir: Option<OsText>,
    /// What is known of paths.
    pub paths: Vec<PathFacts>,
    /// The home directory of the user.
    pub home: Option<HostPath>,
}

/// What [`HostFacts`] are about.
pub struct HostView {
    pub variables: Seq<(Seq<char>, Seq<char>)>,
    pub current_dir: Option<os_text::OsTextView>,
    pub paths: Seq<mounts::FactsView>,
    pub home: Option<mounts::PathView>,
}

impl DeepView for HostFacts {
    type V = HostView;

    open spec fn deep_view(&self) -> HostView {
        HostView {
            variables: self.variables.deep_view(),
            current_dir: self.current_dir.deep_view(),
            paths: self.paths.deep_view(),
            home: self.home.deep_view(),
        }
    }
}

/// What a run passes into its container.
#[derive(Debug)]
pub struct LaunchPlan {
    pub workdir: Option<BindMount>,
    pub extra_mounts: Vec<BindMount>,
    pub envs: Vec<String>,
    pub transport: Transport,
    pub network: Option<String>,
    pub ports: Vec<String>,
    pub user_map: bool,
}

/// What a [`LaunchPlan`] is about.
pub struct PlanView {
    pub workdir: Option<mounts::MountView>,
    pub extra_mounts: Seq<mounts::MountView>,
    pub envs: Seq<Seq<char>>,
    pub transport: Transport,
    pub network: Option<Seq<char>>,
    pub ports: Seq<Seq<char>>,
    pub user_map: bool,
}

impl DeepView for LaunchPlan {
    type V = PlanView;

    open spec fn deep_view(&self) -> PlanView {
        PlanView {
            workdir: self.workdir.deep_view(),
            extra_mounts: self.extra_mounts.deep_view(),
            envs: self.envs.deep_view(),
            transport: self.transport,
            network: self.network.deep_view(),
            ports: self.ports.deep_view(),
            user_map: self.user_map,
        }
    }
}

/// The working directory that some arguments ask for: none where that is asked for, else the
/// one that is named, else the current one.
pub open spec fn asked_workdir(
    args: cli::ArgsView,
    current_dir: Option<os_text::OsTextView>,
) -> Option<os_text::OsTextView> {
    if args.no_workdir {
        None
    } else if args.workdir is Some {
        args.workdir
    } else {
        current_dir
    }
}

/// Whether the working directory that some arguments ask for can be told: the current directory
/// is known, unless it does not matter.
pub open spec fn workdir_can_be_told(args: cli::ArgsView, host: HostView) -> bool {
    args.no_workdir || args.workdir is Some || host.current_dir is Some
}

/// What a run passes into its container, for some arguments on some host.
pub open spec fn planned(args: cli::ArgsView, host: HostView) -> Result<PlanView, RunError> {
    let envs = assignments(exposed(args.expose_env, host.variables));
    let detected = transport::detected(args.command, envs);
    let plan = PlanView {
        workdir: match asked_workdir(args, host.current_dir) {
            Some(path) => Some(mounts::mount_of(path, host.paths, host.home)),
            None => None,
        },
        extra_mounts: args.extra_mounts.map_values(
            |path: os_text::OsTextView| mounts::mount_of(path, host.paths, host.home),
        ),
        envs,
        transport: detected,
        network: args.network,
        ports: match detected {
            Transport::Stdio => args.ports,
            Transport::Http { port } => with_port(args.ports, port),
        },
        user_map: args.user_map,
    };
    if args.command.len() == 0 {
        Err(RunError::NoCommand)
    } else {
        match detected {
            Transport::Http { port } if args.network == Some("none"@) => Err(
                RunError::NoNetwork(port),
            ),
            _ => Ok(plan),
        }
    }
}

/// A copy of a list of texts.
fn copy_list(list: &Vec<String>) -> (r: Vec<String>)
    ensures
        r.deep_view() == list.deep_view(),
{
    let mut out: Vec<String> = Vec::new();
    for i in 0..list.len()
        invariant
            out.len() == i,
            forall|j: int| 0 <= j < i ==> (#[trigger] out[j])@ == list[j]@,
    {
        out.push(list[i].clone());
    }
    assert(out.deep_view() =~= list.deep_view());
    out
}

/// A copy of a text that may be missing.
fn copy_option(text: &Option<String>) -> (r: Option<String>)
    ensures
        r.deep_view() == text.deep_view(),
{
    match text {
        Some(text) => Some(text.clone()),
        None => None,
    }
}

/// Whether there is a command to run.
pub fn check_command(command: &[String]) -> (r: Result<(), RunError>)
    ensures
        command@.len() == 0 ==> r == Err::<(), RunError>(RunError::NoCommand),
        command@.len() > 0 ==> r == Ok::<(), RunError>(()),
{
    if command.len() == 0 {
        Err(RunError::NoCommand)
    } else {
        Ok(())
    }
}

/// Decides what a run passes into its container.
///
/// The current directory has to be known where the command is to run in it.
pub fn plan(args: &Args, host: &HostFacts) -> (r: Result<LaunchPlan, RunError>)
    requires
        args.command.len() > 0 ==> workdir_can_be_told(args.deep_view(), host.deep_view()),
    ensures
        match planned(args.deep_view(), host.deep_view()) {
            Ok(plan) => r matches Ok(made) && made.deep_view() == plan,
            Err(error) => r matches Err(failure) && failure == error,
        },
{
    match check_command(args.command.as_slice()) {
        Ok(()) => {},
        Err(error) => {
            return Err(error);
        },
    }
    let envs = resolve_envs(args.expose_env.as_slice(), &host.variables);
    let detected = transport::detect(args.command.as_slice(), envs.as_slice());
    let network = copy_option(&args.network);
    let mut ports = copy_list(&args.ports);
    if let Transport::Http { port } = detected {
        match apply_http_transport(&network, &mut ports, port) {
            Ok(()) => {},
            Err(error) => {
                return Err(error);
            },
        }
    }
    let asked = match choose_workdir(args) {
        WorkdirChoice::Nothing => None,
        WorkdirChoice::Given(path) => Some(path),
        WorkdirChoice::Current => match &host.current_dir {
            Some(path) => Some(path.copy()),
            None => None,
        },
    };
    let workdir = match asked {
        Some(path) => Some(prepare_bind_mount(&path, &host.paths, &host.home)),
        None => None,
    };
    let extra_mounts = prepare_extra_mounts(&args.extra_mounts, &host.paths, &host.home);
    Ok(
        LaunchPlan {
            workdir,
            extra_mounts,
            envs,
            transport: detected,
            network,
            ports,
            user_map: args.user_map,
        },
    )
}

/// The port that an image has to expose: that of its HTTP server.
pub open spec fn exposed_port(transport: Transport) -> Option<u16> {
    match transport {
        Transport::Http { port } => Some(port),
        Transport::Stdio => None,
    }
}

/// The configuration of a container for a plan.
pub open spec fn configured(plan: PlanView, image: Seq<char>) -> container::RunConfigView {
    container::RunConfigView {
        image,
        workdir: plan.workdir,
        extra_mounts: plan.extra_mounts,
        envs: plan.envs,
        network: plan.network,
        ports: plan.ports,
        user_map: plan.user_map,
    }
}

impl LaunchPlan {
    /// The port that the image has to expose.
    pub fn expose_port(&self) -> (r: Option<u16>)
        ensures
            r == exposed_port(self.transport),
    {
        match self.transport {
            Transport::Http { port } => Some(port),
            Transport::Stdio => None,
        }
    }

    /// The configuration of a container that runs some image.
    pub fn run_config(self, image: String) -> (r: RunConfig)
        ensures
            r.deep_view() == configured(self.deep_view(), image@),
    {
        RunConfig {
            image,
            workdir: self.workdir,
            extra_mounts: self.extra_mounts,
            envs: self.envs,
            network: self.network,
            ports: self.ports,
            user_map: self.user_map,
        }
    }
}

/// A transport as a report shows it.
pub open spec fn transport_text(transport: Transport) -> Seq<char> {
    match transport {
        Transport::Stdio => "Stdio"@,
        Transport::Http { port } => "Http { port: "@ + text::decimal(port as nat) + " }"@,
    }
}

/// The working directory as a report shows it.
pub open spec fn workdir_text(workdir: Option<mounts::MountView>) -> Seq<char> {
    match workdir {
        Some(mount) => mount.host.text + " -> "@ + mount.container,
        None => "(none)"@,
    }
}

/// Additional mounts as a report shows them, each by the path that was asked for.
pub open spec fn mount_lines(
    paths: Seq<os_text::OsTextView>,
    list: Seq<mounts::MountView>,
) -> Seq<char>
    decreases paths.len(),
{
    if paths.len() == 0 || list.len() == 0 {
        Seq::empty()
    } else {
        "Extra mount: "@ + paths[0].text + " -> "@ + list[0].container + "\n"@ + mount_lines(
            paths.skip(1),
            list.skip(1),
        )
    }
}

/// Port mappings as a report shows them, one to a line.
pub open spec fn port_lines(ports: Seq<Seq<char>>) -> Seq<char>
    decreases ports.len(),
{
    if ports.len() == 0 {
        Seq::empty()
    } else {
        port_lines(ports.drop_last()) + "  "@ + ports.last() + "\n"@
    }
}

/// The section of a report on port mappings, if there are any.
pub open spec fn port_section(ports: Seq<Seq<char>>) -> Seq<char> {
    if ports.len() == 0 {
        Seq::empty()
    } else {
        "\n=== Port mappings ===\n"@ + port_lines(ports)
    }
}

/// The network as a report shows it.
pub open spec fn network_text(network: Option<Seq<char>>) -> Seq<char> {
    match network {
        Some(network) => network,
        None => "(engine default)"@,
    }
}

/// The report of a dry run, where `paths` are the additional directories that were asked for
/// and `command` is the wrapped command as the report shows it.
pub open spec fn report(
    plan: PlanView,
    paths: Seq<os_text::OsTextView>,
    dockerfile: Seq<char>,
    command: Seq<char>,
) -> Seq<char> {
    "=== Detected transport ===\n"@ + transport_text(plan.transport)
        + "\n\n=== Generated Dockerfile ===\n"@ + dockerfile + "\n=== Workdir ===\n"@
        + workdir_text(plan.workdir) + "\n"@ + mount_lines(paths, plan.extra_mounts)
        + port_section(plan.ports) + "\n=== Network ===\n"@ + network_text(plan.network)
        + "\n\n=== Container command ===\n"@ + command + "\n"@
}

/// Appends the working directory as a report shows it.
fn append_workdir(out: &mut String, workdir: &Option<BindMount>)
    ensures
        final(out)@ == old(out)@ + workdir_text(workdir.deep_view()),
{
    let ghost before = out@;
    match workdir {
        Some(mount) => {
            out.append(mount.host.text.as_str());
            out.append(" -> ");
            out.append(mount.container.as_str());
        },
        None => {
            out.append("(none)");
        },
    }
    assert(out@ =~= before + workdir_text(workdir.deep_view()));
}

/// Appends the additional mounts as a report shows them.
fn append_mounts(out: &mut String, paths: &Vec<OsText>, list: &Vec<BindMount>)
    ensures
        final(out)@ == old(out)@ + mount_lines(paths.deep_view(), list.deep_view()),
{
    let ghost before = out@;
    let ghost shown = paths.deep_view();
    let ghost mounted = list.deep_view();
    let ghost all = before + mount_lines(shown, mounted);
    let mut i: usize = 0;
    assert(shown.skip(0) =~= shown);
    assert(mounted.skip(0) =~= mounted);
    while i < paths.len() && i < list.len()
        invariant
            shown == paths.deep_view(),
            mounted == list.deep_view(),
            i <= paths.len(),
            i <= list.len(),
            out@ + mount_lines(shown.skip(i as int), mounted.skip(i as int)) == all,
        decreases paths.len() - i,
    {
        let ghost done = out@;
        out.append("Extra mount: ");
        out.append(paths[i].text.as_str());
        out.append(" -> ");
        out.append(list[i].container.as_str());
        out.append("\n");
        proof {
            assert(shown.skip(i as int)[0] == paths[i as int].deep_view());
            assert(mounted.skip(i as int)[0] == list[i as int].deep_view());
            assert(shown.skip(i as int).skip(1) =~= shown.skip(i + 1));
            assert(mounted.skip(i as int).skip(1) =~= mounted.skip(i + 1));
            assert(out@ + mount_lines(shown.skip(i + 1), mounted.skip(i + 1)) =~= done
                + mount_lines(shown.skip(i as int), mounted.skip(i as int)));
        }
        i = i + 1;
    }
    assert(out@ =~= all);
}

/// Appends the section on port mappings.
fn append_ports(out: &mut String, ports: &Vec<String>)
    ensures
        final(out)@ == old(out)@ + port_section(ports.deep_view()),
{
    let ghost before = out@;
    let ghost all = ports.deep_view();
    if ports.len() == 0 {
        assert(out@ =~= before + port_section(all));
        return;
    }
    out.append("\n=== Port mappings ===\n");
    let ghost head = out@;
    assert(out@ =~= head + port_lines(all.take(0)));
    for i in 0..ports.len()
        invariant
            all == ports.deep_view(),
            out@ == head + port_lines(all.take(i as int)),
    {
        out.append("  ");
        out.append(ports[i].as_str());
        out.append("\n");
        assert(all.take(i + 1).drop_last() =~= all.take(i as int));
        assert(out@ =~= head + port_lines(all.take(i + 1)));
    }
    assert(all.take(ports.len() as int) =~= all);
    assert(out@ =~= before + port_section(all));
}

/// The report of a dry run, for a wrapped command as the report shows it.
pub fn dry_run_report_for(
    plan: &LaunchPlan,
    paths: &Vec<OsText>,
    dockerfile: &str,
    command: &str,
) -> (r: String)
    ensures
        r@ == report(plan.deep_view(), paths.deep_view(), dockerfile@, command@),
{
    let mut out = "=== Detected transport ===\n".to_owned();
    match plan.transport {
        Transport::Stdio => {
            out.append("Stdio");
        },
        Transport::Http { port } => {
            let number = decimal_text(port as u32);
            let text = "Http { port: ".to_owned().concat(number.as_str()).concat(" }");
            out.append(text.as_str());
        },
    }
    out.append("\n\n=== Generated Dockerfile ===\n");
    out.append(dockerfile);
    out.append("\n=== Workdir ===\n");
    append_workdir(&mut out, &plan.workdir);
    out.append("\n");
    append_mounts(&mut out, paths, &plan.extra_mounts);
    append_ports(&mut out, &plan.ports);
    out.append("\n=== Network ===\n");
    match &plan.network {
        Some(network) => {
            out.append(network.as_str());
        },
        None => {
            out.append("(engine default)");
        },
    }
    out.append("\n\n=== Container command ===\n");
    out.append(command);
    out.append("\n");
    out
}

/// The report of a dry run: what was detected and what would be run.
pub fn dry_run_report(plan: &LaunchPlan, args: &Args, dockerfile: &str) -> (r: String)
    ensures
        r@ == report(
            plan.deep_view(),
            args.extra_mounts.deep_view(),
            dockerfile@,
            platform::debug_list(args.command.deep_view()),
        ),
{
    let command = debug_text(args.command.as_slice());
    dry_run_report_for(plan, &args.extra_mounts, dockerfile, command.as_str())
}

/// Where a run stands.
#[derive(Debug, Clone, Copy, PartialEq, Eq, Structural)]
pub enum Stage {
    /// The command is checked.
    Command,
    /// The runner of the command is looked at.
    Runner,
    /// It is decided what is passed into the container.
    Plan,
    /// The engine is looked for.
    Engine,
    /// The Dockerfile is written.
    Dockerfile,
    /// The report of a dry run is printed.
    Report,
    /// The image is built or found.
    Image,
    /// The container is started.
    Launch,
    /// The standard streams are passed through until the container ends.
    Proxy,
    /// The end of a container that serves over HTTP is awaited.
    Await,
    /// The run is over, with that exit code.
    Finished(i32),
    /// The run is over, by an error.
    Failed,
}

/// What came of a stage.
#[derive(Debug, Clone, Copy, PartialEq, Eq, Structural)]
pub enum Outcome {
    /// It was done.
    Done,
    /// The container ended, with that exit code to report.
    Exited(i32),
    /// It failed.
    Failed,
}

/// The stage that follows a stage that was done.
pub open spec fn following_stage(stage: Stage, dry_run: bool, transport: Transport) -> Stage {
    match stage {
        Stage::Command => Stage::Runner,
        Stage::Runner => Stage::Plan,
        Stage::Plan => Stage::Engine,
        Stage::Engine => Stage::Dockerfile,
        Stage::Dockerfile => if dry_run {
            Stage::Report
        } else {
            Stage::Image
        },
        Stage::Report => Stage::Finished(0),
        Stage::Image => Stage::Launch,
        Stage::Launch => match transport {
            Transport::Stdio => Stage::Proxy,
            Transport::Http { port: _ } => Stage::Await,
        },
        _ => stage,
    }
}

/// The stage that follows a stage. A run that is over stays so.
pub open spec fn staged(
    stage: Stage,
    outcome: Outcome,
    dry_run: bool,
    transport: Transport,
) -> Stage {
    match (stage, outcome) {
        (Stage::Finished(_), _) => stage,
        (Stage::Failed, _) => stage,
        (_, Outcome::Failed) => Stage::Failed,
        (Stage::Proxy, Outcome::Exited(code)) => Stage::Finished(code),
        (Stage::Await, Outcome::Exited(code)) => Stage::Finished(code),
        (_, Outcome::Exited(_)) => stage,
        (_, Outcome::Done) => following_stage(stage, dry_run, transport),
    }
}

/// The stage that follows a stage of a run: detect runner, generate Dockerfile, build, run,
/// proxy.
pub fn run(stage: Stage, outcome: Outcome, dry_run: bool, transport: Transport) -> (r: Stage)
    ensures
        r == staged(stage, outcome, dry_run, transport),
{
    match outcome {
        Outcome::Failed => match stage {
            Stage::Finished(code) => Stage::Finished(code),
            _ => Stage::Failed,
        },
        Outcome::Exited(code) => match stage {
            Stage::Proxy => Stage::Finished(code),
            Stage::Await => Stage::Finished(code),
            _ => stage,
        },
        Outcome::Done => match stage {
            Stage::Command => Stage::Runner,
            Stage::Runner => Stage::Plan,
            Stage::Plan => Stage::Engine,
            Stage::Engine => Stage::Dockerfile,
            Stage::Dockerfile => if dry_run {
                Stage::Report
            } else {
                Stage::Image
            },
            Stage::Report => Stage::Finished(0),
            Stage::Image => Stage::Launch,
            Stage::Launch => match transport {
                Transport::Stdio => Stage::Proxy,
                Transport::Http { port: _ } => Stage::Await,
            },
            _ => stage,
        },
    }
}

/// The stage of a run after some outcomes.
pub open spec fn stage_after(
    outcomes: Seq<Outcome>,
    dry_run: bool,
    transport: Transport,
) -> Stage
    decreases outcomes.len(),
{
    if outcomes.len() == 0 {
        Stage::Command
    } else {
        staged(
            stage_after(outcomes.drop_last(), dry_run, transport),
            outcomes.last(),
            dry_run,
            transport,
        )
    }
}

/// A dry run builds no image and starts no container.
pub proof fn law_a_dry_run_starts_nothing(outcomes: Seq<Outcome>, transport: Transport)
    ensures
        ({
            let stage = stage_after(outcomes, true, transport);
            stage != Stage::Image && stage != Stage::Launch && stage != Stage::Proxy && stage
                != Stage::Await
        }),
    decreases outcomes.len(),
{
    if outcomes.len() > 0 {
        law_a_dry_run_starts_nothing(outcomes.drop_last(), transport);
    }
}

/// A failure ends a run for good, unless it was over before.
pub proof fn law_a_failure_ends_the_run(
    outcomes: Seq<Outcome>,
    more: Seq<Outcome>,
    dry_run: bool,
    transport: Transport,
)
    requires
        !(stage_after(outcomes, dry_run, transport) is Finished),
    ensures
        stage_after(outcomes.push(Outcome::Failed) + more, dry_run, transport) == Stage::Failed,
    decreases more.len(),
{
    let failed = outcomes.push(Outcome::Failed);
    if more.len() == 0 {
        assert(failed + more =~= failed);
        assert(failed.drop_last() =~= outcomes);
    } else {
        law_a_failure_ends_the_run(outcomes, more.drop_last(), dry_run, transport);
        assert((failed + more).drop_last() =~= failed + more.drop_last());
    }
}

/// How far along a stage is.
spec fn rank(stage: Stage) -> int {
    match stage {
        Stage::Command => 0,
        Stage::Runner => 1,
        Stage::Plan => 2,
        Stage::Engine => 3,
        Stage::Dockerfile => 4,
        Stage::Report => 5,
        Stage::Image => 5,
        Stage::Launch => 6,
        Stage::Proxy => 7,
        Stage::Await => 7,
        Stage::Finished(_) => 8,
        Stage::Failed => 8,
    }
}

/// How many of some outcomes say that a stage was done.
pub open spec fn stages_done(outcomes: Seq<Outcome>) -> nat
    decreases outcomes.len(),
{
    if outcomes.len() == 0 {
        0
    } else if outcomes.last() == Outcome::Done {
        stages_done(outcomes.drop_last()) + 1
    } else {
        stages_done(outcomes.drop_last())
    }
}

/// No stage is passed over: a stage is reached only after every stage before it was done.
proof fn lemma_stages_in_order(outcomes: Seq<Outcome>, dry_run: bool, transport: Transport)
    ensures
        ({
            let stage = stage_after(outcomes, dry_run, transport);
            rank(stage) < 8 ==> stages_done(outcomes) >= rank(stage) && !outcomes.contains(
                Outcome::Failed,
            )
        }),
    decreases outcomes.len(),
{
    if outcomes.len() > 0 {
        let before = outcomes.drop_last();
        lemma_stages_in_order(before, dry_run, transport);
        let stage = stage_after(outcomes, dry_run, transport);
        if rank(stage) < 8 && outcomes.contains(Outcome::Failed) {
            let i = choose|i: int| 0 <= i < outcomes.len() && outcomes[i] == Outcome::Failed;
            if i < before.len() {
                assert(before[i] == Outcome::Failed);
                assert(before.contains(Outcome::Failed));
            }
        }
    }
}

/// A container is started only in a run that is no dry run, after six stages were done and
/// none failed: the command, its runner, the plan, the engine, the Dockerfile and the image.
pub proof fn law_a_container_is_started_last(
    outcomes: Seq<Outcome>,
    dry_run: bool,
    transport: Transport,
)
    requires
        stage_after(outcomes, dry_run, transport) == Stage::Launch,
    ensures
        !dry_run,
        stages_done(outcomes) >= 6,
        !outcomes.contains(Outcome::Failed),
{
    lemma_stages_in_order(outcomes, dry_run, transport);
    if dry_run {
        law_a_dry_run_starts_nothing(outcomes, transport);
    }
}

/// The exit code of a run is that of its container, or 0 for a dry run.
pub proof fn law_the_run_ends_as_its_container(
    outcomes: Seq<Outcome>,
    dry_run: bool,
    transport: Transport,
    code: i32,
)
    requires
        stage_after(outcomes, dry_run, transport) == Stage::Finished(code),
    ensures
        dry_run ==> code == 0,
        !dry_run ==> outcomes.contains(Outcome::Exited(code)),
    decreases outcomes.len(),
{
    if outcomes.len() > 0 {
        let before = outcomes.drop_last();
        let stage = stage_after(before, dry_run, transport);
        if stage == Stage::Finished(code) {
            law_the_run_ends_as_its_container(before, dry_run, transport, code);
            if !dry_run {
                let i = choose|i: int| 0 <= i < before.len() && before[i] == Outcome::Exited(code);
                assert(outcomes[i] == Outcome::Exited(code));
            }
        } else if dry_run {
            law_a_dry_run_starts_nothing(before, transport);
        } else {
            lemma_no_report(before, transport);
            assert(outcomes[outcomes.len() - 1] == Outcome::Exited(code));
        }
    }
}

/// A run that is no dry run prints no report.
proof fn lemma_no_report(outcomes: Seq<Outcome>, transport: Transport)
    ensures
        stage_after(outcomes, false, transport) != Stage::Report,
    decreases outcomes.len(),
{
    if outcomes.len() > 0 {
        lemma_no_report(outcomes.drop_last(), transport);
    }
}

/// Every variable that a run passes into its container is one of the host that some pattern
/// stands for; without patterns there is none.
pub proof fn law_a_run_passes_only_exposed_variables(
    args: cli::ArgsView,
    host: HostView,
    image: Seq<char>,
    env: Seq<char>,
)
    requires
        planned(args, host) is Ok,
        configured(planned(args, host)->Ok_0, image).envs.contains(env),
    ensures
        args.expose_env.len() > 0,
        exists|variable: (Seq<char>, Seq<char>)|
            #[trigger] host.variables.contains(variable) && is_exposed(args.expose_env, variable.0)
                && env == assignment(variable),
{
    let chosen = exposed(args.expose_env, host.variables);
    let envs = assignments(chosen);
    let i = choose|i: int| 0 <= i < envs.len() && envs[i] == env;
    law_only_exposed_variables_pass(args.expose_env, host.variables);
    assert(chosen.contains(chosen[i]));
    assert(host.variables.contains(chosen[i]));
}

/// A run mounts what its arguments ask for and nothing else: one mount for each additional
/// directory, and one for the working directory, unless that is forbidden. Each is of the path
/// as the arguments write it, resolved where the file system does; the working directory is the
/// one that is named, or else the current one.
pub proof fn law_a_run_mounts_only_what_was_asked_for(
    args: cli::ArgsView,
    host: HostView,
    image: Seq<char>,
)
    requires
        planned(args, host) is Ok,
        workdir_can_be_told(args, host),
    ensures
        ({
            let config = configured(planned(args, host)->Ok_0, image);
            &&& config.workdir is None <==> args.no_workdir
            &&& !args.no_workdir ==> config.workdir == Some(
                mounts::mount_of(
                    match args.workdir {
                        Some(path) => path,
                        None => host.current_dir->0,
                    },
                    host.paths,
                    host.home,
                ),
            )
            &&& config.extra_mounts.len() == args.extra_mounts.len()
            &&& forall|i: int|
                0 <= i < args.extra_mounts.len() ==> #[trigger] config.extra_mounts[i]
                    == mounts::mount_of(args.extra_mounts[i], host.paths, host.home)
        }),
{
}

/// A run is isolated by default. Where its arguments ask for no additional directory and no
/// variable, the engine is told to mount at most the working directory, and not even that where
/// it is forbidden; it is told to pass no variable and to give no privileges. No text that the
/// run was given may itself read as one of these options.
pub proof fn law_a_run_is_isolated_by_default(
    args: cli::ArgsView,
    host: HostView,
    image: Seq<char>,
    podman: bool,
    uid: u32,
    gid: u32,
)
    requires
        planned(args, host) is Ok,
        args.extra_mounts.len() == 0,
        args.expose_env.len() == 0,
        ({
            let config = configured(planned(args, host)->Ok_0, image);
            &&& !container::is_given(config, "-v"@)
            &&& !container::is_given(config, "-e"@)
            &&& !container::is_given(config, "--privileged"@)
        }),
    ensures
        ({
            let config = configured(planned(args, host)->Ok_0, image);
            let command = container::run_command(config, podman, uid, gid);
            &&& !command.contains("-e"@)
            &&& !command.contains("--privileged"@)
            &&& args.no_workdir ==> !command.contains("-v"@)
            &&& forall|i: int|
                0 <= i < command.len() && #[trigger] command[i] == "-v"@ ==> i + 1
                    < command.len() && (asked_workdir(args, host.current_dir) matches Some(path)
                    && command[i + 1] == container::mount_text(
                    mounts::mount_of(path, host.paths, host.home),
                    podman,
                ))
            &&& forall|i: int, j: int|
                0 <= i < command.len() && 0 <= j < command.len() && #[trigger] command[i] == "-v"@
                    && #[trigger] command[j] == "-v"@ ==> i == j
        }),
{
    let config = configured(planned(args, host)->Ok_0, image);
    let command = container::run_command(config, podman, uid, gid);
    law_only_exposed_variables_pass(args.expose_env, host.variables);
    container::law_no_variable_is_passed_unasked(config, podman, uid, gid);
    container::law_never_privileged(config, podman, uid, gid);
    if config.workdir is None {
        container::law_nothing_is_mounted_unasked(config, podman, uid, gid);
        assert forall|i: int| 0 <= i < command.len() implies #[trigger] command[i] != "-v"@ by {
            assert(command.contains(command[i]));
        }
    } else {
        container::law_only_the_workdir_is_mounted(config, podman, uid, gid);
    }
}

/// What the arguments ask for reaches the engine: each additional directory, the working
/// directory, the network, each port, and the user.
pub proof fn law_a_run_passes_what_was_asked_for(
    args: cli::ArgsView,
    host: HostView,
    image: Seq<char>,
    podman: bool,
    uid: u32,
    gid: u32,
)
    requires
        planned(args, host) is Ok,
    ensures
        ({
            let config = configured(planned(args, host)->Ok_0, image);
            let command = container::run_command(config, podman, uid, gid);
            &&& forall|i: int|
                0 <= i < args.extra_mounts.len() ==> container::passes(
                    command,
                    "-v"@,
                    container::mount_text(
                        mounts::mount_of(#[trigger] args.extra_mounts[i], host.paths, host.home),
                        podman,
                    ),
                )
            &&& asked_workdir(args, host.current_dir) matches Some(path) ==> container::passes(
                command,
                "-v"@,
                container::mount_text(mounts::mount_of(path, host.paths, host.home), podman),
            ) && container::passes(
                command,
                "-w"@,
                mounts::mount_of(path, host.paths, host.home).container,
            )
            &&& args.network matches Some(network) ==> container::passes(
                command,
                "--network"@,
                network,
            )
            &&& forall|i: int|
                0 <= i < args.ports.len() ==> container::passes(
                    command,
                    "-p"@,
                    #[trigger] args.ports[i],
                )
            &&& config.user_map == args.user_map
        }),
{
    let plan = planned(args, host)->Ok_0;
    let config = configured(plan, image);
    container::law_what_is_asked_for_is_passed(config, podman, uid, gid);
    let command = container::run_command(config, podman, uid, gid);
    assert forall|i: int| 0 <= i < args.extra_mounts.len() implies container::passes(
        command,
        "-v"@,
        container::mount_text(
            mounts::mount_of(#[trigger] args.extra_mounts[i], host.paths, host.home),
            podman,
        ),
    ) by {
        assert(config.extra_mounts.contains(config.extra_mounts[i]));
    }
    assert forall|i: int| 0 <= i < args.ports.len() implies container::passes(
        command,
        "-p"@,
        #[trigger] args.ports[i],
    ) by {
        if let Transport::Http { port } = plan.transport {
            law_http_port_is_mapped_once(args.ports, port);
        }
        assert(config.ports[i] == args.ports[i]);
        assert(config.ports.contains(args.ports[i]));
    }
}

/// In HTTP mode the port of the server is mapped to the host, and the container has a network.
/// Where no mapping for the port was asked for, the engine is told to map the port to itself.
pub proof fn law_http_servers_can_be_reached(
    args: cli::ArgsView,
    host: HostView,
    port: u16,
    image: Seq<char>,
    podman: bool,
    uid: u32,
    gid: u32,
)
    requires
        planned(args, host) is Ok,
        planned(args, host)->Ok_0.transport == (Transport::Http { port }),
    ensures
        ({
            let plan = planned(args, host)->Ok_0;
            let command = container::run_command(configured(plan, image), podman, uid, gid);
            &&& is_mapped(plan.ports, port)
            &&& plan.network != Some("none"@)
            &&& exists|mapping: Seq<char>|
                #![trigger maps_port(mapping, port)]
                maps_port(mapping, port) && container::passes(command, "-p"@, mapping)
            &&& !is_mapped(args.ports, port) ==> container::passes(
                command,
                "-p"@,
                port_mapping(port),
            )
        }),
{
    let plan = planned(args, host)->Ok_0;
    let config = configured(plan, image);
    law_http_port_is_mapped_once(args.ports, port);
    container::law_what_is_asked_for_is_passed(config, podman, uid, gid);
    let i = choose|i: int| 0 <= i < plan.ports.len() && maps_port(#[trigger] plan.ports[i], port);
    assert(config.ports.contains(plan.ports[i]));
    if !is_mapped(args.ports, port) {
        assert(plan.ports[args.ports.len() as int] == port_mapping(port));
        assert(config.ports.contains(port_mapping(port)));
    }
}

/// The image of a server exposes its port in HTTP mode, and no port over stdio.
pub proof fn law_the_image_exposes_the_port(
    args: cli::ArgsView,
    host: HostView,
    runner: dockerfile::Runner,
    entrypoint: Seq<char>,
)
    requires
        planned(args, host) is Ok,
    ensures
        ({
            let transport = planned(args, host)->Ok_0.transport;
            let list = dockerfile::instructions(
                runner,
                entrypoint,
                exposed_port(transport),
                args.packages,
            );
            &&& transport matches Transport::Http { port } ==> list.contains(
                dockerfile::expose_instruction(port),
            )
            &&& transport == Transport::Stdio ==> forall|i: int|
                0 <= i < list.len() ==> !dockerfile::exposes(#[trigger] list[i])
        }),
{
    let transport = planned(args, host)->Ok_0.transport;
    dockerfile::law_only_a_given_port_is_exposed(
        runner,
        entrypoint,
        exposed_port(transport),
        args.packages,
    );
}

/// Every variable of the host that some pattern stands for is passed to the container.
pub proof fn law_exposed_variables_are_passed(
    args: cli::ArgsView,
    host: HostView,
    image: Seq<char>,
    podman: bool,
    uid: u32,
    gid: u32,
    variable: (Seq<char>, Seq<char>),
)
    requires
        planned(args, host) is Ok,
        host.variables.contains(variable),
        is_exposed(args.expose_env, variable.0),
    ensures
        container::passes(
            container::run_command(
                configured(planned(args, host)->Ok_0, image),
                podman,
                uid,
                gid,
            ),
            "-e"@,
            assignment(variable),
        ),
{
    let config = configured(planned(args, host)->Ok_0, image);
    let chosen = exposed(args.expose_env, host.variables);
    law_only_exposed_variables_pass(args.expose_env, host.variables);
    assert(chosen.contains(variable));
    let i = choose|i: int| 0 <= i < chosen.len() && chosen[i] == variable;
    assert(config.envs[i] == assignment(variable));
    assert(config.envs.contains(assignment(variable)));
    container::law_what_is_asked_for_is_passed(config, podman, uid, gid);
}

/// Over stdio the port mappings are those that were asked for.
pub proof fn law_stdio_adds_no_ports(args: cli::ArgsView, host: HostView)
    requires
        planned(args, host) is Ok,
        planned(args, host)->Ok_0.transport == Transport::Stdio,
    ensures
        planned(args, host)->Ok_0.ports == args.ports,
{
}

/// A prefix pattern stands for every name that begins with the prefix, whatever follows, and for
/// no other name. A pattern that does not end with a star stands for itself and nothing else.
pub proof fn law_patterns_stand_for_what_they_begin(
    prefix: Seq<char>,
    rest: Seq<char>,
    pattern: Seq<char>,
    key: Seq<char>,
)
    ensures
        pattern_matches(prefix.push('*'), prefix + rest),
        pattern_matches(prefix.push('*'), key) ==> key == prefix + key.skip(prefix.len() as int)
            && key.len() >= prefix.len(),
        pattern.len() == 0 || pattern[pattern.len() - 1] != '*' ==> (pattern_matches(pattern, key)
            <==> pattern == key),
{
    assert(prefix.push('*').drop_last() =~= prefix);
    assert((prefix + rest).take(prefix.len() as int) =~= prefix);
    if prefix.is_prefix_of(key) {
        assert(key =~= prefix + key.skip(prefix.len() as int));
    }
}

/// One pattern that stands for a name is enough, and one is needed.
pub proof fn law_any_pattern_exposes(patterns: Seq<Seq<char>>, more: Seq<Seq<char>>, key: Seq<char>)
    ensures
        is_exposed(patterns + more, key) <==> is_exposed(patterns, key) || is_exposed(more, key),
        forall|pattern: Seq<char>| #[trigger]
            is_exposed(seq![pattern], key) <==> pattern_matches(pattern, key),
        !is_exposed(Seq::empty(), key),
{
    let all = patterns + more;
    if is_exposed(patterns, key) {
        let i = choose|i: int|
            0 <= i < patterns.len() && pattern_matches(#[trigger] patterns[i], key);
        assert(pattern_matches(all[i], key));
    }
    if is_exposed(more, key) {
        let i = choose|i: int| 0 <= i < more.len() && pattern_matches(#[trigger] more[i], key);
        assert(pattern_matches(all[patterns.len() + i], key));
    }
    if is_exposed(all, key) {
        let i = choose|i: int| 0 <= i < all.len() && pattern_matches(#[trigger] all[i], key);
        if i < patterns.len() {
            assert(pattern_matches(patterns[i], key));
        } else {
            assert(pattern_matches(more[i - patterns.len()], key));
        }
    }
    assert forall|pattern: Seq<char>| #[trigger] is_exposed(seq![pattern], key) <==> pattern_matches(
        pattern,
        key,
    ) by {
        assert(seq![pattern][0] == pattern);
    }
}

/// Variables are passed in the order in which the host has them, each as often as it has it and
/// as it stands there.
pub proof fn law_variables_keep_their_order(
    patterns: Seq<Seq<char>>,
    a: Seq<(Seq<char>, Seq<char>)>,
    b: Seq<(Seq<char>, Seq<char>)>,
    variable: (Seq<char>, Seq<char>),
)
    ensures
        exposed(patterns, a + b) == exposed(patterns, a) + exposed(patterns, b),
        exposed(patterns, seq![variable]) == if is_exposed(patterns, variable.0) {
            seq![variable]
        } else {
            Seq::empty()
        },
        assignments(a + b) == assignments(a) + assignments(b),
        assignments(seq![variable]) == seq![variable.0 + seq!['='] + variable.1],
    decreases b.len(),
{
    let pred = exposure(patterns);
    let none = Seq::<(Seq<char>, Seq<char>)>::empty();
    assert(none.filter(pred) =~= none) by {
        reveal(Seq::filter);
    }
    none.lemma_filter_push(variable, pred);
    assert(none.push(variable) =~= seq![variable]);
    assert(exposed(patterns, seq![variable]) =~= if is_exposed(patterns, variable.0) {
        seq![variable]
    } else {
        none
    });
    assert(assignments(a + b) =~= assignments(a) + assignments(b));
    reveal_strlit("=");
    assert("="@ =~= seq!['=']);
    assert(assignments(seq![variable]) =~= seq![variable.0 + seq!['='] + variable.1]);
    if b.len() == 0 {
        assert(a + b =~= a);
        assert(b =~= none);
        assert(exposed(patterns, a) + exposed(patterns, b) =~= exposed(patterns, a));
    } else {
        let fewer = b.drop_last();
        law_variables_keep_their_order(patterns, a, fewer, variable);
        (a + fewer).lemma_filter_push(b.last(), pred);
        fewer.lemma_filter_push(b.last(), pred);
        assert((a + fewer).push(b.last()) =~= a + b);
        assert(fewer.push(b.last()) =~= b);
        assert(exposed(patterns, a + b) =~= exposed(patterns, a) + exposed(patterns, b));
    }
}

/// A mapping is for a port of the container exactly where it is the number of the port, or ends
/// with a colon and that number.
pub proof fn law_mappings_end_with_the_port(front: Seq<char>, mapping: Seq<char>, port: u16)
    ensures
        maps_port(text::decimal(port as nat), port),
        maps_port(front + seq![':'] + text::decimal(port as nat), port),
        maps_port(mapping, port) ==> mapping == text::decimal(port as nat) || exists|other: Seq<
            char,
        >| mapping == #[trigger] (other + seq![':']) + text::decimal(port as nat),
{
    let number = text::decimal(port as nat);
    reveal_strlit(":");
    assert(":"@ =~= seq![':']);
    let ending = ":"@ + number;
    let whole = front + seq![':'] + number;
    assert(whole.skip(whole.len() - ending.len()) =~= ending);
    if maps_port(mapping, port) && mapping != number {
        let other = mapping.take(mapping.len() - ending.len());
        assert(mapping.skip(mapping.len() - ending.len()) == ending);
        assert(mapping =~= other + mapping.skip(mapping.len() - ending.len()));
        assert(mapping =~= (other + seq![':']) + number);
    }
}

/// In HTTP mode the port is mapped to itself, behind all that was asked for, exactly where
/// nothing that was asked for maps it.
pub proof fn law_the_port_is_added_where_it_is_missing(ports: Seq<Seq<char>>, port: u16)
    ensures
        (exists|i: int| 0 <= i < ports.len() && maps_port(#[trigger] ports[i], port))
            ==> with_port(ports, port) == ports,
        (forall|i: int| 0 <= i < ports.len() ==> !maps_port(#[trigger] ports[i], port))
            ==> with_port(ports, port) == ports.push(
            text::decimal(port as nat) + seq![':'] + text::decimal(port as nat),
        ),
{
    reveal_strlit(":");
    assert(":"@ =~= seq![':']);
}

/// A plan fails exactly where it must. Without a command there is nothing to run. With one, a
/// plan is made if and only if the server speaks over stdio or the network is not `none`: every
/// stdio server is planned, whatever the network, and an HTTP server without a network is
/// refused by its port.
pub proof fn law_a_plan_fails_exactly_where_it_must(args: cli::ArgsView, host: HostView)
    ensures
        ({
            let envs = assignments(exposed(args.expose_env, host.variables));
            let transport = transport::detected(args.command, envs);
            let r = planned(args, host);
            &&& args.command.len() == 0 <==> r == Err::<PlanView, RunError>(RunError::NoCommand)
            &&& args.command.len() > 0 ==> (r is Ok <==> transport == Transport::Stdio
                || args.network != Some("none"@))
            &&& args.command.len() > 0 && r is Err ==> (transport matches Transport::Http { port }
                && r == Err::<PlanView, RunError>(RunError::NoNetwork(port)))
        }),
{
}

/// A plan passes on what was asked for as it was: the network, the user mapping, the transport
/// that is detected, the variables that are exposed, and the ports, to which HTTP adds its own.
pub proof fn law_a_plan_passes_on_what_was_asked_for(args: cli::ArgsView, host: HostView)
    requires
        planned(args, host) is Ok,
    ensures
        ({
            let plan = planned(args, host)->Ok_0;
            let envs = assignments(exposed(args.expose_env, host.variables));
            &&& plan.network == args.network
            &&& plan.user_map == args.user_map
            &&& plan.envs == envs
            &&& plan.transport == transport::detected(args.command, envs)
            &&& args.ports.is_prefix_of(plan.ports)
            &&& plan.ports.len() <= args.ports.len() + 1
            &&& exposed_port(plan.transport) == match plan.transport {
                Transport::Http { port } => Some(port),
                Transport::Stdio => None,
            }
        }),
{
    let plan = planned(args, host)->Ok_0;
    match plan.transport {
        Transport::Http { port } => {
            law_http_port_is_mapped_once(args.ports, port);
        },
        Transport::Stdio => {
            assert(args.ports.take(args.ports.len() as int) =~= args.ports);
        },
    }
}

/// A configuration is the plan and the image, and nothing else.
pub proof fn law_a_plan_is_configured_as_it_is(plan: PlanView, image: Seq<char>)
    ensures
        ({
            let config = configured(plan, image);
            &&& config.image == image
            &&& config.workdir == plan.workdir
            &&& config.extra_mounts == plan.extra_mounts
            &&& config.envs == plan.envs
            &&& config.network == plan.network
            &&& config.ports == plan.ports
            &&& config.user_map == plan.user_map
        }),
{
}

/// The refusal of an HTTP server names its port, and is otherwise the same for all.
pub proof fn law_refusals_name_the_port(a: u16, b: u16)
    ensures
        container::differ_only_in(
            RunError::NoNetwork(a).text(),
            text::decimal(a as nat),
            RunError::NoNetwork(b).text(),
            text::decimal(b as nat),
        ),
{
    let front = "--network none is incompatible with HTTP transport (port "@;
    let back = ").\nRemove --network none or use --network bridge."@;
    assert(front + text::decimal(a as nat) + back == RunError::NoNetwork(a).text());
    assert(front + text::decimal(b as nat) + back == RunError::NoNetwork(b).text());
}

/// A run proceeds stage by stage: so long as each stage is done, its stages are these, in this
/// order, and a run that is dry turns to its report behind the Dockerfile.
pub proof fn law_a_run_proceeds_stage_by_stage(
    done: Seq<Outcome>,
    dry_run: bool,
    transport: Transport,
)
    requires
        forall|i: int| 0 <= i < done.len() ==> #[trigger] done[i] == Outcome::Done,
    ensures
        ({
            let stage = stage_after(done, dry_run, transport);
            let last = if transport == Transport::Stdio {
                Stage::Proxy
            } else {
                Stage::Await
            };
            let stages = if dry_run {
                seq![
                    Stage::Command,
                    Stage::Runner,
                    Stage::Plan,
                    Stage::Engine,
                    Stage::Dockerfile,
                    Stage::Report,
                    Stage::Finished(0),
                ]
            } else {
                seq![
                    Stage::Command,
                    Stage::Runner,
                    Stage::Plan,
                    Stage::Engine,
                    Stage::Dockerfile,
                    Stage::Image,
                    Stage::Launch,
                    last,
                ]
            };
            stage == if done.len() < stages.len() {
                stages[done.len() as int]
            } else {
                stages[stages.len() - 1]
            }
        }),
    decreases done.len(),
{
    if done.len() > 0 {
        let before = done.drop_last();
        assert forall|i: int| 0 <= i < before.len() implies #[trigger] before[i]
            == Outcome::Done by {
            assert(before[i] == done[i]);
        }
        law_a_run_proceeds_stage_by_stage(before, dry_run, transport);
        assert(done[done.len() - 1] == Outcome::Done);
    }
}

/// A container that ends, with whatever code, ends the run with that code; and no other stage is
/// moved by it.
pub proof fn law_an_exit_ends_the_run(
    stage: Stage,
    code: i32,
    dry_run: bool,
    transport: Transport,
)
    ensures
        staged(Stage::Proxy, Outcome::Exited(code), dry_run, transport) == Stage::Finished(code),
        staged(Stage::Await, Outcome::Exited(code), dry_run, transport) == Stage::Finished(code),
        stage != Stage::Proxy && stage != Stage::Await ==> staged(
            stage,
            Outcome::Exited(code),
            dry_run,
            transport,
        ) == stage,
        !(stage is Finished) ==> staged(stage, Outcome::Failed, dry_run, transport)
            == Stage::Failed,
{
}

/// Additional mounts and ports are reported in their order, one to a line: a mount by the path
/// that was asked for and its place in the container, a port as it is.
pub proof fn law_every_mount_and_port_is_reported(
    path: os_text::OsTextView,
    paths: Seq<os_text::OsTextView>,
    mount: mounts::MountView,
    list: Seq<mounts::MountView>,
    ports: Seq<Seq<char>>,
    port: Seq<char>,
)
    ensures
        mount_lines(seq![path] + paths, seq![mount] + list) == "Extra mount: "@ + path.text
            + " -> "@ + mount.container + seq!['\n'] + mount_lines(paths, list),
        mount_lines(Seq::empty(), list).len() == 0,
        port_lines(ports.push(port)) == port_lines(ports) + seq![' ', ' '] + port + seq!['\n'],
        port_lines(Seq::<Seq<char>>::empty()).len() == 0,
        port_section(ports).len() == 0 <==> ports.len() == 0,
        port_section(ports.push(port)) == "\n=== Port mappings ===\n"@ + port_lines(
            ports.push(port),
        ),
{
    reveal_strlit("\n");
    assert("\n"@ =~= seq!['\n']);
    reveal_strlit("  ");
    assert("  "@ =~= seq![' ', ' ']);
    reveal_strlit("\n=== Port mappings ===\n");
    assert((seq![path] + paths).skip(1) =~= paths);
    assert((seq![mount] + list).skip(1) =~= list);
    assert((seq![path] + paths)[0] == path);
    assert((seq![mount] + list)[0] == mount);
    assert(ports.push(port).drop_last() =~= ports);
}

/// A report shows everything, in this order and under these headings: the transport, the
/// Dockerfile, the working directory, the additional mounts, the ports, the network and the
/// command.
pub proof fn law_a_report_shows_everything(
    plan: PlanView,
    paths: Seq<os_text::OsTextView>,
    dockerfile: Seq<char>,
    command: Seq<char>,
)
    ensures
        report(plan, paths, dockerfile, command) == "=== Detected transport ===\n"@ + (
        match plan.transport {
            Transport::Stdio => "Stdio"@,
            Transport::Http { port } => "Http { port: "@ + text::decimal(port as nat) + " }"@,
        }) + "\n\n=== Generated Dockerfile ===\n"@ + dockerfile + "\n=== Workdir ===\n"@ + (
        match plan.workdir {
            Some(mount) => mount.host.text + " -> "@ + mount.container,
            None => "(none)"@,
        }) + "\n"@ + mount_lines(paths, plan.extra_mounts) + port_section(plan.ports)
            + "\n=== Network ===\n"@ + (match plan.network {
            Some(network) => network,
            None => "(engine default)"@,
        }) + "\n\n=== Container command ===\n"@ + command + "\n"@,
{
}

/// A run that is over stays so. Whether a run is dry matters only behind the Dockerfile, and how
/// its server speaks only behind the launch.
pub proof fn law_what_a_stage_depends_on(
    stage: Stage,
    outcome: Outcome,
    dry_run: bool,
    transport: Transport,
    other_dry_run: bool,
    other_transport: Transport,
)
    ensures
        stage is Finished || stage == Stage::Failed ==> staged(stage, outcome, dry_run, transport)
            == stage,
        stage != Stage::Dockerfile && stage != Stage::Launch ==> staged(
            stage,
            outcome,
            dry_run,
            transport,
        ) == staged(stage, outcome, other_dry_run, other_transport),
        stage != Stage::Launch ==> staged(stage, outcome, dry_run, transport) == staged(
            stage,
            outcome,
            dry_run,
            other_transport,
        ),
        stage != Stage::Dockerfile ==> staged(stage, outcome, dry_run, transport) == staged(
            stage,
            outcome,
            other_dry_run,
            transport,
        ),
{
}

} // verus!
