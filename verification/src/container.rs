//! The container engine: which one is used, when an image is built, and how a container runs.

use crate::mounts;
use crate::mounts::BindMount;
use crate::os_text;
use crate::os_text::OsText;
use crate::packages;
use crate::packages::{canonicalize, parse_label_value, PACKAGES_LABEL_KEY};
use crate::platform;
use crate::platform::{current_group, current_user, text_of_bytes};
use crate::text;
use crate::text::{chars_of, decimal_text, push_text, same, starts_with, strip_prefix, trim};
use vstd::prelude::*;

verus! {

/// Detected container engine with its binary path.
#[derive(Debug, Clone)]
pub struct Engine {
    pub name: String,
    pub path: String,
    pub is_podman: bool,
}

/// What an [`Engine`] is about.
pub struct EngineView {
    pub name: Seq<char>,
    pub path: Seq<char>,
    pub is_podman: bool,
}

impl DeepView for Engine {
    type V = EngineView;

    open spec fn deep_view(&self) -> EngineView {
        EngineView { name: self.name@, path: self.path@, is_podman: self.is_podman }
    }
}

/// What a lookup of a program in the search path gave.
#[derive(Debug)]
pub enum Lookup {
    /// The lookup itself could not be run.
    Failed,
    /// There is no such program.
    NotFound,
    /// The program was found: what the lookup printed.
    Found(Vec<u8>),
}

/// Why there is no engine, or no image.
#[derive(Debug)]
pub enum EngineError {
    /// The lookup of a program could not be run.
    LookupFailed(String),
    /// A program is not in the search path.
    NotFound(String),
    /// Neither of the known engines is there.
    NoEngine,
    /// An image could not be inspected.
    InspectFailed(String),
    /// What the inspection of an image printed could not be read.
    InspectUnreadable(String),
    /// The build of an image failed: what it printed.
    BuildFailed(String),
}

/// What an [`EngineError`] is about.
pub enum EngineErrorView {
    LookupFailed(Seq<char>),
    NotFound(Seq<char>),
    NoEngine,
    InspectFailed(Seq<char>),
    InspectUnreadable(Seq<char>),
    BuildFailed(Seq<char>),
}

impl DeepView for EngineError {
    type V = EngineErrorView;

    open spec fn deep_view(&self) -> EngineErrorView {
        match self {
            EngineError::LookupFailed(name) => EngineErrorView::LookupFailed(name@),
            EngineError::NotFound(name) => EngineErrorView::NotFound(name@),
            EngineError::NoEngine => EngineErrorView::NoEngine,
            EngineError::InspectFailed(tag) => EngineErrorView::InspectFailed(tag@),
            EngineError::InspectUnreadable(tag) => EngineErrorView::InspectUnreadable(tag@),
            EngineError::BuildFailed(output) => EngineErrorView::BuildFailed(output@),
        }
    }
}

impl EngineErrorView {
    /// The message that an error shows.
    pub open spec fn message(self) -> Seq<char> {
        match self {
            EngineErrorView::LookupFailed(name) => "Failed to look up `"@ + name + "`"@,
            EngineErrorView::NotFound(name) => "`"@ + name + "` not found in PATH"@,
            EngineErrorView::NoEngine =>
                "No container engine found. Install podman or docker.\nSee: https://podman.io/getting-started/installation"@,
            EngineErrorView::InspectFailed(tag) => "Failed to inspect image `"@ + tag + "`"@,
            EngineErrorView::InspectUnreadable(tag) => "Failed to parse inspect output for `"@ + tag
                + "`"@,
            EngineErrorView::BuildFailed(output) => "Container image build failed:\n"@ + output,
        }
    }
}

impl EngineError {
    /// The message that the error shows.
    pub fn message(&self) -> (r: String)
        ensures
            r@ == self.deep_view().message(),
    {
        match self {
            EngineError::LookupFailed(name) => "Failed to look up `".to_owned().concat(
                name.as_str(),
            ).concat("`"),
            EngineError::NotFound(name) => "`".to_owned().concat(name.as_str()).concat(
                "` not found in PATH",
            ),
            EngineError::NoEngine =>
                "No container engine found. Install podman or docker.\nSee: https://podman.io/getting-started/installation".to_owned(),
            EngineError::InspectFailed(tag) => "Failed to inspect image `".to_owned().concat(
                tag.as_str(),
            ).concat("`"),
            EngineError::InspectUnreadable(tag) =>
                "Failed to parse inspect output for `".to_owned().concat(tag.as_str()).concat("`"),
            EngineError::BuildFailed(output) => "Container image build failed:\n".to_owned().concat(
                output.as_str(),
            ),
        }
    }
}

/// What is to be done next to find an engine.
#[derive(Debug)]
pub enum Detection {
    /// A program is to be looked up.
    LookUp(String),
    /// The engine is found.
    Found(Engine),
    /// There is none.
    Failed(EngineError),
}

/// What a [`Detection`] is about.
pub enum DetectionView {
    LookUp(Seq<char>),
    Found(EngineView),
    Failed(EngineErrorView),
}

impl DeepView for Detection {
    type V = DetectionView;

    open spec fn deep_view(&self) -> DetectionView {
        match self {
            Detection::LookUp(name) => DetectionView::LookUp(name@),
            Detection::Found(engine) => DetectionView::Found(engine.deep_view()),
            Detection::Failed(error) => DetectionView::Failed(error.deep_view()),
        }
    }
}

/// The engine of some name, at the path that its lookup printed.
pub open spec fn located(name: Seq<char>, output: Seq<char>) -> EngineView {
    EngineView { name, path: text::trimmed(output), is_podman: name == "podman"@ }
}

/// What the lookup of an engine comes to.
pub open spec fn looked_up(name: Seq<char>, lookup: Lookup) -> Result<EngineView, EngineErrorView> {
    match lookup {
        Lookup::Failed => Err(EngineErrorView::LookupFailed(name)),
        Lookup::NotFound => Err(EngineErrorView::NotFound(name)),
        Lookup::Found(output) => Ok(located(name, platform::lossy_text(output@))),
    }
}

/// What is to be done next to find an engine, after some lookups: the preferred engine is the
/// only one looked for, and without one podman comes before docker.
pub open spec fn detection(preferred: Option<Seq<char>>, lookups: Seq<Lookup>) -> DetectionView {
    match preferred {
        Some(name) => if lookups.len() == 0 {
            DetectionView::LookUp(name)
        } else {
            match looked_up(name, lookups[0]) {
                Ok(engine) => DetectionView::Found(engine),
                Err(error) => DetectionView::Failed(error),
            }
        },
        None => if lookups.len() == 0 {
            DetectionView::LookUp("podman"@)
        } else if lookups[0] is Found {
            DetectionView::Found(looked_up("podman"@, lookups[0])->Ok_0)
        } else if lookups.len() == 1 {
            DetectionView::LookUp("docker"@)
        } else if lookups[1] is Found {
            DetectionView::Found(looked_up("docker"@, lookups[1])->Ok_0)
        } else {
            DetectionView::Failed(EngineErrorView::NoEngine)
        },
    }
}

impl Engine {
    /// The engine of some name, at the path that its lookup printed.
    pub fn located(name: &str, output: &str) -> (r: Engine)
        ensures
            r.deep_view() == located(name@, output@),
    {
        Engine {
            name: name.to_owned(),
            path: trim(output).to_owned(),
            is_podman: same(name, "podman"),
        }
    }

    /// What the lookup of an engine comes to.
    pub fn find(name: &str, lookup: &Lookup) -> (r: Result<Engine, EngineError>)
        ensures
            match looked_up(name@, *lookup) {
                Ok(engine) => r matches Ok(found) && found.deep_view() == engine,
                Err(error) => r matches Err(failure) && failure.deep_view() == error,
            },
    {
        match lookup {
            Lookup::Failed => Err(EngineError::LookupFailed(name.to_owned())),
            Lookup::NotFound => Err(EngineError::NotFound(name.to_owned())),
            Lookup::Found(output) => {
                let text = text_of_bytes(output.as_slice());
                Ok(Engine::located(name, text.as_str()))
            },
        }
    }

    /// Auto-detect the container engine, preferring podman.
    ///
    /// `lookups` holds what the lookups that were asked for so far gave, in order.
    pub fn detect(preferred: Option<&str>, lookups: &Vec<Lookup>) -> (r: Detection)
        ensures
            r.deep_view() == detection(preferred.deep_view(), lookups@),
    {
        if let Some(name) = preferred {
            if lookups.len() == 0 {
                return Detection::LookUp(name.to_owned());
            }
            return match Engine::find(name, &lookups[0]) {
                Ok(engine) => Detection::Found(engine),
                Err(error) => Detection::Failed(error),
            };
        }
        // Prefer podman for rootless-by-default safety

        if lookups.len() == 0 {
            return Detection::LookUp("podman".to_owned());
        }
        if let Ok(engine) = Engine::find("podman", &lookups[0]) {
            return Detection::Found(engine);
        }
        if lookups.len() == 1 {
            return Detection::LookUp("docker".to_owned());
        }
        if let Ok(engine) = Engine::find("docker", &lookups[1]) {
            return Detection::Found(engine);
        }
        Detection::Failed(EngineError::NoEngine)
    }
}

/// A name as it may stand in an image tag: without a leading `@`, with a dash in place of
/// anything but letters, digits and dashes, in lower case.
pub open spec fn tag_name(package: Seq<char>) -> Seq<char> {
    let name = match text::without_prefix(package, "@"@) {
        Some(rest) => rest,
        None => package,
    };
    platform::lowercase(dashed(name))
}

/// A text with a dash in place of anything but letters, digits and dashes.
pub open spec fn dashed(name: Seq<char>) -> Seq<char> {
    name.map_values(
        |c: char|
            if platform::is_alphanumeric_char(c) {
                c
            } else {
                '-'
            },
    )
}

/// Where the first argument that is no option stands in a command, from some place on, or a
/// place past its end where there is none.
pub open spec fn operand_at(command: Seq<Seq<char>>, from: int) -> int
    decreases command.len() - from,
{
    if from < command.len() && "-"@.is_prefix_of(command[from]) {
        operand_at(command, from + 1)
    } else {
        from
    }
}

/// The package that a command runs: its first operand, or the one behind `run` for pipx.
pub open spec fn package_of(command: Seq<Seq<char>>) -> Option<Seq<char>> {
    let first = operand_at(command, 1);
    let place = if first < command.len() && command[0] == "pipx"@ && command[first] == "run"@ {
        operand_at(command, first + 1)
    } else {
        first
    };
    if place < command.len() {
        Some(command[place])
    } else {
        None
    }
}

/// The tag of the image of a command.
pub open spec fn tag_of(command: Seq<Seq<char>>) -> Seq<char> {
    let name = match package_of(command) {
        Some(package) => tag_name(package),
        None => "mcp"@,
    };
    "domcp/"@ + name + ":latest"@
}

/// Puts a dash in place of anything but letters, digits and dashes.
pub fn dash_out(name: &str) -> (r: String)
    ensures
        r@ == dashed(name@),
{
    let chars = chars_of(name);
    let mut out = String::new();
    for i in 0..chars.len()
        invariant
            chars@ == name@,
            out@ == dashed(name@).take(i as int),
    {
        let c = chars[i];
        if !c.is_alphanumeric() && c != '-' {
            out.push('-');
        } else {
            out.push(c);
        }
        assert(out@ =~= dashed(name@).take(i + 1));
    }
    assert(dashed(name@).take(chars.len() as int) =~= dashed(name@));
    out
}

/// Where the first argument that is no option stands, from some place on.
fn find_operand(command: &[String], from: usize) -> (r: usize)
    ensures
        r == operand_at(command.deep_view(), from as int),
        r >= from,
{
    let ghost args = command.deep_view();
    let mut i: usize = from;
    while i < command.len() && starts_with(command[i].as_str(), "-")
        invariant
            args == command.deep_view(),
            from <= i,
            operand_at(args, from as int) == operand_at(args, i as int),
        decreases command.len() - i,
    {
        assert(args[i as int] == command[i as int]@);
        i = i + 1;
    }
    assert(i < command.len() ==> args[i as int] == command[i as int]@);
    i
}

/// Generate an image tag from the command.
///
/// Uses the package name as a human-readable prefix with a `latest` tag.
pub fn image_tag(command: &[String]) -> (r: String)
    ensures
        r@ == tag_of(command.deep_view()),
{
    let ghost args = command.deep_view();
    let first = find_operand(command, 1);
    let place: usize = if first < command.len() && same(command[0].as_str(), "pipx") && same(
        command[first].as_str(),
        "run",
    ) {
        find_operand(command, first + 1)
    } else {
        first
    };
    assert(first < command.len() ==> args[0] == command[0]@ && args[first as int]
        == command[first as int]@);
    let name = if place < command.len() {
        let package = command[place].as_str();
        assert(args[place as int] == package@);
        let rest = match strip_prefix(package, "@") {
            Some(rest) => rest,
            None => package,
        };
        let clean = dash_out(rest);
        clean.as_str().to_lowercase()
    } else {
        "mcp".to_owned()
    };
    "domcp/".to_owned().concat(name.as_str()).concat(":latest")
}

/// What an engine says of an image's packages.
#[derive(Debug)]
pub enum ImagePackageState {
    /// There is no such image.
    NotFound,
    /// The image does not say which packages it has.
    Missing,
    /// The packages that the image has.
    Present(Vec<String>),
}

/// What an [`ImagePackageState`] is about.
pub enum ImageStateView {
    NotFound,
    Missing,
    Present(Seq<Seq<char>>),
}

impl DeepView for ImagePackageState {
    type V = ImageStateView;

    open spec fn deep_view(&self) -> ImageStateView {
        match self {
            ImagePackageState::NotFound => ImageStateView::NotFound,
            ImagePackageState::Missing => ImageStateView::Missing,
            ImagePackageState::Present(packages) => ImageStateView::Present(packages.deep_view()),
        }
    }
}

/// One image in the output of an inspection.
#[derive(Debug)]
pub struct InspectRecord {
    pub config: InspectConfig,
}

/// The configuration of an inspected image: its labels, names and values.
#[derive(Debug)]
pub struct InspectConfig {
    pub labels: Option<Vec<(String, String)>>,
}

impl DeepView for InspectRecord {
    type V = Option<Seq<(Seq<char>, Seq<char>)>>;

    open spec fn deep_view(&self) -> Option<Seq<(Seq<char>, Seq<char>)>> {
        self.config.labels.deep_view()
    }
}

/// What the inspection of an image gave.
#[derive(Debug)]
pub enum Inspection {
    /// The inspection itself could not be run.
    Failed,
    /// The engine knows no such image.
    Absent,
    /// What was printed could not be read.
    Unreadable,
    /// The records that were printed.
    Records(Vec<InspectRecord>),
}

/// The value of a label. Of two labels with one name the later counts.
pub open spec fn label_named(
    labels: Seq<(Seq<char>, Seq<char>)>,
    name: Seq<char>,
) -> Option<Seq<char>>
    decreases labels.len(),
{
    if labels.len() == 0 {
        None
    } else if labels.last().0 == name {
        Some(labels.last().1)
    } else {
        label_named(labels.drop_last(), name)
    }
}

/// The packages of an image by the records of its inspection, of which the first counts.
pub open spec fn recorded_state(
    records: Seq<Option<Seq<(Seq<char>, Seq<char>)>>>,
) -> ImageStateView {
    if records.len() == 0 {
        ImageStateView::NotFound
    } else {
        match records[0] {
            None => ImageStateView::Missing,
            Some(labels) => match label_named(labels, PACKAGES_LABEL_KEY@) {
                None => ImageStateView::Missing,
                Some(value) => ImageStateView::Present(packages::label_packages(value)),
            },
        }
    }
}

/// What the inspection of an image comes to.
pub open spec fn inspected(
    tag: Seq<char>,
    inspection: Inspection,
) -> Result<ImageStateView, EngineErrorView> {
    match inspection {
        Inspection::Failed => Err(EngineErrorView::InspectFailed(tag)),
        Inspection::Absent => Ok(ImageStateView::NotFound),
        Inspection::Unreadable => Err(EngineErrorView::InspectUnreadable(tag)),
        Inspection::Records(records) => Ok(recorded_state(records.deep_view())),
    }
}

/// The value of a label.
fn find_label<'a>(labels: &'a Vec<(String, String)>, name: &str) -> (r: Option<&'a str>)
    ensures
        r.deep_view() == label_named(labels.deep_view(), name@),
{
    let ghost all = labels.deep_view();
    let mut i: usize = labels.len();
    assert(all.take(i as int) =~= all);
    while i > 0
        invariant
            all == labels.deep_view(),
            i <= labels.len(),
            label_named(all.take(i as int), name@) == label_named(all, name@),
        decreases i,
    {
        i = i - 1;
        let ghost front = all.take(i + 1);
        assert(front.last() == (labels[i as int].0@, labels[i as int].1@));
        assert(front.drop_last() =~= all.take(i as int));
        if same(labels[i].0.as_str(), name) {
            return Some(labels[i].1.as_str());
        }
    }
    None
}

/// Whether two lists hold the same texts in the same order.
fn same_list(a: &Vec<String>, b: &Vec<String>) -> (r: bool)
    ensures
        r == (a.deep_view() == b.deep_view()),
{
    let ghost x = a.deep_view();
    let ghost y = b.deep_view();
    if a.len() != b.len() {
        assert(x.len() != y.len());
        return false;
    }
    for i in 0..a.len()
        invariant
            x == a.deep_view(),
            y == b.deep_view(),
            a.len() == b.len(),
            forall|j: int| 0 <= j < i ==> x[j] == y[j],
    {
        assert(x[i as int] == a[i as int]@);
        assert(y[i as int] == b[i as int]@);
        if !same(a[i].as_str(), b[i].as_str()) {
            return false;
        }
    }
    assert(x =~= y);
    true
}

/// Whether an image has to be built to have some packages.
pub open spec fn needs_build(state: ImageStateView, requested: Seq<Seq<char>>) -> bool {
    match state {
        ImageStateView::NotFound => true,
        ImageStateView::Missing => requested.len() > 0,
        ImageStateView::Present(existing) => existing != requested,
    }
}

impl ImagePackageState {
    /// Whether an image has to be built to have some packages.
    pub fn needs_build(&self, requested: &Vec<String>) -> (r: bool)
        ensures
            r == needs_build(self.deep_view(), requested.deep_view()),
    {
        match self {
            ImagePackageState::NotFound => true,
            ImagePackageState::Missing => requested.len() > 0,
            ImagePackageState::Present(existing) => !same_list(existing, requested),
        }
    }
}

/// What is to be done next to have the image of a command. Each holds the tag of the image.
#[derive(Debug)]
pub enum BuildStep {
    /// The image is to be inspected.
    Inspect(String),
    /// The image is there and is used as it is.
    Reuse(String),
    /// The image is to be built.
    Build(String),
}

/// What a [`BuildStep`] is about.
pub enum BuildStepView {
    Inspect(Seq<char>),
    Reuse(Seq<char>),
    Build(Seq<char>),
}

impl DeepView for BuildStep {
    type V = BuildStepView;

    open spec fn deep_view(&self) -> BuildStepView {
        match self {
            BuildStep::Inspect(tag) => BuildStepView::Inspect(tag@),
            BuildStep::Reuse(tag) => BuildStepView::Reuse(tag@),
            BuildStep::Build(tag) => BuildStepView::Build(tag@),
        }
    }
}

/// What is to be done next to have the image of a command with some packages, where `state`
/// is what its inspection came to, once it was inspected.
pub open spec fn build_step(
    command: Seq<Seq<char>>,
    packages: Seq<Seq<char>>,
    force_rebuild: bool,
    state: Option<ImageStateView>,
) -> BuildStepView {
    let tag = tag_of(command);
    if force_rebuild {
        BuildStepView::Build(tag)
    } else {
        match state {
            None => BuildStepView::Inspect(tag),
            Some(state) => if needs_build(state, packages::canonical(packages)) {
                BuildStepView::Build(tag)
            } else {
                BuildStepView::Reuse(tag)
            },
        }
    }
}

/// The arguments with which an engine inspects an image.
pub open spec fn inspect_command(tag: Seq<char>) -> Seq<Seq<char>> {
    seq!["image"@, "inspect"@, tag]
}

/// The arguments with which an engine builds an image.
pub open spec fn build_command(
    dockerfile: os_text::OsTextView,
    tag: Seq<char>,
) -> Seq<os_text::OsTextView> {
    seq![
        os_text::unicode("build"@),
        os_text::unicode("-f"@),
        dockerfile,
        os_text::unicode("-t"@),
        os_text::unicode(tag),
        os_text::unicode("."@),
    ]
}

/// Appends an option and its value to a list.
fn push_option(list: &mut Vec<String>, option: &str, value: &str)
    ensures
        final(list).deep_view() == old(list).deep_view() + seq![option@, value@],
{
    push_text(list, option);
    push_text(list, value);
    assert(list.deep_view() =~= old(list).deep_view() + seq![option@, value@]);
}

impl Engine {
    /// What is to be done next to have the image of a command with some packages.
    ///
    /// `state` is what the inspection of the image came to, once it was inspected.
    pub fn build_image(
        command: &[String],
        packages: &[String],
        force_rebuild: bool,
        state: Option<&ImagePackageState>,
    ) -> (r: BuildStep)
        ensures
            r.deep_view() == build_step(
                command.deep_view(),
                packages.deep_view(),
                force_rebuild,
                state.deep_view(),
            ),
    {
        let tag = image_tag(command);
        if force_rebuild {
            return BuildStep::Build(tag);
        }
        match state {
            None => BuildStep::Inspect(tag),
            Some(state) => {
                let requested = canonicalize(packages);
                if state.needs_build(&requested) {
                    BuildStep::Build(tag)
                } else {
                    BuildStep::Reuse(tag)
                }
            },
        }
    }

    /// The arguments with which the engine inspects an image.
    pub fn inspect_args(tag: &str) -> (r: Vec<String>)
        ensures
            r.deep_view() == inspect_command(tag@),
    {
        let mut args: Vec<String> = Vec::new();
        push_text(&mut args, "image");
        push_text(&mut args, "inspect");
        push_text(&mut args, tag);
        assert(args.deep_view() =~= inspect_command(tag@));
        args
    }

    /// The arguments with which the engine builds an image from a Dockerfile.
    pub fn build_args(dockerfile: &OsText, tag: &str) -> (r: Vec<OsText>)
        ensures
            r.deep_view() == build_command(dockerfile.deep_view(), tag@),
    {
        let mut args: Vec<OsText> = Vec::new();
        args.push(OsText::of("build"));
        args.push(OsText::of("-f"));
        args.push(dockerfile.copy());
        args.push(OsText::of("-t"));
        args.push(OsText::of(tag));
        args.push(OsText::of("."));
        assert(args.deep_view() =~= build_command(dockerfile.deep_view(), tag@));
        args
    }

    /// What the build of an image comes to: its tag, or what went to its standard error.
    pub fn build_result(tag: String, success: bool, stderr: &[u8]) -> (r: Result<
        String,
        EngineError,
    >)
        ensures
            success ==> (r matches Ok(built) && built@ == tag@),
            !success ==> (r matches Err(error) && error.deep_view()
                == EngineErrorView::BuildFailed(platform::lossy_text(stderr@))),
    {
        if success {
            Ok(tag)
        } else {
            Err(EngineError::BuildFailed(text_of_bytes(stderr)))
        }
    }

    /// The packages of an image by what its inspection gave.
    pub fn image_package_state(tag: &str, inspection: &Inspection) -> (r: Result<
        ImagePackageState,
        EngineError,
    >)
        ensures
            match inspected(tag@, *inspection) {
                Ok(state) => r matches Ok(found) && found.deep_view() == state,
                Err(error) => r matches Err(failure) && failure.deep_view() == error,
            },
    {
        let records = match inspection {
            Inspection::Failed => {
                return Err(EngineError::InspectFailed(tag.to_owned()));
            },
            Inspection::Absent => {
                return Ok(ImagePackageState::NotFound);
            },
            Inspection::Unreadable => {
                return Err(EngineError::InspectUnreadable(tag.to_owned()));
            },
            Inspection::Records(records) => records,
        };
        if records.len() == 0 {
            return Ok(ImagePackageState::NotFound);
        }
        assert(records.deep_view()[0] == records[0].deep_view());
        match &records[0].config.labels {
            None => Ok(ImagePackageState::Missing),
            Some(labels) => match find_label(labels, PACKAGES_LABEL_KEY) {
                None => Ok(ImagePackageState::Missing),
                Some(value) => match parse_label_value(value) {
                    Some(parsed) => Ok(ImagePackageState::Present(parsed)),
                    None => Ok(ImagePackageState::Missing),
                },
            },
        }
    }
}

/// Configuration for running a container.
#[derive(Debug)]
pub struct RunConfig {
    pub image: String,
    pub workdir: Option<BindMount>,
    pub extra_mounts: Vec<BindMount>,
    pub envs: Vec<String>,
    pub network: Option<String>,
    pub ports: Vec<String>,
    pub user_map: bool,
}

/// What a [`RunConfig`] is about.
pub struct RunConfigView {
    pub image: Seq<char>,
    pub workdir: Option<mounts::MountView>,
    pub extra_mounts: Seq<mounts::MountView>,
    pub envs: Seq<Seq<char>>,
    pub network: Option<Seq<char>>,
    pub ports: Seq<Seq<char>>,
    pub user_map: bool,
}

impl DeepView for RunConfig {
    type V = RunConfigView;

    open spec fn deep_view(&self) -> RunConfigView {
        RunConfigView {
            image: self.image@,
            workdir: self.workdir.deep_view(),
            extra_mounts: self.extra_mounts.deep_view(),
            envs: self.envs.deep_view(),
            network: self.network.deep_view(),
            ports: self.ports.deep_view(),
            user_map: self.user_map,
        }
    }
}

/// An option repeated with each of some values.
pub open spec fn repeated(option: Seq<char>, values: Seq<Seq<char>>) -> Seq<Seq<char>>
    decreases values.len(),
{
    if values.len() == 0 {
        Seq::empty()
    } else {
        repeated(option, values.drop_last()) + seq![option, values.last()]
    }
}

/// A mount as an engine takes it. For podman it carries a label of its own.
pub open spec fn mount_text(mount: mounts::MountView, podman: bool) -> Seq<char> {
    mount.host.text + ":"@ + mount.container + if podman {
        ":Z"@
    } else {
        ""@
    }
}

/// Mounts as an engine takes them.
pub open spec fn mount_texts(list: Seq<mounts::MountView>, podman: bool) -> Seq<Seq<char>> {
    list.map_values(|mount: mounts::MountView| mount_text(mount, podman))
}

/// The options for the network, if one is asked for.
pub open spec fn network_options(config: RunConfigView) -> Seq<Seq<char>> {
    match config.network {
        Some(network) => seq!["--network"@, network],
        None => Seq::empty(),
    }
}

/// The options for the working directory: its mount, and that the container starts there.
pub open spec fn workdir_options(config: RunConfigView, podman: bool) -> Seq<Seq<char>> {
    match config.workdir {
        Some(mount) => seq!["-v"@, mount_text(mount, podman), "-w"@, mount.container],
        None => Seq::empty(),
    }
}

/// The options for the user that the container runs as.
pub open spec fn user_options(
    config: RunConfigView,
    podman: bool,
    uid: u32,
    gid: u32,
) -> Seq<Seq<char>> {
    if !config.user_map {
        Seq::empty()
    } else if podman {
        seq!["--userns=keep-id"@]
    } else {
        seq!["--user"@, text::decimal(uid as nat) + ":"@ + text::decimal(gid as nat)]
    }
}

/// The arguments with which an engine runs a container.
pub open spec fn run_command(
    config: RunConfigView,
    podman: bool,
    uid: u32,
    gid: u32,
) -> Seq<Seq<char>> {
    seq!["run"@, "-i"@, "--rm"@] + network_options(config) + workdir_options(config, podman)
        + repeated("-v"@, mount_texts(config.extra_mounts, podman)) + user_options(
        config,
        podman,
        uid,
        gid,
    ) + repeated("-p"@, config.ports) + repeated("-e"@, config.envs) + seq![
        "--hostname"@,
        "domcp"@,
        config.image,
    ]
}

/// Appends an option with each of some values to a list.
fn push_repeated(list: &mut Vec<String>, option: &str, values: &Vec<String>)
    ensures
        final(list).deep_view() == old(list).deep_view() + repeated(option@, values.deep_view()),
{
    let ghost before = list.deep_view();
    let ghost all = values.deep_view();
    assert(before + repeated(option@, all.take(0)) =~= before);
    for i in 0..values.len()
        invariant
            all == values.deep_view(),
            list.deep_view() == before + repeated(option@, all.take(i as int)),
    {
        push_option(list, option, values[i].as_str());
        assert(all.take(i + 1).drop_last() =~= all.take(i as int));
        assert(all.take(i + 1).last() == values[i as int]@);
        assert(list.deep_view() =~= before + repeated(option@, all.take(i + 1)));
    }
    assert(all.take(values.len() as int) =~= all);
}

impl Engine {
    /// A mount as the engine takes it.
    fn mount_arg(&self, mount: &BindMount) -> (r: String)
        ensures
            r@ == mount_text(mount.deep_view(), self.is_podman),
    {
        let spec = mount.host.text.clone().concat(":").concat(mount.container.as_str());
        if self.is_podman {
            spec.concat(":Z")
        } else {
            spec.concat("")
        }
    }

    /// The arguments with which the engine runs a container as some user.
    pub fn run_container_as(&self, config: &RunConfig, uid: u32, gid: u32) -> (r: Vec<String>)
        ensures
            r.deep_view() == run_command(config.deep_view(), self.is_podman, uid, gid),
    {
        let ghost view = config.deep_view();
        let ghost podman = self.is_podman;
        let mut args: Vec<String> = Vec::new();
        push_text(&mut args, "run");
        // Always interactive with stdin attached for stdio-based MCP
        push_text(&mut args, "-i");
        // Remove container after exit
        push_text(&mut args, "--rm");
        let ghost mut expected = seq!["run"@, "-i"@, "--rm"@];
        assert(args.deep_view() =~= expected);

        // Network mode (only passed if explicitly requested)
        if let Some(network) = &config.network {
            push_option(&mut args, "--network", network.as_str());
        }
        proof {
            expected = expected + network_options(view);
            assert(args.deep_view() =~= expected);
        }

        // Mount the working directory and start there
        if let Some(mount) = &config.workdir {
            let arg = self.mount_arg(mount);
            push_option(&mut args, "-v", arg.as_str());
            push_option(&mut args, "-w", mount.container.as_str());
        }
        proof {
            expected = expected + workdir_options(view, podman);
            assert(args.deep_view() =~= expected);
        }

        // Extra mounts
        let mut extra: Vec<String> = Vec::new();
        for i in 0..config.extra_mounts.len()
            invariant
                podman == self.is_podman,
                extra.len() == i,
                forall|j: int|
                    0 <= j < i ==> (#[trigger] extra[j])@ == mount_text(
                        config.extra_mounts[j].deep_view(),
                        podman,
                    ),
        {
            extra.push(self.mount_arg(&config.extra_mounts[i]));
        }
        assert(extra.deep_view() =~= mount_texts(view.extra_mounts, podman));
        push_repeated(&mut args, "-v", &extra);
        proof {
            expected = expected + repeated("-v"@, mount_texts(view.extra_mounts, podman));
        }

        // User mapping for rootless safety
        if config.user_map {
            if self.is_podman {
                push_text(&mut args, "--userns=keep-id");
            } else {
                let user = decimal_text(uid).concat(":").concat(decimal_text(gid).as_str());
                push_option(&mut args, "--user", user.as_str());
            }
        }
        proof {
            expected = expected + user_options(view, podman, uid, gid);
            assert(args.deep_view() =~= expected);
        }

        push_repeated(&mut args, "-p", &config.ports);
        push_repeated(&mut args, "-e", &config.envs);
        let ghost options = args.deep_view();
        // Set hostname for easy identification
        push_option(&mut args, "--hostname", "domcp");
        // Image and no extra command: the entrypoint is baked in
        push_text(&mut args, config.image.as_str());
        assert(args.deep_view() =~= options + seq!["--hostname"@, "domcp"@, view.image]);
        args
    }

    /// The arguments with which the engine runs a container as the user that runs this process.
    pub fn run_container(&self, config: &RunConfig) -> (r: Vec<String>)
        ensures
            config.user_map && !self.is_podman ==> exists|uid: u32, gid: u32|
                platform::is_user_id(uid) && platform::is_group_id(gid) && r.deep_view()
                    == #[trigger] run_command(config.deep_view(), self.is_podman, uid, gid),
            !config.user_map || self.is_podman ==> r.deep_view() == run_command(
                config.deep_view(),
                self.is_podman,
                0,
                0,
            ),
    {
        if config.user_map && !self.is_podman {
            self.run_container_as(config, current_user(), current_group())
        } else {
            self.run_container_as(config, 0, 0)
        }
    }
}

/// Podman is preferred: where it is found, docker is not even looked for.
pub proof fn law_podman_comes_first(lookups: Seq<Lookup>)
    ensures
        detection(None, lookups) matches DetectionView::LookUp(name) ==> (name == "podman"@
            && lookups.len() == 0) || (name == "docker"@ && lookups.len() == 1 && !(
        lookups[0] is Found)),
        lookups.len() > 0 && lookups[0] is Found ==> (detection(None, lookups) matches
            DetectionView::Found(engine) && engine.name == "podman"@ && engine.is_podman),
{
}

/// An engine that is asked for by name is the only one looked for, and the only one found.
pub proof fn law_named_engine_is_the_only_one(name: Seq<char>, lookups: Seq<Lookup>)
    ensures
        detection(Some(name), lookups) matches DetectionView::LookUp(wanted) ==> wanted == name,
        detection(Some(name), lookups) matches DetectionView::Found(engine) ==> engine.name == name,
{
}

/// The search for an engine ends after two lookups at most.
pub proof fn law_search_for_an_engine_ends(preferred: Option<Seq<char>>, lookups: Seq<Lookup>)
    requires
        lookups.len() >= 2,
    ensures
        !(detection(preferred, lookups) is LookUp),
{
}

/// An engine counts as podman exactly where that is its name.
pub proof fn law_podman_is_known_by_name(preferred: Option<Seq<char>>, lookups: Seq<Lookup>)
    ensures
        detection(preferred, lookups) matches DetectionView::Found(engine) ==> engine.is_podman == (
        engine.name == "podman"@),
{
    reveal_strlit("podman");
    reveal_strlit("docker");
    assert("podman"@[0] != "docker"@[0]);
}

/// An image is used again: where it was built for some packages and is labelled with them, a
/// request for the same packages, in any order and spacing and however often named, needs no
/// build. No name may hold a comma.
pub proof fn law_image_is_used_again(
    command: Seq<Seq<char>>,
    built: Seq<Seq<char>>,
    requested: Seq<Seq<char>>,
    labels: Seq<(Seq<char>, Seq<char>)>,
)
    requires
        forall|i: int| 0 <= i < built.len() ==> !text::trimmed(#[trigger] built[i]).contains(','),
        forall|name: Seq<char>|
            packages::is_requested(built, name) <==> packages::is_requested(requested, name),
        label_named(labels, PACKAGES_LABEL_KEY@) == Some(packages::label(built)),
    ensures
        build_step(command, requested, false, Some(recorded_state(seq![Some(labels)])))
            == BuildStepView::Reuse(tag_of(command)),
{
    packages::law_label_gives_packages_back(built);
    packages::law_canonical_by_names(built, requested);
}

/// An image that has other packages than those asked for is built anew.
pub proof fn law_other_packages_need_a_build(
    command: Seq<Seq<char>>,
    built: Seq<Seq<char>>,
    requested: Seq<Seq<char>>,
    labels: Seq<(Seq<char>, Seq<char>)>,
    name: Seq<char>,
)
    requires
        forall|i: int| 0 <= i < built.len() ==> !text::trimmed(#[trigger] built[i]).contains(','),
        packages::is_requested(built, name) != packages::is_requested(requested, name),
        label_named(labels, PACKAGES_LABEL_KEY@) == Some(packages::label(built)),
    ensures
        build_step(command, requested, false, Some(recorded_state(seq![Some(labels)])))
            == BuildStepView::Build(tag_of(command)),
{
    packages::law_label_gives_packages_back(built);
    packages::lemma_canonical_exists(built);
    packages::lemma_canonical_exists(requested);
    assert(packages::canonical(built).contains(name) != packages::canonical(requested).contains(
        name,
    ));
}

/// A rebuild that is asked for is done, whatever image is there, and without a look at it.
pub proof fn law_a_rebuild_is_done(
    command: Seq<Seq<char>>,
    requested: Seq<Seq<char>>,
    state: Option<ImageStateView>,
)
    ensures
        build_step(command, requested, true, state) == BuildStepView::Build(tag_of(command)),
{
}

/// Whether a text is among those that a configuration was given.
pub open spec fn is_given(config: RunConfigView, arg: Seq<char>) -> bool {
    ||| arg == config.image
    ||| config.network == Some(arg)
    ||| config.ports.contains(arg)
    ||| config.envs.contains(arg)
    ||| (config.workdir matches Some(mount) && mount.container == arg)
}

/// Whether a text is the mount of a path that a configuration was given.
pub open spec fn is_given_mount(config: RunConfigView, podman: bool, arg: Seq<char>) -> bool {
    ||| (config.workdir matches Some(mount) && mount_text(mount, podman) == arg)
    ||| mount_texts(config.extra_mounts, podman).contains(arg)
}

/// What stands in a repeated option is the option or one of its values.
proof fn lemma_repeated_holds(option: Seq<char>, values: Seq<Seq<char>>, arg: Seq<char>)
    requires
        repeated(option, values).contains(arg),
    ensures
        values.len() > 0,
        arg == option || values.contains(arg),
    decreases values.len(),
{
    let all = repeated(option, values);
    let i = choose|i: int| 0 <= i < all.len() && all[i] == arg;
    let front = repeated(option, values.drop_last());
    if i < front.len() {
        assert(front[i] == arg);
        lemma_repeated_holds(option, values.drop_last(), arg);
        if arg != option {
            let fewer = values.drop_last();
            let j = choose|j: int| 0 <= j < fewer.len() && fewer[j] == arg;
            assert(values[j] == arg);
        }
    } else {
        assert(arg == option || arg == values.last());
        assert(values.contains(values.last()));
    }
}

/// What stands in two lists, one behind the other, stands in one of them.
proof fn lemma_holds_one_of(a: Seq<Seq<char>>, b: Seq<Seq<char>>, arg: Seq<char>)
    requires
        (a + b).contains(arg),
    ensures
        a.contains(arg) || b.contains(arg),
{
    let i = choose|i: int| 0 <= i < (a + b).len() && (a + b)[i] == arg;
    if i < a.len() {
        assert(a[i] == arg);
    } else {
        assert(b[i - a.len()] == arg);
    }
}

/// Every argument with which an engine runs a container is accounted for: it is one of those
/// that are always there, an option for something that the configuration asks for, or a text
/// that the configuration was given. In particular nothing is mounted and no environment
/// variable is passed that was not asked for.
pub proof fn law_arguments_are_accounted_for(
    config: RunConfigView,
    podman: bool,
    uid: u32,
    gid: u32,
    arg: Seq<char>,
)
    requires
        run_command(config, podman, uid, gid).contains(arg),
    ensures
        ({
            ||| set!["run"@, "-i"@, "--rm"@, "--hostname"@, "domcp"@].contains(arg)
            ||| (config.network is Some && arg == "--network"@)
            ||| (config.workdir is Some && (arg == "-v"@ || arg == "-w"@))
            ||| (config.extra_mounts.len() > 0 && arg == "-v"@)
            ||| user_options(config, podman, uid, gid).contains(arg)
            ||| (config.ports.len() > 0 && arg == "-p"@)
            ||| (config.envs.len() > 0 && arg == "-e"@)
            ||| is_given(config, arg)
            ||| is_given_mount(config, podman, arg)
        }),
{
    let s0 = seq!["run"@, "-i"@, "--rm"@];
    let s1 = s0 + network_options(config);
    let s2 = s1 + workdir_options(config, podman);
    let s3 = s2 + repeated("-v"@, mount_texts(config.extra_mounts, podman));
    let s4 = s3 + user_options(config, podman, uid, gid);
    let s5 = s4 + repeated("-p"@, config.ports);
    let s6 = s5 + repeated("-e"@, config.envs);
    let last = seq!["--hostname"@, "domcp"@, config.image];
    lemma_holds_one_of(s6, last, arg);
    if s6.contains(arg) {
        lemma_holds_one_of(s5, repeated("-e"@, config.envs), arg);
        if s5.contains(arg) {
            lemma_holds_one_of(s4, repeated("-p"@, config.ports), arg);
            if s4.contains(arg) {
                lemma_holds_one_of(s3, user_options(config, podman, uid, gid), arg);
                if s3.contains(arg) {
                    let extra = mount_texts(config.extra_mounts, podman);
                    lemma_holds_one_of(s2, repeated("-v"@, extra), arg);
                    if s2.contains(arg) {
                        lemma_holds_one_of(s1, workdir_options(config, podman), arg);
                        if s1.contains(arg) {
                            lemma_holds_one_of(s0, network_options(config), arg);
                        }
                    } else {
                        lemma_repeated_holds("-v"@, extra, arg);
                    }
                }
            } else {
                lemma_repeated_holds("-p"@, config.ports, arg);
            }
        } else {
            lemma_repeated_holds("-e"@, config.envs, arg);
        }
    }
}

/// A text without a colon is no mount.
proof fn lemma_mounts_hold_a_colon(config: RunConfigView, podman: bool, arg: Seq<char>)
    requires
        is_given_mount(config, podman, arg),
    ensures
        arg.contains(':'),
{
    reveal_strlit(":");
    let extra = mount_texts(config.extra_mounts, podman);
    if extra.contains(arg) {
        let i = choose|i: int| 0 <= i < extra.len() && extra[i] == arg;
        let mount = config.extra_mounts[i];
        assert(arg == mount_text(mount, podman));
        assert(arg[mount.host.text.len() as int] == ':');
    } else {
        let mount = config.workdir->0;
        assert(arg[mount.host.text.len() as int] == ':');
    }
}

/// A container runs without privileges of the host: `--privileged` is no argument, unless a
/// text that the configuration was given reads so.
pub proof fn law_never_privileged(config: RunConfigView, podman: bool, uid: u32, gid: u32)
    requires
        !is_given(config, "--privileged"@),
    ensures
        !run_command(config, podman, uid, gid).contains("--privileged"@),
{
    let arg = "--privileged"@;
    if run_command(config, podman, uid, gid).contains(arg) {
        law_arguments_are_accounted_for(config, podman, uid, gid, arg);
        lemma_words_differ();
        lemma_option_is_its_own(config, podman, uid, gid, arg);
    }
}

/// Where no mount is asked for, nothing is mounted.
pub proof fn law_nothing_is_mounted_unasked(
    config: RunConfigView,
    podman: bool,
    uid: u32,
    gid: u32,
)
    requires
        config.workdir is None,
        config.extra_mounts.len() == 0,
        !is_given(config, "-v"@),
    ensures
        !run_command(config, podman, uid, gid).contains("-v"@),
{
    if run_command(config, podman, uid, gid).contains("-v"@) {
        law_arguments_are_accounted_for(config, podman, uid, gid, "-v"@);
        lemma_words_differ();
        lemma_option_is_its_own(config, podman, uid, gid, "-v"@);
    }
}

/// Where no environment variable is exposed, none is passed.
pub proof fn law_no_variable_is_passed_unasked(
    config: RunConfigView,
    podman: bool,
    uid: u32,
    gid: u32,
)
    requires
        config.envs.len() == 0,
        !is_given(config, "-e"@),
    ensures
        !run_command(config, podman, uid, gid).contains("-e"@),
{
    if run_command(config, podman, uid, gid).contains("-e"@) {
        law_arguments_are_accounted_for(config, podman, uid, gid, "-e"@);
        lemma_words_differ();
        lemma_option_is_its_own(config, podman, uid, gid, "-e"@);
    }
}

/// The words among the arguments are told apart by their length, or by their second letter.
proof fn lemma_words_differ()
    ensures
        "-v"@.len() == 2 && "-v"@[1] == 'v',
        "-w"@.len() == 2 && "-w"@[1] == 'w',
        "-p"@.len() == 2 && "-p"@[1] == 'p',
        "-e"@.len() == 2 && "-e"@[1] == 'e',
        "-i"@.len() == 2 && "-i"@[1] == 'i',
        "run"@.len() == 3,
        "--rm"@.len() == 4,
        "domcp"@.len() == 5,
        "--user"@.len() == 6,
        "--network"@.len() == 9,
        "--hostname"@.len() == 10,
        "--privileged"@.len() == 12,
        "--userns=keep-id"@.len() == 16,
{
    reveal_strlit("-v");
    reveal_strlit("-w");
    reveal_strlit("-p");
    reveal_strlit("-e");
    reveal_strlit("-i");
    reveal_strlit("run");
    reveal_strlit("--rm");
    reveal_strlit("domcp");
    reveal_strlit("--user");
    reveal_strlit("--network");
    reveal_strlit("--hostname");
    reveal_strlit("--privileged");
    reveal_strlit("--userns=keep-id");
}

/// The options of which something is stated below.
spec fn options() -> Set<Seq<char>> {
    set!["-v"@, "-e"@, "-p"@, "--network"@, "--user"@, "--userns=keep-id"@, "--privileged"@]
}

/// An option is told apart from the other arguments: it is none of those that are always there,
/// no mount, and none of those for the user, unless it is for the user.
proof fn lemma_option_is_its_own(
    config: RunConfigView,
    podman: bool,
    uid: u32,
    gid: u32,
    option: Seq<char>,
)
    requires
        options().contains(option),
    ensures
        !set!["run"@, "-i"@, "--rm"@, "--hostname"@, "domcp"@].contains(option),
        !is_given_mount(config, podman, option),
        user_options(config, podman, uid, gid).contains(option) ==> config.user_map && (option
            == "--user"@ || option == "--userns=keep-id"@),
{
    lemma_words_differ();
    assert(!option.contains(':')) by {
        reveal_strlit("-v");
        reveal_strlit("-e");
        reveal_strlit("-p");
        reveal_strlit("--network");
        reveal_strlit("--user");
        reveal_strlit("--userns=keep-id");
        reveal_strlit("--privileged");
    }
    if is_given_mount(config, podman, option) {
        lemma_mounts_hold_a_colon(config, podman, option);
    }
    let user = user_options(config, podman, uid, gid);
    if user.contains(option) {
        let i = choose|i: int| 0 <= i < user.len() && user[i] == option;
        if !podman && i == 1 {
            reveal_strlit(":");
            assert(user[1][text::decimal(uid as nat).len() as int] == ':');
        }
    }
}

/// Where only the working directory is asked for, it is all that is mounted.
pub proof fn law_only_the_workdir_is_mounted(
    config: RunConfigView,
    podman: bool,
    uid: u32,
    gid: u32,
)
    requires
        config.workdir is Some,
        config.extra_mounts.len() == 0,
        !is_given(config, "-v"@),
    ensures
        ({
            let args = run_command(config, podman, uid, gid);
            exists|i: int|
                #![trigger args[i]]
                0 <= i < args.len() - 1 && args[i] == "-v"@ && args[i + 1] == mount_text(
                    config.workdir->0,
                    podman,
                ) && forall|j: int| 0 <= j < args.len() && #[trigger] args[j] == "-v"@ ==> j == i
        }),
{
    let args = run_command(config, podman, uid, gid);
    let front = seq!["run"@, "-i"@, "--rm"@] + network_options(config);
    let workdir = workdir_options(config, podman);
    let unmounted = RunConfigView { workdir: None, ..config };
    let plain = run_command(unmounted, podman, uid, gid);
    law_nothing_is_mounted_unasked(unmounted, podman, uid, gid);
    lemma_words_differ();
    lemma_option_is_its_own(config, podman, uid, gid, "-v"@);
    let i = front.len() as int;
    let extra = repeated("-v"@, mount_texts(config.extra_mounts, podman));
    assert(extra =~= Seq::<Seq<char>>::empty());
    assert(args =~= plain.take(i) + workdir + plain.skip(i)) by {
        assert(plain.take(i) =~= front);
    }
    assert(args[i] == "-v"@);
    assert(args[i + 1] == mount_text(config.workdir->0, podman));
    assert forall|j: int| 0 <= j < args.len() && #[trigger] args[j] == "-v"@ implies j == i by {
        if j < i {
            assert(plain.contains(plain[j]));
        } else if j >= i + 4 {
            assert(plain.contains(plain[j - 4]));
        } else if j == i + 1 {
            assert(is_given_mount(config, podman, args[j]));
        } else if j == i + 3 {
            assert(is_given(config, args[j]));
        }
    }
}

/// What is not asked for is left to the engine: it is told of no network, no port and no user
/// where the configuration says nothing of them. No text that the configuration was given may
/// itself read as the option.
pub proof fn law_the_rest_is_left_to_the_engine(
    config: RunConfigView,
    podman: bool,
    uid: u32,
    gid: u32,
)
    ensures
        ({
            let args = run_command(config, podman, uid, gid);
            &&& config.network is None && !is_given(config, "--network"@) ==> !args.contains(
                "--network"@,
            )
            &&& config.ports.len() == 0 && !is_given(config, "-p"@) ==> !args.contains("-p"@)
            &&& !config.user_map && !is_given(config, "--user"@) ==> !args.contains("--user"@)
            &&& !config.user_map && !is_given(config, "--userns=keep-id"@) ==> !args.contains(
                "--userns=keep-id"@,
            )
        }),
{
    let args = run_command(config, podman, uid, gid);
    lemma_words_differ();
    if config.network is None && args.contains("--network"@) {
        law_arguments_are_accounted_for(config, podman, uid, gid, "--network"@);
        lemma_option_is_its_own(config, podman, uid, gid, "--network"@);
    }
    if config.ports.len() == 0 && args.contains("-p"@) {
        law_arguments_are_accounted_for(config, podman, uid, gid, "-p"@);
        lemma_option_is_its_own(config, podman, uid, gid, "-p"@);
    }
    if !config.user_map && args.contains("--user"@) {
        law_arguments_are_accounted_for(config, podman, uid, gid, "--user"@);
        lemma_option_is_its_own(config, podman, uid, gid, "--user"@);
    }
    if !config.user_map && args.contains("--userns=keep-id"@) {
        law_arguments_are_accounted_for(config, podman, uid, gid, "--userns=keep-id"@);
        lemma_option_is_its_own(config, podman, uid, gid, "--userns=keep-id"@);
    }
}

/// Whether an option stands among some arguments with a value behind it.
pub open spec fn passes(args: Seq<Seq<char>>, option: Seq<char>, value: Seq<char>) -> bool {
    exists|i: int|
        #![trigger args[i]]
        0 <= i < args.len() - 1 && args[i] == option && args[i + 1] == value
}

/// An option and its value stand also in a longer list.
proof fn lemma_passes_in_longer(
    a: Seq<Seq<char>>,
    b: Seq<Seq<char>>,
    option: Seq<char>,
    value: Seq<char>,
)
    requires
        passes(a, option, value) || passes(b, option, value),
    ensures
        passes(a + b, option, value),
{
    let all = a + b;
    if passes(a, option, value) {
        let i = choose|i: int|
            #![trigger a[i]]
            0 <= i < a.len() - 1 && a[i] == option && a[i + 1] == value;
        assert(all[i] == option && all[i + 1] == value);
    } else {
        let i = choose|i: int|
            #![trigger b[i]]
            0 <= i < b.len() - 1 && b[i] == option && b[i + 1] == value;
        let k = a.len() + i;
        assert(all[k] == option && all[k + 1] == value);
    }
}

/// A repeated option stands there with each of its values.
proof fn lemma_repeated_passes(option: Seq<char>, values: Seq<Seq<char>>, value: Seq<char>)
    requires
        values.contains(value),
    ensures
        passes(repeated(option, values), option, value),
    decreases values.len(),
{
    let fewer = values.drop_last();
    let last = seq![option, values.last()];
    if value == values.last() {
        assert(last[0] == option && last[1] == value);
    } else {
        let k = choose|k: int| 0 <= k < values.len() && values[k] == value;
        assert(fewer[k] == value);
        lemma_repeated_passes(option, fewer, value);
    }
    lemma_passes_in_longer(repeated(option, fewer), last, option, value);
}

/// What one of the groups of options passes, the whole command passes.
proof fn lemma_group_passes(
    config: RunConfigView,
    podman: bool,
    uid: u32,
    gid: u32,
    option: Seq<char>,
    value: Seq<char>,
)
    requires
        ({
            ||| passes(network_options(config), option, value)
            ||| passes(workdir_options(config, podman), option, value)
            ||| passes(
                repeated("-v"@, mount_texts(config.extra_mounts, podman)),
                option,
                value,
            )
            ||| passes(user_options(config, podman, uid, gid), option, value)
            ||| passes(repeated("-p"@, config.ports), option, value)
            ||| passes(repeated("-e"@, config.envs), option, value)
        }),
    ensures
        passes(run_command(config, podman, uid, gid), option, value),
{
    let network = network_options(config);
    let workdir = workdir_options(config, podman);
    let extra = repeated("-v"@, mount_texts(config.extra_mounts, podman));
    let user = user_options(config, podman, uid, gid);
    let ports = repeated("-p"@, config.ports);
    let envs = repeated("-e"@, config.envs);
    let s0 = seq!["run"@, "-i"@, "--rm"@];
    let s1 = s0 + network;
    let s2 = s1 + workdir;
    let s3 = s2 + extra;
    let s4 = s3 + user;
    let s5 = s4 + ports;
    let s6 = s5 + envs;
    if passes(network, option, value) {
        lemma_passes_in_longer(s0, network, option, value);
    }
    if passes(s1, option, value) || passes(workdir, option, value) {
        lemma_passes_in_longer(s1, workdir, option, value);
    }
    if passes(s2, option, value) || passes(extra, option, value) {
        lemma_passes_in_longer(s2, extra, option, value);
    }
    if passes(s3, option, value) || passes(user, option, value) {
        lemma_passes_in_longer(s3, user, option, value);
    }
    if passes(s4, option, value) || passes(ports, option, value) {
        lemma_passes_in_longer(s4, ports, option, value);
    }
    lemma_passes_in_longer(s5, envs, option, value);
    lemma_passes_in_longer(s6, seq!["--hostname"@, "domcp"@, config.image], option, value);
}

/// Whatever a configuration asks for reaches the engine: each port, each variable, each mount,
/// the network and the directory to start in.
pub proof fn law_what_is_asked_for_is_passed(
    config: RunConfigView,
    podman: bool,
    uid: u32,
    gid: u32,
)
    ensures
        ({
            let args = run_command(config, podman, uid, gid);
            &&& forall|port: Seq<char>|
                #[trigger] config.ports.contains(port) ==> passes(args, "-p"@, port)
            &&& forall|env: Seq<char>|
                #[trigger] config.envs.contains(env) ==> passes(args, "-e"@, env)
            &&& forall|mount: mounts::MountView|
                #[trigger] config.extra_mounts.contains(mount) ==> passes(
                    args,
                    "-v"@,
                    mount_text(mount, podman),
                )
            &&& config.network matches Some(network) ==> passes(args, "--network"@, network)
            &&& config.workdir matches Some(mount) ==> passes(
                args,
                "-v"@,
                mount_text(mount, podman),
            ) && passes(args, "-w"@, mount.container)
        }),
{
    let args = run_command(config, podman, uid, gid);
    assert forall|port: Seq<char>| #[trigger] config.ports.contains(port) implies passes(
        args,
        "-p"@,
        port,
    ) by {
        lemma_repeated_passes("-p"@, config.ports, port);
        lemma_group_passes(config, podman, uid, gid, "-p"@, port);
    }
    assert forall|env: Seq<char>| #[trigger] config.envs.contains(env) implies passes(
        args,
        "-e"@,
        env,
    ) by {
        lemma_repeated_passes("-e"@, config.envs, env);
        lemma_group_passes(config, podman, uid, gid, "-e"@, env);
    }
    assert forall|mount: mounts::MountView|
        #[trigger] config.extra_mounts.contains(mount) implies passes(
        args,
        "-v"@,
        mount_text(mount, podman),
    ) by {
        let texts = mount_texts(config.extra_mounts, podman);
        let value = mount_text(mount, podman);
        let k = choose|k: int|
            0 <= k < config.extra_mounts.len() && config.extra_mounts[k] == mount;
        assert(texts[k] == value);
        lemma_repeated_passes("-v"@, texts, value);
        lemma_group_passes(config, podman, uid, gid, "-v"@, value);
    }
    if let Some(value) = config.network {
        let network = network_options(config);
        assert(network[0] == "--network"@ && network[1] == value);
        lemma_group_passes(config, podman, uid, gid, "--network"@, value);
    }
    if let Some(mount) = config.workdir {
        let workdir = workdir_options(config, podman);
        let value = mount_text(mount, podman);
        assert(workdir[0] == "-v"@ && workdir[1] == value);
        assert(workdir[2] == "-w"@ && workdir[3] == mount.container);
        lemma_group_passes(config, podman, uid, gid, "-v"@, value);
        lemma_group_passes(config, podman, uid, gid, "-w"@, mount.container);
    }
}

/// A container runs as the user of the host where that is asked for: podman keeps the user by
/// itself, docker is told the numbers of the user and of the group.
pub proof fn law_runs_as_the_user(config: RunConfigView, podman: bool, uid: u32, gid: u32)
    requires
        config.user_map,
    ensures
        podman ==> run_command(config, podman, uid, gid).contains("--userns=keep-id"@),
        !podman ==> passes(
            run_command(config, podman, uid, gid),
            "--user"@,
            text::decimal(uid as nat) + ":"@ + text::decimal(gid as nat),
        ),
{
    let user = user_options(config, podman, uid, gid);
    if podman {
        let front = seq!["run"@, "-i"@, "--rm"@] + network_options(config) + workdir_options(
            config,
            podman,
        ) + repeated("-v"@, mount_texts(config.extra_mounts, podman));
        let args = run_command(config, podman, uid, gid);
        assert((front + user)[front.len() as int] == "--userns=keep-id"@);
        assert(args[front.len() as int] == "--userns=keep-id"@);
    } else {
        let value = text::decimal(uid as nat) + ":"@ + text::decimal(gid as nat);
        assert(user[0] == "--user"@ && user[1] == value);
        lemma_group_passes(config, podman, uid, gid, "--user"@, value);
    }
}

/// The package that a command names, behind any options, gives its image the tag. For pipx
/// that is the package behind `run`.
pub proof fn law_the_package_names_the_image(
    runner: Seq<char>,
    options: Seq<Seq<char>>,
    package: Seq<char>,
    rest: Seq<Seq<char>>,
)
    requires
        forall|i: int| 0 <= i < options.len() ==> "-"@.is_prefix_of(#[trigger] options[i]),
        !"-"@.is_prefix_of(package),
    ensures
        runner == "pipx"@ && package == "run"@ || tag_of(
            seq![runner] + options + seq![package] + rest,
        ) == "domcp/"@ + tag_name(package) + ":latest"@,
        tag_of(seq!["pipx"@, "run"@] + options + seq![package] + rest) == "domcp/"@ + tag_name(
            package,
        ) + ":latest"@,
{
    reveal_strlit("-");
    reveal_strlit("run");
    let plain = seq![runner] + options + seq![package] + rest;
    let place = 1 + options.len();
    assert forall|i: int| 1 <= i < place implies "-"@.is_prefix_of(#[trigger] plain[i]) by {
        assert(plain[i] == options[i - 1]);
    }
    lemma_operand_at(plain, 1, place as int);
    assert(plain[place as int] == package);
    assert(plain[0] == runner);
    let piped = seq!["pipx"@, "run"@] + options + seq![package] + rest;
    let behind = 2 + options.len();
    assert forall|i: int| 2 <= i < behind implies "-"@.is_prefix_of(#[trigger] piped[i]) by {
        assert(piped[i] == options[i - 2]);
    }
    assert(piped[0] == "pipx"@ && piped[1] == "run"@);
    assert(!"-"@.is_prefix_of("run"@)) by {
        assert("run"@.take(1)[0] != "-"@[0]);
    }
    lemma_operand_at(piped, 1, 1);
    lemma_operand_at(piped, 2, behind as int);
    assert(piped[behind as int] == package);
}

/// The first argument behind a row of options is the operand.
proof fn lemma_operand_at(command: Seq<Seq<char>>, from: int, place: int)
    requires
        0 <= from <= place < command.len(),
        forall|i: int| from <= i < place ==> "-"@.is_prefix_of(#[trigger] command[i]),
        !"-"@.is_prefix_of(command[place]),
    ensures
        operand_at(command, from) == place,
    decreases place - from,
{
    if from < place {
        lemma_operand_at(command, from + 1, place);
    }
}

/// The name of an ASCII package in an image tag holds nothing but lower-case letters, digits
/// and dashes.
pub proof fn law_tag_names_are_plain(package: Seq<char>)
    requires
        vstd::utf8::is_ascii_chars(package),
    ensures
        forall|i: int|
            #![trigger tag_name(package)[i]]
            0 <= i < tag_name(package).len() ==> {
                let c = tag_name(package)[i];
                'a' <= c <= 'z' || '0' <= c <= '9' || c == '-'
            },
{
    reveal_strlit("@");
    let name = match text::without_prefix(package, "@"@) {
        Some(rest) => rest,
        None => package,
    };
    let clean = dashed(name);
    assert forall|i: int| 0 <= i < name.len() implies #[trigger] name[i] <= '\u{7f}' by {
        let k = i + package.len() - name.len();
        assert(name[i] == package[k]);
    }
    assert forall|i: int| 0 <= i < clean.len() implies ({
        let c = #[trigger] clean[i];
        platform::is_ascii_alphanumeric_char(c) || c == '-'
    }) by {
        assert(name[i] <= '\u{7f}');
    }
    assert(vstd::utf8::is_ascii_chars(clean));
    let tag = tag_name(package);
    assert forall|i: int| #![trigger tag[i]] 0 <= i < tag.len() implies {
        let c = tag[i];
        'a' <= c <= 'z' || '0' <= c <= '9' || c == '-'
    } by {
        assert(tag[i] == platform::ascii_lower(clean[i]));
    }
}

/// An image is inspected before it is built or used, unless a rebuild is asked for.
pub proof fn law_an_image_is_inspected_first(command: Seq<Seq<char>>, requested: Seq<Seq<char>>)
    ensures
        build_step(command, requested, false, None) == BuildStepView::Inspect(tag_of(command)),
{
}

/// An image that the engine does not know is built, whatever is asked for: where the engine says
/// so, and where it prints no record.
pub proof fn law_an_unknown_image_is_built(
    command: Seq<Seq<char>>,
    requested: Seq<Seq<char>>,
    tag: Seq<char>,
    inspection: Inspection,
)
    requires
        inspection == Inspection::Absent || (inspection matches Inspection::Records(records)
            && records@.len() == 0),
    ensures
        inspected(tag, inspection) matches Ok(state) && build_step(
            command,
            requested,
            false,
            Some(state),
        ) == BuildStepView::Build(tag_of(command)),
{
}

/// An image that does not say which packages it has is built where some package is asked for,
/// and used where none is.
pub proof fn law_an_unlabelled_image_has_no_packages(
    command: Seq<Seq<char>>,
    requested: Seq<Seq<char>>,
    labels: Seq<(Seq<char>, Seq<char>)>,
    rest: Seq<Option<Seq<(Seq<char>, Seq<char>)>>>,
)
    requires
        forall|i: int| 0 <= i < labels.len() ==> (#[trigger] labels[i]).0 != "domcp.packages"@,
    ensures
        ({
            let wanted = exists|i: int|
                0 <= i < requested.len() && text::trimmed(#[trigger] requested[i]).len() > 0;
            let step = if wanted {
                BuildStepView::Build(tag_of(command))
            } else {
                BuildStepView::Reuse(tag_of(command))
            };
            &&& build_step(
                command,
                requested,
                false,
                Some(recorded_state(seq![Some(labels)] + rest)),
            ) == step
            &&& build_step(
                command,
                requested,
                false,
                Some(recorded_state(seq![None] + rest)),
            ) == step
        }),
{
    let list = packages::canonical(requested);
    lemma_no_label(labels, "domcp.packages"@);
    packages::lemma_canonical_exists(requested);
    if exists|i: int| 0 <= i < requested.len() && text::trimmed(#[trigger] requested[i]).len() > 0 {
        let i = choose|i: int|
            0 <= i < requested.len() && text::trimmed(#[trigger] requested[i]).len() > 0;
        packages::law_canonical_holds_what_is_asked_for(requested, text::trimmed(requested[i]));
        assert(list.contains(text::trimmed(requested[i])));
    } else if list.len() > 0 {
        packages::law_canonical_holds_what_is_asked_for(requested, list[0]);
        assert(list.contains(list[0]));
    }
    assert((seq![Some(labels)] + rest)[0] == Some(labels));
    assert((seq![None::<Seq<(Seq<char>, Seq<char>)>>] + rest)[0] is None);
}

/// A label that no pair carries has no value.
proof fn lemma_no_label(labels: Seq<(Seq<char>, Seq<char>)>, name: Seq<char>)
    requires
        forall|i: int| 0 <= i < labels.len() ==> (#[trigger] labels[i]).0 != name,
    ensures
        label_named(labels, name) is None,
    decreases labels.len(),
{
    if labels.len() > 0 {
        assert(labels[labels.len() - 1].0 != name);
        assert forall|i: int| 0 <= i < labels.len() - 1 implies (
        #[trigger] labels.drop_last()[i]).0 != name by {
            assert(labels.drop_last()[i] == labels[i]);
        }
        lemma_no_label(labels.drop_last(), name);
    }
}

/// A labelled image is used exactly where it has the packages that are asked for: its label, the
/// last of that name in the first record, is read, and compared with the request.
pub proof fn law_a_labelled_image_is_compared(
    command: Seq<Seq<char>>,
    requested: Seq<Seq<char>>,
    front: Seq<(Seq<char>, Seq<char>)>,
    value: Seq<char>,
    back: Seq<(Seq<char>, Seq<char>)>,
    rest: Seq<Option<Seq<(Seq<char>, Seq<char>)>>>,
)
    requires
        forall|i: int| 0 <= i < back.len() ==> (#[trigger] back[i]).0 != "domcp.packages"@,
    ensures
        ({
            let labels = front + seq![("domcp.packages"@, value)] + back;
            let state = recorded_state(seq![Some(labels)] + rest);
            &&& state == ImageStateView::Present(packages::label_packages(value))
            &&& build_step(command, requested, false, Some(state))
                == if packages::label_packages(value) == packages::canonical(requested) {
                BuildStepView::Reuse(tag_of(command))
            } else {
                BuildStepView::Build(tag_of(command))
            }
        }),
{
    let labels = front + seq![("domcp.packages"@, value)] + back;
    lemma_last_label(front, "domcp.packages"@, value, back);
    assert((seq![Some(labels)] + rest)[0] == Some(labels));
}

/// Of the labels with one name the last counts.
proof fn lemma_last_label(
    front: Seq<(Seq<char>, Seq<char>)>,
    name: Seq<char>,
    value: Seq<char>,
    back: Seq<(Seq<char>, Seq<char>)>,
)
    requires
        forall|i: int| 0 <= i < back.len() ==> (#[trigger] back[i]).0 != name,
    ensures
        label_named(front + seq![(name, value)] + back, name) == Some(value),
    decreases back.len(),
{
    let all = front + seq![(name, value)] + back;
    if back.len() > 0 {
        assert(all.last() == back[back.len() - 1]);
        assert(all.drop_last() =~= front + seq![(name, value)] + back.drop_last());
        assert forall|i: int| 0 <= i < back.len() - 1 implies (
        #[trigger] back.drop_last()[i]).0 != name by {
            assert(back.drop_last()[i] == back[i]);
        }
        lemma_last_label(front, name, value, back.drop_last());
    } else {
        assert(all.last() == (name, value));
    }
}

/// An inspection that fails, or prints what cannot be read, is an error that names the image;
/// every other comes to a state.
pub proof fn law_failed_inspections_name_the_image(tag: Seq<char>, inspection: Inspection)
    ensures
        inspection == Inspection::Failed <==> inspected(tag, inspection)
            == Err::<ImageStateView, EngineErrorView>(EngineErrorView::InspectFailed(tag)),
        inspection == Inspection::Unreadable <==> inspected(tag, inspection)
            == Err::<ImageStateView, EngineErrorView>(EngineErrorView::InspectUnreadable(tag)),
        inspected(tag, inspection) is Ok <==> inspection is Absent || inspection is Records,
{
}

/// The search for an engine tells what every lookup comes to. An engine that is asked for by
/// name is found at the path that its lookup printed, without the white space around it, or
/// missed by name. Without a name, podman is looked for and then docker, and the first that is
/// found is used, whatever became of the lookup before.
pub proof fn law_lookups_decide(
    name: Seq<char>,
    output: Vec<u8>,
    lookup: Lookup,
    more: Seq<Lookup>,
)
    requires
        lookup is Failed || lookup is NotFound,
    ensures
        ({
            let path = text::trimmed(platform::lossy_text(output@));
            let found = seq![Lookup::Found(output)] + more;
            &&& detection(Some(name), Seq::empty()) == DetectionView::LookUp(name)
            &&& detection(Some(name), found) == DetectionView::Found(
                EngineView { name, path, is_podman: name == "podman"@ },
            )
            &&& detection(Some(name), seq![lookup] + more) == DetectionView::Failed(
                if lookup is Failed {
                    EngineErrorView::LookupFailed(name)
                } else {
                    EngineErrorView::NotFound(name)
                },
            )
            &&& detection(None, Seq::empty()) == DetectionView::LookUp("podman"@)
            &&& detection(None, found) == DetectionView::Found(
                EngineView { name: "podman"@, path, is_podman: true },
            )
            &&& detection(None, seq![lookup]) == DetectionView::LookUp("docker"@)
            &&& detection(None, seq![lookup] + found) == DetectionView::Found(
                EngineView { name: "docker"@, path, is_podman: false },
            )
        }),
{
    let found = seq![Lookup::Found(output)] + more;
    assert(found[0] == Lookup::Found(output));
    assert((seq![lookup] + more)[0] == lookup);
    assert((seq![lookup] + found)[0] == lookup);
    assert((seq![lookup] + found)[1] == Lookup::Found(output));
    reveal_strlit("podman");
    reveal_strlit("docker");
    assert("podman"@[0] != "docker"@[0]);
}

/// There is no engine exactly where both lookups went without one.
pub proof fn law_no_engine_where_none_is_found(lookups: Seq<Lookup>)
    ensures
        detection(None, lookups) is Failed <==> lookups.len() >= 2 && !(lookups[0] is Found) && !(
        lookups[1] is Found),
        detection(None, lookups) matches DetectionView::Failed(error) ==> error
            == EngineErrorView::NoEngine,
{
}

/// An error message names what it is about and is otherwise the same for all: the program, the
/// image, or what the build printed, which stands at its end.
pub proof fn law_messages_name_what_they_are_about(a: Seq<char>, b: Seq<char>)
    ensures
        differ_only_in(
            EngineErrorView::LookupFailed(a).message(),
            a,
            EngineErrorView::LookupFailed(b).message(),
            b,
        ),
        differ_only_in(
            EngineErrorView::NotFound(a).message(),
            a,
            EngineErrorView::NotFound(b).message(),
            b,
        ),
        differ_only_in(
            EngineErrorView::InspectFailed(a).message(),
            a,
            EngineErrorView::InspectFailed(b).message(),
            b,
        ),
        differ_only_in(
            EngineErrorView::InspectUnreadable(a).message(),
            a,
            EngineErrorView::InspectUnreadable(b).message(),
            b,
        ),
        differ_only_in(
            EngineErrorView::BuildFailed(a).message(),
            a,
            EngineErrorView::BuildFailed(b).message(),
            b,
        ),
        a.is_suffix_of(EngineErrorView::BuildFailed(a).message()),
{
    let tick = "`"@;
    assert("Failed to look up `"@ + a + tick == EngineErrorView::LookupFailed(a).message());
    assert("`"@ + a + "` not found in PATH"@ == EngineErrorView::NotFound(a).message());
    assert("Failed to inspect image `"@ + a + tick == EngineErrorView::InspectFailed(a).message());
    assert("Failed to parse inspect output for `"@ + a + tick == EngineErrorView::InspectUnreadable(
        a,
    ).message());
    let failed = EngineErrorView::BuildFailed(a).message();
    assert("Container image build failed:\n"@ + a + Seq::<char>::empty() =~= failed);
    assert("Container image build failed:\n"@ + b + Seq::<char>::empty()
        =~= EngineErrorView::BuildFailed(b).message());
    assert(failed.skip(failed.len() - a.len()) =~= a);
}

/// Whether two texts are the same but for what each is about, which stands between the same
/// words.
pub open spec fn differ_only_in(x: Seq<char>, a: Seq<char>, y: Seq<char>, b: Seq<char>) -> bool {
    exists|front: Seq<char>, back: Seq<char>|
        #![trigger front + a + back]
        x == front + a + back && y == front + b + back
}

/// The arguments with which an image is inspected or built hold its tag, and the path of the
/// Dockerfile as it is, in one place each, and are otherwise the same for all images.
pub proof fn law_image_arguments_hold_the_tag(
    tag: Seq<char>,
    other: Seq<char>,
    dockerfile: os_text::OsTextView,
    another: os_text::OsTextView,
)
    ensures
        inspect_command(tag)[2] == tag,
        inspect_command(other) == inspect_command(tag).update(2, other),
        build_command(dockerfile, tag)[2] == dockerfile,
        build_command(dockerfile, tag)[4] == os_text::unicode(tag),
        build_command(another, other) == build_command(dockerfile, tag).update(2, another).update(
            4,
            os_text::unicode(other),
        ),
{
    assert(inspect_command(other) =~= inspect_command(tag).update(2, other));
    assert(build_command(another, other) =~= build_command(dockerfile, tag).update(
        2,
        another,
    ).update(4, os_text::unicode(other)));
}

/// The name in a tag follows the package character by character: letters and digits are kept,
/// in lower case, and anything else becomes a dash. A leading `@` is dropped.
pub proof fn law_tag_names_follow_the_package(package: Seq<char>, rest: Seq<char>)
    requires
        vstd::utf8::is_ascii_chars(package),
        package.len() == 0 || package[0] != '@',
    ensures
        tag_name(package).len() == package.len(),
        forall|i: int|
            #![trigger tag_name(package)[i]]
            0 <= i < package.len() ==> tag_name(package)[i] == (if 'A' <= package[i] <= 'Z' {
                (package[i] as u32 + 32) as char
            } else if 'a' <= package[i] <= 'z' || '0' <= package[i] <= '9' {
                package[i]
            } else {
                '-'
            }),
        tag_name(seq!['@'] + package) == tag_name(package),
{
    reveal_strlit("@");
    assert("@"@ =~= seq!['@']);
    let scoped = seq!['@'] + package;
    assert(scoped.take(1) =~= "@"@);
    assert(scoped.skip(1) =~= package);
    if "@"@.is_prefix_of(package) {
        assert(package.take(1)[0] == '@');
    }
    let clean = dashed(package);
    assert forall|i: int| 0 <= i < clean.len() implies '\0' <= #[trigger] clean[i] <= '\u{7f}' by {
        assert(package[i] <= '\u{7f}');
    }
    assert(vstd::utf8::is_ascii_chars(clean));
}

/// A dash replaces every character that is no letter, no digit and no dash, and only those, in
/// any script.
pub proof fn law_dashes_replace_the_rest(name: Seq<char>)
    ensures
        dashed(name).len() == name.len(),
        forall|i: int|
            #![trigger dashed(name)[i]]
            0 <= i < name.len() ==> dashed(name)[i] == (if platform::is_alphanumeric_char(name[i]) {
                name[i]
            } else {
                '-'
            }),
{
}

/// A command without a package, of which every argument behind the runner is an option, has the
/// tag of a server without a name. For pipx `run` may stand among the options.
pub proof fn law_nameless_commands_share_a_tag(
    runner: Seq<char>,
    options: Seq<Seq<char>>,
    more: Seq<Seq<char>>,
)
    requires
        forall|i: int| 0 <= i < options.len() ==> "-"@.is_prefix_of(#[trigger] options[i]),
        forall|i: int| 0 <= i < more.len() ==> "-"@.is_prefix_of(#[trigger] more[i]),
    ensures
        tag_of(Seq::empty()) == "domcp/mcp:latest"@,
        tag_of(seq![runner] + options) == "domcp/mcp:latest"@,
        tag_of(seq!["pipx"@] + options + seq!["run"@] + more) == "domcp/mcp:latest"@,
{
    reveal_strlit("domcp/");
    reveal_strlit("mcp");
    reveal_strlit(":latest");
    reveal_strlit("domcp/mcp:latest");
    assert("domcp/"@ + "mcp"@ + ":latest"@ =~= "domcp/mcp:latest"@);
    let plain = seq![runner] + options;
    assert forall|i: int| 1 <= i < plain.len() implies "-"@.is_prefix_of(#[trigger] plain[i]) by {
        assert(plain[i] == options[i - 1]);
    }
    lemma_no_operand(plain, 1);
    let piped = seq!["pipx"@] + options + seq!["run"@] + more;
    let place = 1 + options.len();
    assert forall|i: int| 1 <= i < place implies "-"@.is_prefix_of(#[trigger] piped[i]) by {
        assert(piped[i] == options[i - 1]);
    }
    assert(piped[0] == "pipx"@);
    assert(piped[place as int] == "run"@);
    assert(!"-"@.is_prefix_of("run"@)) by {
        reveal_strlit("-");
        reveal_strlit("run");
        assert("run"@.take(1)[0] != "-"@[0]);
    }
    lemma_operand_at(piped, 1, place as int);
    assert forall|i: int| place + 1 <= i < piped.len() implies "-"@.is_prefix_of(
        #[trigger] piped[i],
    ) by {
        assert(piped[i] == more[i - place - 1]);
    }
    lemma_no_operand(piped, place as int + 1);
}

/// Where only options follow, no operand does.
proof fn lemma_no_operand(command: Seq<Seq<char>>, from: int)
    requires
        0 <= from,
        forall|i: int| from <= i < command.len() ==> "-"@.is_prefix_of(#[trigger] command[i]),
    ensures
        operand_at(command, from) >= command.len(),
    decreases command.len() - from,
{
    if from < command.len() {
        lemma_no_operand(command, from + 1);
    }
}

/// A mount is written as the path of the host, a colon and the path of the container. For podman
/// `:Z` follows, and for no other engine.
pub proof fn law_mounts_are_written_with_a_colon(mount: mounts::MountView)
    ensures
        mount_text(mount, false) == mount.host.text + seq![':'] + mount.container,
        mount_text(mount, true) == mount.host.text + seq![':'] + mount.container + seq![':', 'Z'],
{
    reveal_strlit(":");
    reveal_strlit(":Z");
    reveal_strlit("");
    assert(mount_text(mount, false) =~= mount.host.text + seq![':'] + mount.container);
    assert(mount_text(mount, true) =~= mount.host.text + seq![':'] + mount.container + seq![
        ':',
        'Z',
    ]);
}

/// A repeated option takes two places for each value.
proof fn lemma_repeated_len(option: Seq<char>, values: Seq<Seq<char>>)
    ensures
        repeated(option, values).len() == 2 * values.len(),
    decreases values.len(),
{
    if values.len() > 0 {
        lemma_repeated_len(option, values.drop_last());
    }
}

/// A repeated option and its values stand in turn.
proof fn lemma_repeated_at(option: Seq<char>, values: Seq<Seq<char>>, i: int)
    requires
        0 <= i < values.len(),
    ensures
        repeated(option, values)[2 * i] == option,
        repeated(option, values)[2 * i + 1] == values[i],
    decreases values.len(),
{
    let fewer = values.drop_last();
    let front = repeated(option, fewer);
    let all = repeated(option, values);
    lemma_repeated_len(option, fewer);
    assert(all == front + seq![option, values.last()]);
    if i < fewer.len() {
        lemma_repeated_at(option, fewer, i);
        assert(all[2 * i] == front[2 * i]);
        assert(all[2 * i + 1] == front[2 * i + 1]);
    }
}

/// Whether an option and its value stand somewhere as one of a row of such pairs.
pub open spec fn pair_at(
    args: Seq<Seq<char>>,
    start: int,
    i: int,
    option: Seq<char>,
    value: Seq<char>,
) -> bool {
    args[start + 2 * i] == option && args[start + 2 * i + 1] == value
}

/// A container is run with these arguments and no others, in this order: that it is run, is
/// interactive and leaves nothing behind; the network; the working directory; each additional
/// mount; the user; each port; each variable; its host name and its image. The mounts, the ports
/// and the variables stand in the order in which the configuration has them, each once.
pub proof fn law_arguments_stand_in_order(
    config: RunConfigView,
    podman: bool,
    uid: u32,
    gid: u32,
)
    ensures
        ({
            let args = run_command(config, podman, uid, gid);
            let at_workdir: int = if config.network is Some {
                5
            } else {
                3
            };
            let at_mounts: int = if config.workdir is Some {
                at_workdir + 4
            } else {
                at_workdir
            };
            let at_user: int = at_mounts + 2 * config.extra_mounts.len();
            let at_ports: int = if !config.user_map {
                at_user
            } else if podman {
                at_user + 1
            } else {
                at_user + 2
            };
            let at_envs: int = at_ports + 2 * config.ports.len();
            let at_end: int = at_envs + 2 * config.envs.len();
            &&& args.len() == at_end + 3
            &&& args[0] == "run"@ && args[1] == "-i"@ && args[2] == "--rm"@
            &&& config.network matches Some(network) ==> args[3] == "--network"@ && args[4]
                == network
            &&& config.workdir matches Some(mount) ==> args[at_workdir] == "-v"@ && args[at_workdir
                + 1] == mount_text(mount, podman) && args[at_workdir + 2] == "-w"@
                && args[at_workdir + 3] == mount.container
            &&& forall|i: int|
                #![trigger config.extra_mounts[i]]
                0 <= i < config.extra_mounts.len() ==> pair_at(
                    args,
                    at_mounts,
                    i,
                    "-v"@,
                    mount_text(config.extra_mounts[i], podman),
                )
            &&& config.user_map && podman ==> args[at_user] == "--userns=keep-id"@
            &&& config.user_map && !podman ==> args[at_user] == "--user"@ && args[at_user + 1]
                == text::decimal(uid as nat) + seq![':'] + text::decimal(gid as nat)
            &&& forall|i: int|
                #![trigger config.ports[i]]
                0 <= i < config.ports.len() ==> pair_at(args, at_ports, i, "-p"@, config.ports[i])
            &&& forall|i: int|
                #![trigger config.envs[i]]
                0 <= i < config.envs.len() ==> pair_at(args, at_envs, i, "-e"@, config.envs[i])
            &&& args[at_end] == "--hostname"@ && args[at_end + 1] == "domcp"@
            &&& args[at_end + 2] == config.image
        }),
{
    let args = run_command(config, podman, uid, gid);
    let s0 = seq!["run"@, "-i"@, "--rm"@];
    let network = network_options(config);
    let workdir = workdir_options(config, podman);
    let texts = mount_texts(config.extra_mounts, podman);
    let extra = repeated("-v"@, texts);
    let user = user_options(config, podman, uid, gid);
    let ports = repeated("-p"@, config.ports);
    let envs = repeated("-e"@, config.envs);
    let last = seq!["--hostname"@, "domcp"@, config.image];
    let s1 = s0 + network;
    let s2 = s1 + workdir;
    let s3 = s2 + extra;
    let s4 = s3 + user;
    let s5 = s4 + ports;
    let s6 = s5 + envs;
    assert(args == s6 + last);
    lemma_repeated_len("-v"@, texts);
    lemma_repeated_len("-p"@, config.ports);
    lemma_repeated_len("-e"@, config.envs);
    reveal_strlit(":");
    assert(":"@ =~= seq![':']);
    assert(forall|k: int| 0 <= k < 3 ==> s1[k] == s0[k]);
    assert(forall|k: int| 0 <= k < s6.len() ==> args[k] == s6[k]);
    assert(forall|k: int| 0 <= k < s5.len() ==> s6[k] == s5[k]);
    assert(forall|k: int| 0 <= k < s4.len() ==> s5[k] == s4[k]);
    assert(forall|k: int| 0 <= k < s3.len() ==> s4[k] == s3[k]);
    assert(forall|k: int| 0 <= k < s2.len() ==> s3[k] == s2[k]);
    assert(forall|k: int| 0 <= k < s1.len() ==> s2[k] == s1[k]);
    if let Some(value) = config.network {
        assert(s1[3] == network[0] && s1[4] == network[1]);
        assert(args[3] == s1[3] && args[4] == s1[4]);
    }
    let at_workdir = s1.len() as int;
    if let Some(mount) = config.workdir {
        assert(s2[at_workdir] == workdir[0] && s2[at_workdir + 1] == workdir[1]);
        assert(s2[at_workdir + 2] == workdir[2] && s2[at_workdir + 3] == workdir[3]);
    }
    let at_mounts = s2.len() as int;
    assert forall|i: int|
        #![trigger config.extra_mounts[i]]
        0 <= i < config.extra_mounts.len() implies pair_at(
        args,
        at_mounts,
        i,
        "-v"@,
        mount_text(config.extra_mounts[i], podman),
    ) by {
        assert(texts[i] == mount_text(config.extra_mounts[i], podman));
        lemma_repeated_at("-v"@, texts, i);
        assert(s3[at_mounts + 2 * i] == extra[2 * i]);
        assert(s3[at_mounts + 2 * i + 1] == extra[2 * i + 1]);
    }
    let at_user = s3.len() as int;
    if config.user_map {
        assert(s4[at_user] == user[0]);
        if !podman {
            assert(s4[at_user + 1] == user[1]);
        }
    }
    let at_ports = s4.len() as int;
    assert forall|i: int|
        #![trigger config.ports[i]]
        0 <= i < config.ports.len() implies pair_at(
        args,
        at_ports,
        i,
        "-p"@,
        config.ports[i],
    ) by {
        lemma_repeated_at("-p"@, config.ports, i);
        assert(s5[at_ports + 2 * i] == ports[2 * i]);
        assert(s5[at_ports + 2 * i + 1] == ports[2 * i + 1]);
    }
    let at_envs = s5.len() as int;
    assert forall|i: int|
        #![trigger config.envs[i]]
        0 <= i < config.envs.len() implies pair_at(
        args,
        at_envs,
        i,
        "-e"@,
        config.envs[i],
    ) by {
        lemma_repeated_at("-e"@, config.envs, i);
        assert(s6[at_envs + 2 * i] == envs[2 * i]);
        assert(s6[at_envs + 2 * i + 1] == envs[2 * i + 1]);
    }
    let at_end = s6.len() as int;
    assert(at_workdir == if config.network is Some {
        5int
    } else {
        3int
    });
    assert(at_mounts == if config.workdir is Some {
        at_workdir + 4
    } else {
        at_workdir
    });
    assert(at_user == at_mounts + 2 * config.extra_mounts.len());
    assert(at_ports == if !config.user_map {
        at_user
    } else if podman {
        at_user + 1
    } else {
        at_user + 2
    });
    assert(at_envs == at_ports + 2 * config.ports.len());
    assert(at_end == at_envs + 2 * config.envs.len());
    assert(args[at_end] == last[0] && args[at_end + 1] == last[1] && args[at_end + 2] == last[2]);
}

/// For pipx the package behind `run` names the image, whatever options stand before and behind
/// `run`.
pub proof fn law_pipx_options_are_passed_over(
    before: Seq<Seq<char>>,
    options: Seq<Seq<char>>,
    package: Seq<char>,
    rest: Seq<Seq<char>>,
)
    requires
        forall|i: int| 0 <= i < before.len() ==> "-"@.is_prefix_of(#[trigger] before[i]),
        forall|i: int| 0 <= i < options.len() ==> "-"@.is_prefix_of(#[trigger] options[i]),
        !"-"@.is_prefix_of(package),
    ensures
        tag_of(seq!["pipx"@] + before + seq!["run"@] + options + seq![package] + rest) == "domcp/"@
            + tag_name(package) + ":latest"@,
{
    let command = seq!["pipx"@] + before + seq!["run"@] + options + seq![package] + rest;
    let first = 1 + before.len() as int;
    let place = first + 1 + options.len() as int;
    assert forall|i: int| 1 <= i < first implies "-"@.is_prefix_of(#[trigger] command[i]) by {
        assert(command[i] == before[i - 1]);
    }
    assert forall|i: int| first + 1 <= i < place implies "-"@.is_prefix_of(
        #[trigger] command[i],
    ) by {
        assert(command[i] == options[i - first - 1]);
    }
    assert(command[0] == "pipx"@ && command[first] == "run"@ && command[place] == package);
    assert(!"-"@.is_prefix_of("run"@)) by {
        reveal_strlit("-");
        reveal_strlit("run");
        assert("run"@.take(1)[0] != "-"@[0]);
    }
    lemma_operand_at(command, 1, first);
    lemma_operand_at(command, first + 1, place);
}

/// The name in a tag is the package with its dashes, in lower case, in any script, and one
/// leading `@` is dropped from it.
pub proof fn law_tag_names_are_in_lower_case(package: Seq<char>)
    ensures
        tag_name(seq!['@'] + package) == platform::lowercase(dashed(package)),
        package.len() == 0 || package[0] != '@' ==> tag_name(package) == platform::lowercase(
            dashed(package),
        ),
{
    reveal_strlit("@");
    assert("@"@ =~= seq!['@']);
    let scoped = seq!['@'] + package;
    assert(scoped.take(1) =~= "@"@);
    assert(scoped.skip(1) =~= package);
    if "@"@.is_prefix_of(package) {
        assert(package.take(1)[0] == '@');
    }
}

/// An image that is there needs no build exactly where its packages are the ones asked for; one
/// that does not say has none.
pub proof fn law_packages_decide_on_a_build(existing: Seq<Seq<char>>, requested: Seq<Seq<char>>)
    ensures
        needs_build(ImageStateView::NotFound, requested),
        needs_build(ImageStateView::Missing, requested) == needs_build(
            ImageStateView::Present(Seq::empty()),
            requested,
        ),
        !needs_build(ImageStateView::Present(requested), requested),
        existing != requested ==> needs_build(ImageStateView::Present(existing), requested),
{
    if requested.len() == 0 {
        assert(requested =~= Seq::<Seq<char>>::empty());
    }
}

} // verus!
