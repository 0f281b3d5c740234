//! Where a path of the host stands inside the container.

use crate::os_text::{OsText, OsTextView};
use crate::platform;
use crate::text::chars_of;
use vstd::prelude::*;

verus! {

/// The prefix of a Windows path, such as its drive. A drive is the byte of its letter.
#[derive(Debug)]
pub enum PathPrefix<T> {
    /// A drive: `C:`.
    Disk(u8),
    /// A drive in verbatim form: `\\?\C:`.
    VerbatimDisk(u8),
    /// A server and a share: `\\server\share`.
    Unc(T, T),
    /// A server and a share in verbatim form: `\\?\UNC\server\share`.
    VerbatimUnc(T, T),
    /// Another verbatim prefix: `\\?\pictures`.
    Verbatim(T),
    /// A device: `\\.\COM42`.
    DeviceNs(T),
}

/// One component of a Windows path.
#[derive(Debug)]
pub enum PathComponent<T> {
    /// What stands before the root.
    Prefix(PathPrefix<T>),
    /// The root directory.
    RootDir,
    /// The current directory, `.`.
    CurDir,
    /// The parent directory, `..`.
    ParentDir,
    /// A name.
    Normal(T),
}

impl DeepView for PathPrefix<OsText> {
    type V = PathPrefix<OsTextView>;

    open spec fn deep_view(&self) -> PathPrefix<OsTextView> {
        match self {
            PathPrefix::Disk(drive) => PathPrefix::Disk(*drive),
            PathPrefix::VerbatimDisk(drive) => PathPrefix::VerbatimDisk(*drive),
            PathPrefix::Unc(server, share) => PathPrefix::Unc(
                server.deep_view(),
                share.deep_view(),
            ),
            PathPrefix::VerbatimUnc(server, share) => PathPrefix::VerbatimUnc(
                server.deep_view(),
                share.deep_view(),
            ),
            PathPrefix::Verbatim(name) => PathPrefix::Verbatim(name.deep_view()),
            PathPrefix::DeviceNs(name) => PathPrefix::DeviceNs(name.deep_view()),
        }
    }
}

impl DeepView for PathComponent<OsText> {
    type V = PathComponent<OsTextView>;

    open spec fn deep_view(&self) -> PathComponent<OsTextView> {
        match self {
            PathComponent::Prefix(prefix) => PathComponent::Prefix(prefix.deep_view()),
            PathComponent::RootDir => PathComponent::RootDir,
            PathComponent::CurDir => PathComponent::CurDir,
            PathComponent::ParentDir => PathComponent::ParentDir,
            PathComponent::Normal(name) => PathComponent::Normal(name.deep_view()),
        }
    }
}

/// A path of the host.
#[derive(Debug)]
pub struct HostPath {
    /// The path itself.
    pub name: OsText,
    /// The components of the path where the host is a Windows machine.
    pub components: Option<Vec<PathComponent<OsText>>>,
}

/// What a [`HostPath`] is about.
pub struct PathView {
    pub name: OsTextView,
    pub components: Option<Seq<PathComponent<OsTextView>>>,
}

impl DeepView for HostPath {
    type V = PathView;

    open spec fn deep_view(&self) -> PathView {
        PathView { name: self.name.deep_view(), components: self.components.deep_view() }
    }
}

/// Bind mount specification between host and container paths.
#[derive(Debug, Clone)]
pub struct BindMount {
    pub host: OsText,
    pub container: String,
}

/// What a [`BindMount`] is about.
pub struct MountView {
    pub host: OsTextView,
    pub container: Seq<char>,
}

impl DeepView for BindMount {
    type V = MountView;

    open spec fn deep_view(&self) -> MountView {
        MountView { host: self.host.deep_view(), container: self.container@ }
    }
}

/// What the host knows of a path: its components, and what the file system resolves it to,
/// where it does.
#[derive(Debug)]
pub struct PathFacts {
    pub path: HostPath,
    pub resolved: Option<HostPath>,
}

/// What [`PathFacts`] are about.
pub struct FactsView {
    pub path: PathView,
    pub resolved: Option<PathView>,
}

impl DeepView for PathFacts {
    type V = FactsView;

    open spec fn deep_view(&self) -> FactsView {
        FactsView { path: self.path.deep_view(), resolved: self.resolved.deep_view() }
    }
}

/// What is known of a path. Of a path that nothing is known of, there is only the path itself.
pub open spec fn facts_of(known: Seq<FactsView>, path: OsTextView) -> FactsView
    decreases known.len(),
{
    if known.len() == 0 {
        FactsView { path: PathView { name: path, components: None }, resolved: None }
    } else if known[0].path.name == path {
        known[0]
    } else {
        facts_of(known.skip(1), path)
    }
}

/// Path segments, each behind a slash.
pub open spec fn slashed(segments: Seq<Seq<char>>) -> Seq<char>
    decreases segments.len(),
{
    if segments.len() == 0 {
        Seq::empty()
    } else {
        slashed(segments.drop_last()) + seq!['/'] + segments.last()
    }
}

/// The names among some components.
pub open spec fn names(components: Seq<PathComponent<OsTextView>>) -> Seq<Seq<char>>
    decreases components.len(),
{
    if components.len() == 0 {
        Seq::empty()
    } else {
        match components.last() {
            PathComponent::Normal(name) => names(components.drop_last()).push(name.text),
            _ => names(components.drop_last()),
        }
    }
}

/// The segments that stand for a prefix inside the container.
pub open spec fn prefix_segments(prefix: PathPrefix<OsTextView>) -> Seq<Seq<char>> {
    match prefix {
        PathPrefix::Disk(drive) => seq![seq![platform::ascii_lower(drive as char)]],
        PathPrefix::VerbatimDisk(drive) => seq![seq![platform::ascii_lower(drive as char)]],
        PathPrefix::Unc(server, share) => seq!["unc"@, server.text, share.text],
        PathPrefix::VerbatimUnc(server, share) => seq!["unc"@, server.text, share.text],
        PathPrefix::Verbatim(name) => seq![name.text],
        PathPrefix::DeviceNs(name) => seq![name.text],
    }
}

/// A component with its prefix, where it is one, in plain form: a drive and a share are the
/// same in verbatim form.
pub open spec fn plain(component: PathComponent<OsTextView>) -> PathComponent<OsTextView> {
    match component {
        PathComponent::Prefix(PathPrefix::VerbatimDisk(drive)) => PathComponent::Prefix(
            PathPrefix::Disk(drive),
        ),
        PathComponent::Prefix(PathPrefix::VerbatimUnc(server, share)) => PathComponent::Prefix(
            PathPrefix::Unc(server, share),
        ),
        _ => component,
    }
}

/// Whether a path leads into a directory: it begins with the components of the directory, a
/// drive or a share in plain or in verbatim form.
pub open spec fn leads_into(
    path: Seq<PathComponent<OsTextView>>,
    directory: Seq<PathComponent<OsTextView>>,
) -> bool {
    &&& directory.len() <= path.len()
    &&& forall|i: int| 0 <= i < directory.len() ==> plain(#[trigger] path[i]) == plain(directory[i])
}

/// A text without the slashes at its end.
pub open spec fn without_trailing_slashes(s: Seq<char>) -> Seq<char>
    decreases s.len(),
{
    if s.len() > 0 && s.last() == '/' {
        without_trailing_slashes(s.drop_last())
    } else {
        s
    }
}

/// A container path with the names of some components below it.
pub open spec fn joined_below(
    base: Seq<char>,
    relative: Seq<PathComponent<OsTextView>>,
) -> Seq<char> {
    without_trailing_slashes(base) + slashed(names(relative))
}

/// The container path of a Windows path outside the home directory. Its first component
/// counts where it is a prefix; of the others only the names do.
pub open spec fn below_host(components: Seq<PathComponent<OsTextView>>) -> Seq<char> {
    if components.len() == 0 {
        "/opt/host"@
    } else {
        let prefix = match components[0] {
            PathComponent::Prefix(prefix) => prefix_segments(prefix),
            _ => Seq::empty(),
        };
        "/opt/host"@ + slashed(prefix) + slashed(names(components.skip(1)))
    }
}

/// Where a path of the host stands inside the container: at the same place, but for Windows
/// paths, which stand below `/opt/home` or below `/opt/host`.
pub open spec fn container_path(host: PathView, home: Option<PathView>) -> Seq<char> {
    match host.components {
        None => host.name.text,
        Some(components) => match home {
            Some(PathView { name: _, components: Some(base) }) if leads_into(
                components,
                base,
            ) => joined_below("/opt/home"@, components.skip(base.len() as int)),
            _ => below_host(components),
        },
    }
}

/// The mount of a path by what is known of it: of the resolved path, or of the path as it was
/// given.
pub open spec fn mounted(facts: FactsView, home: Option<PathView>) -> MountView {
    let host = match facts.resolved {
        Some(resolved) => resolved,
        None => facts.path,
    };
    MountView { host: host.name, container: container_path(host, home) }
}

/// The mount of a path, by what is known of paths.
pub open spec fn mount_of(
    path: OsTextView,
    known: Seq<FactsView>,
    home: Option<PathView>,
) -> MountView {
    mounted(facts_of(known, path), home)
}

/// Whether two prefixes are the same, in plain or in verbatim form.
fn same_prefix(a: &PathPrefix<OsText>, b: &PathPrefix<OsText>) -> (r: bool)
    ensures
        r == (plain(PathComponent::Prefix(a.deep_view())) == plain(
            PathComponent::Prefix(b.deep_view()),
        )),
{
    match (a, b) {
        (
            PathPrefix::Disk(x) | PathPrefix::VerbatimDisk(x),
            PathPrefix::Disk(y) | PathPrefix::VerbatimDisk(y),
        ) => *x == *y,
        (
            PathPrefix::Unc(s, x) | PathPrefix::VerbatimUnc(s, x),
            PathPrefix::Unc(t, y) | PathPrefix::VerbatimUnc(t, y),
        ) => s.is(t) && x.is(y),
        (PathPrefix::Verbatim(x), PathPrefix::Verbatim(y)) => x.is(y),
        (PathPrefix::DeviceNs(x), PathPrefix::DeviceNs(y)) => x.is(y),
        _ => false,
    }
}

/// Whether two components are the same, a prefix in plain or in verbatim form.
fn same_component(a: &PathComponent<OsText>, b: &PathComponent<OsText>) -> (r: bool)
    ensures
        r == (plain(a.deep_view()) == plain(b.deep_view())),
{
    match (a, b) {
        (PathComponent::Prefix(x), PathComponent::Prefix(y)) => same_prefix(x, y),
        (PathComponent::RootDir, PathComponent::RootDir) => true,
        (PathComponent::CurDir, PathComponent::CurDir) => true,
        (PathComponent::ParentDir, PathComponent::ParentDir) => true,
        (PathComponent::Normal(x), PathComponent::Normal(y)) => x.is(y),
        _ => false,
    }
}

/// Whether a path leads into a directory.
fn begins_with(
    path: &Vec<PathComponent<OsText>>,
    directory: &Vec<PathComponent<OsText>>,
) -> (r: bool)
    ensures
        r == leads_into(path.deep_view(), directory.deep_view()),
{
    let ghost whole = path.deep_view();
    let ghost front = directory.deep_view();
    if directory.len() > path.len() {
        return false;
    }
    for i in 0..directory.len()
        invariant
            whole == path.deep_view(),
            front == directory.deep_view(),
            directory.len() <= path.len(),
            forall|j: int| 0 <= j < i ==> plain(#[trigger] whole[j]) == plain(front[j]),
    {
        assert(whole[i as int] == path[i as int].deep_view());
        assert(front[i as int] == directory[i as int].deep_view());
        if !same_component(&path[i], &directory[i]) {
            return false;
        }
    }
    true
}

/// Appends a segment behind a slash.
fn push_segment(path: &mut String, segment: &str)
    ensures
        final(path)@ == old(path)@ + (seq!['/'] + segment@),
{
    let ghost before = path@;
    path.push('/');
    path.append(segment);
    assert(path@ =~= before + (seq!['/'] + segment@));
}

/// Appends the names among the components from some place on, each behind a slash.
fn push_names(path: &mut String, components: &Vec<PathComponent<OsText>>, from: usize)
    requires
        from <= components.len(),
    ensures
        final(path)@ == old(path)@ + slashed(names(components.deep_view().skip(from as int))),
{
    let ghost before = path@;
    let ghost all = components.deep_view();
    assert(all.subrange(from as int, from as int) =~= Seq::empty());
    assert(path@ =~= before + slashed(Seq::empty()));
    for i in from..components.len()
        invariant
            from <= components.len(),
            all == components.deep_view(),
            path@ == before + slashed(names(all.subrange(from as int, i as int))),
    {
        let ghost done = all.subrange(from as int, i as int);
        let ghost more = all.subrange(from as int, i + 1);
        assert(more.drop_last() =~= done);
        assert(more.last() == components[i as int].deep_view());
        if let PathComponent::Normal(name) = &components[i] {
            push_segment(path, name.text.as_str());
            assert(names(more).drop_last() =~= names(done));
            assert(path@ =~= before + slashed(names(more)));
        }
    }
    assert(all.subrange(from as int, components.len() as int) =~= all.skip(from as int));
}

/// Join a Linux-style container base path with a relative host path fragment.
///
/// `base` is the already-chosen container prefix such as `/opt/home`.
/// `relative` is the path segment relative to that prefix on the host side: the components
/// from `from` on. Only normal path components are appended, producing a slash-separated
/// path that is valid inside Linux containers.
pub fn join_container_path(
    base: &str,
    relative: &Vec<PathComponent<OsText>>,
    from: usize,
) -> (r: String)
    requires
        from <= relative.len(),
    ensures
        r@ == joined_below(base@, relative.deep_view().skip(from as int)),
{
    let chars = chars_of(base);
    let mut end: usize = chars.len();
    assert(base@.take(end as int) =~= base@);
    while end > 0 && chars[end - 1] == '/'
        invariant
            chars@ == base@,
            end <= chars.len(),
            without_trailing_slashes(base@.take(end as int)) == without_trailing_slashes(base@),
        decreases end,
    {
        assert(base@.take(end as int).drop_last() =~= base@.take(end - 1));
        end = end - 1;
    }
    assert(base@.take(end as int) =~= base@.subrange(0, end as int));
    let mut container = base.substring_char(0, end).to_owned();
    push_names(&mut container, relative, from);
    container
}

/// The lower case of a drive letter.
fn lower_drive(drive: u8) -> (r: char)
    ensures
        r == platform::ascii_lower(drive as char),
{
    if 65 <= drive && drive <= 90 {
        (drive + 32) as char
    } else {
        drive as char
    }
}

/// Appends the segments that stand for a prefix.
fn push_prefix(path: &mut String, prefix: &PathPrefix<OsText>)
    ensures
        final(path)@ == old(path)@ + slashed(prefix_segments(prefix.deep_view())),
{
    let ghost before = path@;
    let ghost segments = prefix_segments(prefix.deep_view());
    proof {
        reveal_with_fuel(slashed, 4);
        assert(segments.drop_last() =~= segments.take(segments.len() - 1));
    }
    match prefix {
        PathPrefix::Disk(drive) | PathPrefix::VerbatimDisk(drive) => {
            let mut letter = String::new();
            letter.push(lower_drive(*drive));
            assert(letter@ =~= segments[0]);
            push_segment(path, letter.as_str());
            assert(path@ =~= before + slashed(segments));
        },
        PathPrefix::Unc(server, share) | PathPrefix::VerbatimUnc(server, share) => {
            push_segment(path, "unc");
            push_segment(path, server.text.as_str());
            push_segment(path, share.text.as_str());
            assert(segments.drop_last().drop_last() =~= seq!["unc"@]);
            assert(path@ =~= before + slashed(segments));
        },
        PathPrefix::Verbatim(name) | PathPrefix::DeviceNs(name) => {
            push_segment(path, name.text.as_str());
            assert(path@ =~= before + slashed(segments));
        },
    }
}

/// Map a host path to the path that should be used inside the container.
///
/// On hosts other than Windows the path is kept unchanged so MCP servers continue to
/// see the same absolute paths they would see outside the container.
///
/// Exact absolute-path identity is impossible for Linux containers on Windows,
/// so there the path shape is preserved instead:
/// - paths inside the user's home directory become `/opt/home/...`
/// - other paths become `/opt/host/<drive-or-prefix>/...`
///
/// `host` is the canonical host path that will be bind-mounted.
pub fn map_container_path(host: &HostPath, home: &Option<HostPath>) -> (r: String)
    ensures
        r@ == container_path(host.deep_view(), home.deep_view()),
{
    let components = match &host.components {
        None => {
            return host.name.text.clone();
        },
        Some(components) => components,
    };
    if let Some(home_path) = home {
        if let Some(base) = &home_path.components {
            if begins_with(components, base) {
                return join_container_path("/opt/home", components, base.len());
            }
        }
    }
    let mut container = "/opt/host".to_owned();
    if components.len() == 0 {
        return container;
    }
    assert(container@ =~= "/opt/host"@ + slashed(Seq::empty()));
    if let PathComponent::Prefix(prefix) = &components[0] {
        push_prefix(&mut container, prefix);
    }
    push_names(&mut container, components, 1);
    container
}

/// Where something is known of a path.
fn find_facts(known: &Vec<PathFacts>, path: &OsText) -> (r: Option<usize>)
    ensures
        match r {
            Some(i) => i < known.len() && known[i as int].deep_view() == facts_of(
                known.deep_view(),
                path.deep_view(),
            ),
            None => facts_of(known.deep_view(), path.deep_view()) == (FactsView {
                path: PathView { name: path.deep_view(), components: None },
                resolved: None,
            }),
        },
{
    let ghost all = known.deep_view();
    assert(all.skip(0) =~= all);
    for i in 0..known.len()
        invariant
            all == known.deep_view(),
            facts_of(all.skip(i as int), path.deep_view()) == facts_of(all, path.deep_view()),
    {
        assert(all.skip(i as int)[0] == known[i as int].deep_view());
        if known[i].path.name.is(path) {
            return Some(i);
        }
        assert(all.skip(i as int).skip(1) =~= all.skip(i + 1));
    }
    None
}

/// Build a single bind-mount specification from a host path.
///
/// `path` is the host-side path that should become visible inside the container, and `known`
/// is what the host knows of paths. The path is the resolved one where there is one. The host
/// path is preserved in [`BindMount::host`], and a Linux-compatible in-container destination
/// stands in [`BindMount::container`].
pub fn prepare_bind_mount(
    path: &OsText,
    known: &Vec<PathFacts>,
    home: &Option<HostPath>,
) -> (r: BindMount)
    ensures
        r.deep_view() == mount_of(path.deep_view(), known.deep_view(), home.deep_view()),
{
    match find_facts(known, path) {
        Some(i) => {
            let facts = &known[i];
            let host = match &facts.resolved {
                Some(resolved) => resolved,
                None => &facts.path,
            };
            BindMount { host: host.name.copy(), container: map_container_path(host, home) }
        },
        None => BindMount { host: path.copy(), container: path.text.clone() },
    }
}

/// Convert user-provided extra mount paths into fully prepared bind-mount
/// specifications.
///
/// `mounts` contains the host paths requested through CLI flags such as
/// `--extra-mount`. Each is translated to a container destination path via
/// [`prepare_bind_mount`].
pub fn prepare_extra_mounts(
    mounts: &Vec<OsText>,
    known: &Vec<PathFacts>,
    home: &Option<HostPath>,
) -> (r: Vec<BindMount>)
    ensures
        r.deep_view() == mounts.deep_view().map_values(
            |path: OsTextView| mount_of(path, known.deep_view(), home.deep_view()),
        ),
{
    let mut out: Vec<BindMount> = Vec::new();
    for i in 0..mounts.len()
        invariant
            out.len() == i,
            forall|j: int|
                0 <= j < i ==> (#[trigger] out[j]).deep_view() == mount_of(
                    mounts[j].deep_view(),
                    known.deep_view(),
                    home.deep_view(),
                ),
    {
        out.push(prepare_bind_mount(&mounts[i], known, home));
    }
    assert(out.deep_view() =~= mounts.deep_view().map_values(
        |path: OsTextView| mount_of(path, known.deep_view(), home.deep_view()),
    ));
    out
}

/// What is known of a path is known of that very path: a mount is of the path itself, or of
/// what the file system resolves just that path to.
pub proof fn law_a_mount_is_of_the_very_path(
    path: OsTextView,
    known: Seq<FactsView>,
    home: Option<PathView>,
)
    ensures
        facts_of(known, path).path.name == path,
        ({
            ||| mount_of(path, known, home).host == path
            ||| exists|i: int|
                #![trigger known[i]]
                0 <= i < known.len() && known[i].path.name == path && known[i].resolved is Some
                    && mount_of(path, known, home).host == known[i].resolved->0.name
        }),
    decreases known.len(),
{
    if known.len() > 0 {
        if known[0].path.name != path {
            let rest = known.skip(1);
            law_a_mount_is_of_the_very_path(path, rest, home);
            assert(mount_of(path, known, home) == mount_of(path, rest, home));
            if mount_of(path, rest, home).host != path {
                let i = choose|i: int|
                    #![trigger rest[i]]
                    0 <= i < rest.len() && rest[i].path.name == path && rest[i].resolved is Some
                        && mount_of(path, rest, home).host == rest[i].resolved->0.name;
                assert(known[i + 1] == rest[i]);
            }
        }
    }
}

/// A mount stands at the same path on both sides, where the host is no Windows machine.
pub proof fn law_same_path_on_both_sides(
    path: OsTextView,
    known: Seq<FactsView>,
    home: Option<PathView>,
)
    requires
        forall|i: int|
            0 <= i < known.len() ==> {
                &&& (#[trigger] known[i]).path.components is None
                &&& known[i].resolved matches Some(resolved) ==> resolved.components is None
            },
    ensures
        mount_of(path, known, home).container == mount_of(path, known, home).host.text,
    decreases known.len(),
{
    if known.len() > 0 && known[0].path.name != path {
        let rest = known.skip(1);
        assert forall|i: int| 0 <= i < rest.len() implies {
            &&& (#[trigger] rest[i]).path.components is None
            &&& rest[i].resolved matches Some(resolved) ==> resolved.components is None
        } by {
            assert(rest[i] == known[i + 1]);
        }
        law_same_path_on_both_sides(path, rest, home);
    }
}

/// A Windows path inside the home directory stands below `/opt/home`, with the names that
/// lead to it from there. The file system may give the path in verbatim form, where the home
/// directory is in plain form.
pub proof fn law_home_paths_stand_below_opt_home(
    host: PathView,
    home: PathView,
    front: Seq<PathComponent<OsTextView>>,
    relative: Seq<PathComponent<OsTextView>>,
)
    requires
        home.components is Some,
        host.components == Some(front + relative),
        front.map_values(|c: PathComponent<OsTextView>| plain(c))
            == home.components->0.map_values(|c: PathComponent<OsTextView>| plain(c)),
    ensures
        container_path(host, Some(home)) == "/opt/home"@ + slashed(names(relative)),
{
    let base = home.components->0;
    let components = front + relative;
    let x = front.map_values(|c: PathComponent<OsTextView>| plain(c));
    let y = base.map_values(|c: PathComponent<OsTextView>| plain(c));
    assert(x.len() == y.len());
    assert forall|i: int| 0 <= i < base.len() implies plain(#[trigger] components[i]) == plain(
        base[i],
    ) by {
        assert(x[i] == y[i]);
    }
    assert(components.skip(base.len() as int) =~= relative);
    reveal_strlit("/opt/home");
    assert(without_trailing_slashes("/opt/home"@) == "/opt/home"@);
}

/// A Windows path outside the home directory stands below `/opt/host`, its drive or other
/// prefix first.
pub proof fn law_other_paths_stand_below_opt_host(
    host: PathView,
    home: Option<PathView>,
    prefix: PathPrefix<OsTextView>,
    relative: Seq<PathComponent<OsTextView>>,
)
    requires
        host.components == Some(seq![PathComponent::Prefix(prefix)] + relative),
        home matches Some(path) ==> path.components matches Some(base) ==> !leads_into(
            host.components->0,
            base,
        ),
    ensures
        container_path(host, home) == "/opt/host"@ + slashed(
            prefix_segments(prefix) + names(relative),
        ),
{
    let components = host.components->0;
    assert(components.skip(1) =~= relative);
    lemma_slashed_add(prefix_segments(prefix), names(relative));
    assert("/opt/host"@ + slashed(prefix_segments(prefix)) + slashed(names(relative))
        =~= "/opt/host"@ + slashed(prefix_segments(prefix) + names(relative)));
}

/// Segments are slashed one after the other.
proof fn lemma_slashed_add(a: Seq<Seq<char>>, b: Seq<Seq<char>>)
    ensures
        slashed(a + b) == slashed(a) + slashed(b),
    decreases b.len(),
{
    if b.len() == 0 {
        assert(a + b =~= a);
        assert(slashed(a) + slashed(b) =~= slashed(a));
    } else {
        lemma_slashed_add(a, b.drop_last());
        assert((a + b).drop_last() =~= a + b.drop_last());
        assert(slashed(a + b) =~= slashed(a) + slashed(b));
    }
}

/// A Windows path is a Linux path inside the container: absolute, below `/opt`.
pub proof fn law_windows_paths_stand_below_opt(host: PathView, home: Option<PathView>)
    requires
        host.components is Some,
    ensures
        "/opt/"@.is_prefix_of(container_path(host, home)),
{
    reveal_strlit("/opt/");
    reveal_strlit("/opt/home");
    reveal_strlit("/opt/host");
    assert(without_trailing_slashes("/opt/home"@) == "/opt/home"@);
    assert(container_path(host, home).take(5) =~= "/opt/"@);
}

/// The names of a path are kept in their order, and nothing else of it is.
pub proof fn law_names_are_kept_in_order(
    a: Seq<PathComponent<OsTextView>>,
    b: Seq<PathComponent<OsTextView>>,
    component: PathComponent<OsTextView>,
)
    ensures
        names(a + b) == names(a) + names(b),
        names(seq![component]) == match component {
            PathComponent::Normal(name) => seq![name.text],
            _ => Seq::empty(),
        },
    decreases b.len(),
{
    let none = Seq::<PathComponent<OsTextView>>::empty();
    assert(seq![component].drop_last() =~= none);
    assert(names(none) =~= Seq::<Seq<char>>::empty());
    assert(seq![component].last() == component);
    assert(names(seq![component]) =~= match component {
        PathComponent::Normal(name) => seq![name.text],
        _ => Seq::empty(),
    });
    if b.len() == 0 {
        assert(a + b =~= a);
        assert(names(a) + names(b) =~= names(a));
    } else {
        law_names_are_kept_in_order(a, b.drop_last(), component);
        assert((a + b).drop_last() =~= a + b.drop_last());
        assert((a + b).last() == b.last());
        assert(names(a + b) =~= names(a) + names(b));
    }
}

/// Segments stand one after the other, each behind one slash.
pub proof fn law_segments_stand_behind_slashes(
    a: Seq<Seq<char>>,
    b: Seq<Seq<char>>,
    segment: Seq<char>,
)
    ensures
        slashed(a + b) == slashed(a) + slashed(b),
        slashed(seq![segment]) == seq!['/'] + segment,
        slashed(Seq::<Seq<char>>::empty()).len() == 0,
{
    lemma_slashed_add(a, b);
    let none = Seq::<Seq<char>>::empty();
    assert(seq![segment].drop_last() =~= none);
    assert(slashed(none) =~= Seq::<char>::empty());
    assert(slashed(seq![segment]) == slashed(none) + seq!['/'] + segment);
    assert(slashed(seq![segment]) =~= seq!['/'] + segment);
}

/// A drive becomes its letter in lower case, a share the word `unc`, its server and its name,
/// and any other prefix its name; the verbatim form makes no difference.
pub proof fn law_prefixes_become_segments(drive: u8, server: OsTextView, share: OsTextView)
    ensures
        prefix_segments(PathPrefix::Disk(drive)) == seq![
            seq![
                if 65 <= drive <= 90 {
                    (drive + 32) as char
                } else {
                    drive as char
                },
            ],
        ],
        prefix_segments(PathPrefix::VerbatimDisk(drive)) == prefix_segments(
            PathPrefix::Disk(drive),
        ),
        prefix_segments(PathPrefix::Unc(server, share)) == seq!["unc"@, server.text, share.text],
        prefix_segments(PathPrefix::VerbatimUnc(server, share)) == prefix_segments(
            PathPrefix::Unc(server, share),
        ),
        prefix_segments(PathPrefix::Verbatim(share)) == seq![share.text],
        prefix_segments(PathPrefix::DeviceNs(share)) == seq![share.text],
{
}

/// Two components count as the same exactly where they are, but for the verbatim form of a drive
/// or of a share.
pub proof fn law_only_the_verbatim_form_is_passed_over(
    a: PathComponent<OsTextView>,
    b: PathComponent<OsTextView>,
)
    ensures
        plain(a) == plain(b) <==> {
            ||| a == b
            ||| exists|drive: u8| #[trigger] is_drive(a, drive) && is_drive(b, drive)
            ||| exists|server: OsTextView, share: OsTextView| #[trigger]
                is_share(a, server, share) && is_share(b, server, share)
        },
{
    if plain(a) == plain(b) && a != b {
        match a {
            PathComponent::Prefix(PathPrefix::Disk(drive)) => {
                assert(is_drive(a, drive) && is_drive(b, drive));
            },
            PathComponent::Prefix(PathPrefix::VerbatimDisk(drive)) => {
                assert(is_drive(a, drive) && is_drive(b, drive));
            },
            PathComponent::Prefix(PathPrefix::Unc(server, share)) => {
                assert(is_share(a, server, share) && is_share(b, server, share));
            },
            PathComponent::Prefix(PathPrefix::VerbatimUnc(server, share)) => {
                assert(is_share(a, server, share) && is_share(b, server, share));
            },
            _ => {},
        }
    }
}

/// Whether a component is some drive, in either form.
pub open spec fn is_drive(component: PathComponent<OsTextView>, drive: u8) -> bool {
    ||| component == PathComponent::<OsTextView>::Prefix(PathPrefix::Disk(drive))
    ||| component == PathComponent::<OsTextView>::Prefix(PathPrefix::VerbatimDisk(drive))
}

/// Whether a component is some share, in either form.
pub open spec fn is_share(
    component: PathComponent<OsTextView>,
    server: OsTextView,
    share: OsTextView,
) -> bool {
    ||| component == PathComponent::Prefix(PathPrefix::Unc(server, share))
    ||| component == PathComponent::Prefix(PathPrefix::VerbatimUnc(server, share))
}

/// A path leads into a directory exactly where its first components are those of the directory.
pub proof fn law_a_path_leads_where_it_begins(
    front: Seq<PathComponent<OsTextView>>,
    relative: Seq<PathComponent<OsTextView>>,
    i: int,
    other: PathComponent<OsTextView>,
)
    requires
        0 <= i < front.len(),
        plain(other) != plain(front[i]),
    ensures
        leads_into(front + relative, front),
        !leads_into(front.update(i, other) + relative, front),
        !leads_into(front.drop_last(), front),
{
    let turned = front.update(i, other) + relative;
    assert(turned[i] == other);
}

/// What the file system resolves a path to is mounted in its place, and what is known first
/// counts. A path that does not resolve, or of which nothing is known, is mounted itself.
pub proof fn law_the_resolved_path_is_mounted(
    front: Seq<FactsView>,
    facts: FactsView,
    back: Seq<FactsView>,
    home: Option<PathView>,
)
    requires
        forall|i: int| 0 <= i < front.len() ==> (#[trigger] front[i]).path.name != facts.path.name,
    ensures
        ({
            let mount = mount_of(facts.path.name, front + seq![facts] + back, home);
            let host = if facts.resolved is Some {
                facts.resolved->0
            } else {
                facts.path
            };
            &&& mount.host == host.name
            &&& mount.container == container_path(host, home)
        }),
        mount_of(facts.path.name, front, home) == (MountView {
            host: facts.path.name,
            container: facts.path.name.text,
        }),
    decreases front.len(),
{
    let all = front + seq![facts] + back;
    if front.len() == 0 {
        assert(all[0] == facts);
    } else {
        let rest = front.skip(1);
        assert(front[0].path.name != facts.path.name);
        assert forall|i: int| 0 <= i < rest.len() implies (#[trigger] rest[i]).path.name
            != facts.path.name by {
            assert(rest[i] == front[i + 1]);
        }
        law_the_resolved_path_is_mounted(rest, facts, back, home);
        assert(all[0] == front[0]);
        assert(all.skip(1) =~= rest + seq![facts] + back);
    }
}

/// A path of a host that is no Windows machine stands where it is. A Windows path without a
/// prefix stands below `/opt/host` by the names behind its first component.
pub proof fn law_paths_without_a_prefix(
    name: OsTextView,
    home: Option<PathView>,
    first: PathComponent<OsTextView>,
    rest: Seq<PathComponent<OsTextView>>,
)
    requires
        !(first is Prefix),
        home matches Some(path) ==> path.components matches Some(base) ==> base.len() > 0
            && !leads_into(seq![first] + rest, base),
    ensures
        container_path(PathView { name, components: None }, home) == name.text,
        container_path(PathView { name, components: Some(Seq::empty()) }, home) == "/opt/host"@,
        container_path(PathView { name, components: Some(seq![first] + rest) }, home)
            == "/opt/host"@ + slashed(names(rest)),
{
    let components = seq![first] + rest;
    assert(components[0] == first);
    assert(components.skip(1) =~= rest);
    assert("/opt/host"@ + slashed(Seq::empty()) =~= "/opt/host"@);
}

/// A container path loses the slashes at its end before names are put below it, and only those.
pub proof fn law_slashes_at_the_end_are_dropped(
    base: Seq<char>,
    relative: Seq<PathComponent<OsTextView>>,
)
    ensures
        joined_below(base.push('/'), relative) == joined_below(base, relative),
        base.len() == 0 || base[base.len() - 1] != '/' ==> joined_below(base, relative) == base
            + slashed(names(relative)),
{
    assert(base.push('/').drop_last() =~= base);
}

} // verus!
