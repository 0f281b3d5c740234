//! The command line: what it says, and how its paths and switches are settled.

use crate::os_text;
use crate::os_text::OsText;
use crate::platform;
use crate::platform::{current_home, is_windows};
use crate::text;
use crate::text::{chars_of, same, strip_prefix};
use vstd::prelude::*;

verus! {

/// The arguments of the program.
#[derive(Debug, Clone)]
pub struct Args {
    /// Container engine to use (auto-detected if not set).
    pub engine: Option<String>,
    /// Working directory to mount into the container.
    pub workdir: Option<OsText>,
    /// Don't mount any working directory into the container.
    pub no_workdir: bool,
    /// Additional directories to mount into the container.
    pub extra_mounts: Vec<OsText>,
    /// Host environment variables to expose to the container: names, or prefixes that end
    /// with `*`.
    pub expose_env: Vec<String>,
    /// Network mode for the container.
    pub network: Option<String>,
    /// Additional packages to install in the container.
    pub packages: Vec<String>,
    /// Force rebuild of the container image even if it already exists.
    pub rebuild: bool,
    /// Ports to expose from the container, in `HOST:CONTAINER` format.
    pub ports: Vec<String>,
    /// Run the container as the current user.
    pub user_map: bool,
    /// Don't map the current user into the container.
    pub no_user_map: bool,
    /// Print what would be run, then exit.
    pub dry_run: bool,
    /// The command and arguments to run inside the container.
    pub command: Vec<String>,
}

/// What [`Args`] are about.
pub struct ArgsView {
    pub engine: Option<Seq<char>>,
    pub workdir: Option<os_text::OsTextView>,
    pub no_workdir: bool,
    pub extra_mounts: Seq<os_text::OsTextView>,
    pub expose_env: Seq<Seq<char>>,
    pub network: Option<Seq<char>>,
    pub packages: Seq<Seq<char>>,
    pub rebuild: bool,
    pub ports: Seq<Seq<char>>,
    pub user_map: bool,
    pub no_user_map: bool,
    pub dry_run: bool,
    pub command: Seq<Seq<char>>,
}

impl DeepView for Args {
    type V = ArgsView;

    open spec fn deep_view(&self) -> ArgsView {
        ArgsView {
            engine: self.engine.deep_view(),
            workdir: self.workdir.deep_view(),
            no_workdir: self.no_workdir,
            extra_mounts: self.extra_mounts.deep_view(),
            expose_env: self.expose_env.deep_view(),
            network: self.network.deep_view(),
            packages: self.packages.deep_view(),
            rebuild: self.rebuild,
            ports: self.ports.deep_view(),
            user_map: self.user_map,
            no_user_map: self.no_user_map,
            dry_run: self.dry_run,
            command: self.command.deep_view(),
        }
    }
}

/// Whether a character separates the components of a path: a slash, and on Windows also a
/// backslash.
pub open spec fn is_path_separator(c: char, windows: bool) -> bool {
    c == '/' || (windows && c == '\\')
}

/// A path without the separators in front of it.
pub open spec fn without_leading_separators(path: Seq<char>, windows: bool) -> Seq<char>
    decreases path.len(),
{
    if path.len() > 0 && is_path_separator(path[0], windows) {
        without_leading_separators(path.skip(1), windows)
    } else {
        path
    }
}

/// Whether a path is nothing but a drive, such as `C:`, which stands for the current directory
/// of that drive.
pub open spec fn is_bare_drive(path: Seq<char>, windows: bool) -> bool {
    windows && path.len() == 2 && path[1] == ':' && ('a' <= path[0] <= 'z' || 'A' <= path[0] <= 'Z')
}

/// What stands between a directory and a path below it.
pub open spec fn separator_behind(base: Seq<char>, windows: bool) -> Seq<char> {
    if base.len() == 0 || is_path_separator(base.last(), windows) || is_bare_drive(base, windows) {
        Seq::empty()
    } else if windows {
        seq!['\\']
    } else {
        seq!['/']
    }
}

/// A path below a directory, whatever separators stand in front of it.
pub open spec fn path_below(
    base: os_text::OsTextView,
    relative: Seq<char>,
    windows: bool,
) -> os_text::OsTextView {
    os_text::extended(
        base,
        separator_behind(base.text, windows) + without_leading_separators(relative, windows),
    )
}

/// A path with a leading `~` replaced by the home directory, where there is one. Only a `~`
/// that stands alone or before a slash is.
pub open spec fn expanded(
    path: os_text::OsTextView,
    home: Option<os_text::OsTextView>,
    windows: bool,
) -> os_text::OsTextView {
    match home {
        None => path,
        Some(home) => if path.text == "~"@ {
            home
        } else {
            match text::without_prefix(path.text, "~/"@) {
                Some(rest) => path_below(home, rest, windows),
                None => path,
            }
        },
    }
}

/// Whether a path begins with a `~` that stands for the home directory.
pub open spec fn has_tilde(path: os_text::OsTextView) -> bool {
    path.text == "~"@ || "~/"@.is_prefix_of(path.text)
}

/// Arguments with their paths expanded, and with the user mapped only where nothing forbids it.
pub open spec fn settled(
    args: ArgsView,
    home: Option<os_text::OsTextView>,
    windows: bool,
) -> ArgsView {
    ArgsView {
        workdir: match args.workdir {
            Some(path) => Some(expanded(path, home, windows)),
            None => None,
        },
        extra_mounts: args.extra_mounts.map_values(
            |path: os_text::OsTextView| expanded(path, home, windows),
        ),
        user_map: args.user_map && !args.no_user_map,
        ..args
    }
}

/// Whether no path of some arguments begins with a `~` that stands for the home directory.
pub open spec fn names_no_home(args: ArgsView) -> bool {
    &&& args.workdir matches Some(path) ==> !has_tilde(path)
    &&& forall|i: int|
        0 <= i < args.extra_mounts.len() ==> !has_tilde(#[trigger] args.extra_mounts[i])
}

/// Whether a character separates the components of a path.
fn separates(c: char, windows: bool) -> (r: bool)
    ensures
        r == is_path_separator(c, windows),
{
    c == '/' || (windows && c == '\\')
}

/// Whether a path is nothing but a drive.
fn names_drive(path: &str, windows: bool) -> (r: bool)
    ensures
        r == is_bare_drive(path@, windows),
{
    if !windows || path.unicode_len() != 2 || path.get_char(1) != ':' {
        return false;
    }
    let letter = path.get_char(0);
    ('a' <= letter && letter <= 'z') || ('A' <= letter && letter <= 'Z')
}

/// A path below a directory.
fn join_path(base: &OsText, relative: &str, windows: bool) -> (r: OsText)
    ensures
        r.deep_view() == path_below(base.deep_view(), relative@, windows),
{
    let chars = chars_of(relative);
    let mut start: usize = 0;
    assert(relative@.skip(0) =~= relative@);
    while start < chars.len() && separates(chars[start], windows)
        invariant
            chars@ == relative@,
            start <= chars.len(),
            without_leading_separators(relative@.skip(start as int), windows)
                == without_leading_separators(relative@, windows),
        decreases chars.len() - start,
    {
        assert(relative@.skip(start as int).skip(1) =~= relative@.skip(start + 1));
        start = start + 1;
    }
    let rest = relative.substring_char(start, chars.len());
    assert(rest@ =~= relative@.skip(start as int));
    let shown = base.text.as_str();
    let len: usize = shown.unicode_len();
    let mut tail = String::new();
    if len > 0 && !separates(shown.get_char(len - 1), windows) && !names_drive(shown, windows) {
        tail.push(if windows { '\\' } else { '/' });
    }
    assert(tail@ =~= separator_behind(shown@, windows));
    tail.append(rest);
    base.extend(tail.as_str())
}

/// Expand a leading `~` to some home directory, on Windows or elsewhere.
pub fn expand_tilde_in(path: &OsText, home: &Option<OsText>, windows: bool) -> (r: OsText)
    ensures
        r.deep_view() == expanded(path.deep_view(), home.deep_view(), windows),
{
    match home {
        None => path.copy(),
        Some(home) => if same(path.text.as_str(), "~") {
            home.copy()
        } else {
            match strip_prefix(path.text.as_str(), "~/") {
                Some(rest) => join_path(home, rest, windows),
                None => path.copy(),
            }
        },
    }
}

/// Expand a leading `~` to the user's home directory.
pub fn expand_tilde(path: &OsText) -> (r: OsText)
    ensures
        exists|home: Option<os_text::OsTextView>, windows: bool|
            platform::is_home_dir(home) && platform::may_be_windows(windows) && r.deep_view()
                == #[trigger] expanded(path.deep_view(), home, windows),
        !has_tilde(path.deep_view()) ==> r.deep_view() == path.deep_view(),
{
    let home = current_home();
    let windows = is_windows();
    let r = expand_tilde_in(path, &home, windows);
    assert(r.deep_view() == expanded(path.deep_view(), home.deep_view(), windows));
    r
}

/// Settles arguments for some home directory, on Windows or elsewhere.
pub fn parse_in(args: Args, home: &Option<OsText>, windows: bool) -> (r: Args)
    ensures
        r.deep_view() == settled(args.deep_view(), home.deep_view(), windows),
{
    let ghost view = args.deep_view();
    let mut args = args;
    if args.no_user_map {
        args.user_map = false;
    }
    let mut mounts: Vec<OsText> = Vec::new();
    for i in 0..args.extra_mounts.len()
        invariant
            mounts.len() == i,
            args.extra_mounts.deep_view() == view.extra_mounts,
            forall|j: int|
                0 <= j < i ==> (#[trigger] mounts[j]).deep_view() == expanded(
                    view.extra_mounts[j],
                    home.deep_view(),
                    windows,
                ),
    {
        assert(args.extra_mounts.deep_view()[i as int] == args.extra_mounts[i as int].deep_view());
        mounts.push(expand_tilde_in(&args.extra_mounts[i], home, windows));
    }
    assert(mounts.deep_view() =~= settled(view, home.deep_view(), windows).extra_mounts);
    args.extra_mounts = mounts;
    let workdir = match &args.workdir {
        Some(path) => Some(expand_tilde_in(path, home, windows)),
        None => None,
    };
    args.workdir = workdir;
    args
}

/// Settles arguments as they were read from the command line, for the home directory of the
/// user.
pub fn parse(args: Args) -> (r: Args)
    ensures
        exists|home: Option<os_text::OsTextView>, windows: bool|
            platform::is_home_dir(home) && platform::may_be_windows(windows) && r.deep_view()
                == #[trigger] settled(args.deep_view(), home, windows),
        names_no_home(args.deep_view()) ==> r.deep_view() == settled(
            args.deep_view(),
            None,
            false,
        ),
{
    let home = current_home();
    let windows = is_windows();
    let ghost view = args.deep_view();
    let r = parse_in(args, &home, windows);
    assert(r.deep_view() == settled(view, home.deep_view(), windows));
    proof {
        if names_no_home(view) {
            law_home_matters_only_where_named(view, home.deep_view(), windows, None, false);
        }
    }
    r
}

/// A path that does not begin with a `~` of its own, such as `~alice/project`, is kept.
pub proof fn law_other_paths_are_kept(
    path: os_text::OsTextView,
    home: Option<os_text::OsTextView>,
    windows: bool,
)
    requires
        !has_tilde(path),
    ensures
        expanded(path, home, windows) == path,
{
}

/// Arguments in which no path names the home directory are settled alike for every user on
/// every machine.
pub proof fn law_home_matters_only_where_named(
    args: ArgsView,
    home: Option<os_text::OsTextView>,
    windows: bool,
    other_home: Option<os_text::OsTextView>,
    other_windows: bool,
)
    requires
        names_no_home(args),
    ensures
        settled(args, home, windows) == settled(args, other_home, other_windows),
{
    assert(settled(args, home, windows).extra_mounts =~= settled(
        args,
        other_home,
        other_windows,
    ).extra_mounts);
}

/// What stands behind a leading `~` stands below the home directory, whatever separators it
/// begins with. The bytes of the home directory are kept, Unicode or not.
pub proof fn law_expanded_paths_stand_below_home(
    path: os_text::OsTextView,
    rest: Seq<char>,
    home: os_text::OsTextView,
    windows: bool,
)
    requires
        path.text == "~/"@ + rest,
    ensures
        ({
            let r = expanded(path, Some(home), windows);
            let below = without_leading_separators(rest, windows);
            &&& r.text == home.text + separator_behind(home.text, windows) + below
            &&& home.text.is_prefix_of(r.text)
            &&& home.bytes.is_prefix_of(r.bytes)
            &&& below.is_suffix_of(r.text)
            &&& below.len() > 0 ==> !is_path_separator(below[0], windows)
        }),
{
    let below = without_leading_separators(rest, windows);
    reveal_strlit("~/");
    reveal_strlit("~");
    assert(path.text.take(2) =~= "~/"@);
    assert(path.text.skip(2) =~= rest);
    assert(path.text.len() >= 2);
    let r = expanded(path, Some(home), windows);
    assert(r == path_below(home, rest, windows));
    assert(r.text =~= home.text + separator_behind(home.text, windows) + below);
    assert(r.text.take(home.text.len() as int) =~= home.text);
    assert(r.bytes.take(home.bytes.len() as int) =~= home.bytes);
    assert(r.text.skip(r.text.len() - below.len()) =~= below);
    lemma_no_leading_separator(rest, windows);
}

/// Unicode paths stay Unicode: where the path and the home directory are, what comes of them
/// is.
pub proof fn law_unicode_paths_stay_unicode(path: Seq<char>, home: Seq<char>, windows: bool)
    ensures
        ({
            let r = expanded(os_text::unicode(path), Some(os_text::unicode(home)), windows);
            r == os_text::unicode(r.text)
        }),
{
    if let Some(rest) = text::without_prefix(path, "~/"@) {
        os_text::law_unicode_stays_unicode(
            home,
            separator_behind(home, windows) + without_leading_separators(rest, windows),
        );
    }
}

/// Nothing is left of the separators in front of a path.
proof fn lemma_no_leading_separator(path: Seq<char>, windows: bool)
    ensures
        ({
            let rest = without_leading_separators(path, windows);
            rest.len() > 0 ==> !is_path_separator(rest[0], windows)
        }),
    decreases path.len(),
{
    if path.len() > 0 && is_path_separator(path[0], windows) {
        lemma_no_leading_separator(path.skip(1), windows);
    }
}

/// Settling changes nothing of the command, and of the rest only paths and the user mapping.
/// The user is mapped only where nothing forbids it.
pub proof fn law_settling_keeps_the_command(
    args: ArgsView,
    home: Option<os_text::OsTextView>,
    windows: bool,
)
    ensures
        ({
            let r = settled(args, home, windows);
            &&& r.command == args.command
            &&& r.extra_mounts.len() == args.extra_mounts.len()
            &&& r.workdir is Some <==> args.workdir is Some
            &&& r.user_map ==> !args.no_user_map
            &&& r == (ArgsView {
                workdir: r.workdir,
                extra_mounts: r.extra_mounts,
                user_map: r.user_map,
                ..args
            })
        }),
{
}

/// A `~` alone is the home directory. Without a home directory every path is kept.
pub proof fn law_a_tilde_alone_is_the_home(
    path: os_text::OsTextView,
    home: os_text::OsTextView,
    windows: bool,
)
    ensures
        path.text == seq!['~'] ==> expanded(path, Some(home), windows) == home,
        expanded(path, None, windows) == path,
{
    reveal_strlit("~");
    assert("~"@ =~= seq!['~']);
}

/// The separators in front of a path are dropped, all of them and nothing else.
pub proof fn law_only_separators_are_dropped(path: Seq<char>, windows: bool) -> (front: Seq<char>)
    ensures
        path == front + without_leading_separators(path, windows),
        forall|i: int|
            0 <= i < front.len() ==> (#[trigger] front[i]) == '/' || (windows && front[i] == '\\'),
        without_leading_separators(path, windows).len() > 0 ==> ({
            let c = without_leading_separators(path, windows)[0];
            c != '/' && !(windows && c == '\\')
        }),
    decreases path.len(),
{
    if path.len() > 0 && is_path_separator(path[0], windows) {
        let rest = law_only_separators_are_dropped(path.skip(1), windows);
        let front = seq![path[0]] + rest;
        assert(path =~= seq![path[0]] + path.skip(1));
        assert(path =~= front + without_leading_separators(path, windows));
        front
    } else {
        assert(path =~= Seq::<char>::empty() + path);
        Seq::empty()
    }
}

/// One separator stands between a directory and a path below it, that of the host, unless the
/// directory ends with one, is empty, or is a drive alone.
pub proof fn law_one_separator_stands_between(base: Seq<char>)
    ensures
        base.len() == 0 || base[base.len() - 1] == '/' ==> separator_behind(base, false).len() == 0
            && separator_behind(base, true).len() == 0,
        base.len() > 0 && base[base.len() - 1] == '\\' ==> separator_behind(base, true).len() == 0,
        base.len() > 0 && base[base.len() - 1] != '/' ==> separator_behind(base, false) == seq![
            '/',
        ],
        base.len() > 0 && base[base.len() - 1] != '/' && base[base.len() - 1] != '\\'
            && base[base.len() - 1] != ':' ==> separator_behind(base, true) == seq!['\\'],
        base.len() > 2 && base[base.len() - 1] == ':' ==> separator_behind(base, true) == seq![
            '\\',
        ],
        base.len() == 2 && base[1] == ':' ==> (separator_behind(base, true).len() == 0 <==> (
        'a' <= base[0] <= 'z' || 'A' <= base[0] <= 'Z')),
{
}

/// Every path of the arguments is expanded by itself, in its place, and the user is mapped
/// exactly where that is asked for and not forbidden.
pub proof fn law_every_path_is_settled_by_itself(
    args: ArgsView,
    home: Option<os_text::OsTextView>,
    windows: bool,
)
    ensures
        ({
            let r = settled(args, home, windows);
            &&& r.extra_mounts.len() == args.extra_mounts.len()
            &&& forall|i: int|
                0 <= i < args.extra_mounts.len() ==> #[trigger] r.extra_mounts[i] == expanded(
                    args.extra_mounts[i],
                    home,
                    windows,
                )
            &&& args.workdir matches Some(path) ==> r.workdir == Some(expanded(path, home, windows))
            &&& args.workdir is None ==> r.workdir is None
            &&& r.user_map <==> args.user_map && !args.no_user_map
        }),
{
}

} // verus!
