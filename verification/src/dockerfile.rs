//! The Dockerfile of a command: which runner the command uses, and how its image is made.

use crate::packages;
use crate::packages::{canonicalize, label_value, PACKAGES_LABEL_KEY};
use crate::platform;
use crate::platform::json_text;
use crate::text;
use crate::text::{decimal_text, join, push_text, same};
use vstd::prelude::*;

verus! {

/// The tool that runs a wrapped command.
#[derive(Debug, Clone, Copy, PartialEq, Eq, Structural)]
pub enum Runner {
    Uvx,
    Npx,
    Pipx,
}

/// The first word of a command is none of the runners.
#[derive(Debug)]
pub struct UnsupportedRunner {
    pub name: String,
}

impl UnsupportedRunner {
    /// The message that the error shows.
    pub open spec fn text(self) -> Seq<char> {
        "Unsupported runner `"@ + self.name@ + "`. Supported runners: uvx, npx, pipx"@
    }

    /// The message that the error shows.
    pub fn message(&self) -> (r: String)
        ensures
            r@ == self.text(),
    {
        "Unsupported runner `".to_owned().concat(self.name.as_str()).concat(
            "`. Supported runners: uvx, npx, pipx",
        )
    }
}

/// The runner of some name.
pub open spec fn named_runner(name: Seq<char>) -> Option<Runner> {
    if name == "uvx"@ {
        Some(Runner::Uvx)
    } else if name == "npx"@ {
        Some(Runner::Npx)
    } else if name == "pipx"@ {
        Some(Runner::Pipx)
    } else {
        None
    }
}

impl Runner {
    /// The runner that a command names.
    pub fn detect(name: &str) -> (r: Result<Runner, UnsupportedRunner>)
        ensures
            match named_runner(name@) {
                Some(runner) => r matches Ok(found) && found == runner,
                None => r matches Err(error) && error.name@ == name@,
            },
    {
        if same(name, "uvx") {
            Ok(Runner::Uvx)
        } else if same(name, "npx") {
            Ok(Runner::Npx)
        } else if same(name, "pipx") {
            Ok(Runner::Pipx)
        } else {
            Err(UnsupportedRunner { name: name.to_owned() })
        }
    }
}

/// The instructions that bring a runner, on an official base image.
pub open spec fn base_instructions(runner: Runner) -> Seq<Seq<char>> {
    match runner {
        Runner::Uvx => seq!["FROM python:3-alpine"@, "RUN pip install --no-cache-dir uv"@],
        Runner::Npx => seq!["FROM node:lts-alpine"@],
        Runner::Pipx => seq!["FROM python:3-alpine"@, "RUN pip install --no-cache-dir pipx"@],
    }
}

/// The instruction that installs some packages, if there are any.
pub open spec fn package_instructions(requested: Seq<Seq<char>>) -> Seq<Seq<char>> {
    if packages::canonical(requested).len() == 0 {
        Seq::empty()
    } else {
        seq!["RUN apk add --no-cache "@ + text::joined(packages::canonical(requested), " "@)]
    }
}

/// The instruction that records some packages in a label of the image.
pub open spec fn label_instruction(requested: Seq<Seq<char>>) -> Seq<char> {
    "LABEL "@ + PACKAGES_LABEL_KEY@ + "=\""@ + packages::label(requested) + "\""@
}

/// The instruction that exposes a port.
pub open spec fn expose_instruction(port: u16) -> Seq<char> {
    "EXPOSE "@ + text::decimal(port as nat)
}

/// The instruction that exposes a port, if there is one.
pub open spec fn expose_instructions(expose_port: Option<u16>) -> Seq<Seq<char>> {
    match expose_port {
        Some(port) => seq![expose_instruction(port)],
        None => Seq::empty(),
    }
}

/// The instructions of a Dockerfile. The entrypoint is a JSON array.
pub open spec fn instructions(
    runner: Runner,
    entrypoint: Seq<char>,
    expose_port: Option<u16>,
    requested: Seq<Seq<char>>,
) -> Seq<Seq<char>> {
    base_instructions(runner) + package_instructions(requested) + seq![
        label_instruction(requested),
    ] + expose_instructions(expose_port) + seq!["ENTRYPOINT "@ + entrypoint]
}

/// Texts as lines, each with a line break behind it.
pub open spec fn lines(list: Seq<Seq<char>>) -> Seq<char>
    decreases list.len(),
{
    if list.len() == 0 {
        Seq::empty()
    } else {
        lines(list.drop_last()) + list.last() + "\n"@
    }
}

/// A Dockerfile.
pub open spec fn dockerfile(
    runner: Runner,
    entrypoint: Seq<char>,
    expose_port: Option<u16>,
    requested: Seq<Seq<char>>,
) -> Seq<char> {
    lines(instructions(runner, entrypoint, expose_port, requested))
}

/// Texts as lines.
fn lines_of(list: &Vec<String>) -> (r: String)
    ensures
        r@ == lines(list.deep_view()),
{
    let ghost all = list.deep_view();
    let mut out = String::new();
    for i in 0..list.len()
        invariant
            all == list.deep_view(),
            out@ == lines(all.take(i as int)),
    {
        out.append(list[i].as_str());
        out.append("\n");
        assert(all.take(i + 1).drop_last() =~= all.take(i as int));
        assert(all.take(i + 1).last() == list[i as int]@);
    }
    assert(all.take(list.len() as int) =~= all);
    out
}

/// The Dockerfile of a command that is written as a JSON array.
pub fn generate_for(
    runner: Runner,
    entrypoint: &str,
    expose_port: Option<u16>,
    requested: &[String],
) -> (r: String)
    ensures
        r@ == dockerfile(runner, entrypoint@, expose_port, requested.deep_view()),
{
    let ghost names = requested.deep_view();
    let mut list: Vec<String> = Vec::new();
    match runner {
        Runner::Uvx => {
            push_text(&mut list, "FROM python:3-alpine");
            push_text(&mut list, "RUN pip install --no-cache-dir uv");
        },
        Runner::Npx => {
            push_text(&mut list, "FROM node:lts-alpine");
        },
        Runner::Pipx => {
            push_text(&mut list, "FROM python:3-alpine");
            push_text(&mut list, "RUN pip install --no-cache-dir pipx");
        },
    }
    let ghost mut expected = base_instructions(runner);
    assert(list.deep_view() =~= expected);

    let chosen = canonicalize(requested);
    if chosen.len() > 0 {
        let install = "RUN apk add --no-cache ".to_owned().concat(
            join(chosen.as_slice(), " ").as_str(),
        );
        push_text(&mut list, install.as_str());
    }
    proof {
        expected = expected + package_instructions(names);
        assert(list.deep_view() =~= expected);
    }

    let label = "LABEL ".to_owned().concat(PACKAGES_LABEL_KEY).concat("=\"").concat(
        label_value(requested).as_str(),
    ).concat("\"");
    push_text(&mut list, label.as_str());
    proof {
        expected = expected + seq![label_instruction(names)];
        assert(list.deep_view() =~= expected);
    }

    if let Some(port) = expose_port {
        let number = decimal_text(port as u32);
        push_text(&mut list, "EXPOSE ".to_owned().concat(number.as_str()).as_str());
    }
    proof {
        expected = expected + expose_instructions(expose_port);
        assert(list.deep_view() =~= expected);
    }

    push_text(&mut list, "ENTRYPOINT ".to_owned().concat(entrypoint).as_str());
    assert(list.deep_view() =~= instructions(runner, entrypoint@, expose_port, names));
    lines_of(&list)
}

/// The Dockerfile of a command.
pub fn generate(
    runner: Runner,
    command: &[String],
    expose_port: Option<u16>,
    requested: &[String],
) -> (r: String)
    ensures
        r@ == dockerfile(
            runner,
            platform::json_list(command.deep_view()),
            expose_port,
            requested.deep_view(),
        ),
{
    let entrypoint = json_text(command).unwrap();
    generate_for(runner, entrypoint.as_str(), expose_port, requested)
}

/// Whether an instruction exposes a port.
pub open spec fn exposes(instruction: Seq<char>) -> bool {
    "EXPOSE "@.is_prefix_of(instruction)
}

/// A port is exposed exactly where one is given, and it is the one that is given.
pub proof fn law_only_a_given_port_is_exposed(
    runner: Runner,
    entrypoint: Seq<char>,
    expose_port: Option<u16>,
    requested: Seq<Seq<char>>,
)
    ensures
        ({
            let list = instructions(runner, entrypoint, expose_port, requested);
            &&& expose_port matches Some(port) ==> list.contains(expose_instruction(port))
            &&& forall|i: int|
                0 <= i < list.len() && exposes(#[trigger] list[i]) ==> (expose_port matches Some(
                    port,
                ) && list[i] == expose_instruction(port))
        }),
{
    let list = instructions(runner, entrypoint, expose_port, requested);
    let base = base_instructions(runner);
    let install = package_instructions(requested);
    let front = base + install + seq![label_instruction(requested)];
    reveal_strlit("EXPOSE ");
    reveal_strlit("ENTRYPOINT ");
    reveal_strlit("LABEL ");
    reveal_strlit("RUN apk add --no-cache ");
    reveal_strlit("FROM python:3-alpine");
    reveal_strlit("FROM node:lts-alpine");
    reveal_strlit("RUN pip install --no-cache-dir uv");
    reveal_strlit("RUN pip install --no-cache-dir pipx");
    if let Some(port) = expose_port {
        assert(list[front.len() as int] == expose_instruction(port));
    }
    assert forall|i: int| 0 <= i < list.len() && exposes(#[trigger] list[i]) implies (
    expose_port matches Some(port) && list[i] == expose_instruction(port)) by {
        assert(list[i].take(7)[0] == 'E' && list[i].take(7)[1] == 'X');
        assert(list[i][0] == 'E' && list[i][1] == 'X');
        if i < base.len() {
            assert(list[i] == base[i]);
        } else if i < base.len() + install.len() {
            assert(list[i] == install[i - base.len()]);
        } else if i < front.len() {
            assert(list[i] == label_instruction(requested));
        } else if i == list.len() - 1 {
            assert(list[i] == "ENTRYPOINT "@ + entrypoint);
        }
    }
}

/// An image is labelled with the packages that it was asked for, whatever else is in it, and
/// starts with the entrypoint.
pub proof fn law_the_image_records_its_packages(
    runner: Runner,
    entrypoint: Seq<char>,
    expose_port: Option<u16>,
    requested: Seq<Seq<char>>,
)
    ensures
        instructions(runner, entrypoint, expose_port, requested).contains(
            label_instruction(requested),
        ),
        instructions(runner, entrypoint, expose_port, requested).last() == "ENTRYPOINT "@
            + entrypoint,
{
    let list = instructions(runner, entrypoint, expose_port, requested);
    let front = base_instructions(runner) + package_instructions(requested);
    assert(list[front.len() as int] == label_instruction(requested));
}

/// The Dockerfile depends only on which packages are named: not on their order, on how often
/// one is named, nor on the white space around a name.
pub proof fn law_dockerfile_by_names(
    runner: Runner,
    entrypoint: Seq<char>,
    expose_port: Option<u16>,
    requested: Seq<Seq<char>>,
    others: Seq<Seq<char>>,
)
    requires
        forall|name: Seq<char>|
            packages::is_requested(requested, name) <==> packages::is_requested(others, name),
    ensures
        dockerfile(runner, entrypoint, expose_port, requested) == dockerfile(
            runner,
            entrypoint,
            expose_port,
            others,
        ),
{
    packages::law_canonical_by_names(requested, others);
}

/// The three runners are known by their names, and no other name is a runner.
pub proof fn law_runners_are_known_by_name(name: Seq<char>)
    ensures
        named_runner(name) == Some(Runner::Uvx) <==> name == "uvx"@,
        named_runner(name) == Some(Runner::Npx) <==> name == "npx"@,
        named_runner(name) == Some(Runner::Pipx) <==> name == "pipx"@,
        named_runner(name) is None <==> name != "uvx"@ && name != "npx"@ && name != "pipx"@,
{
    reveal_strlit("uvx");
    reveal_strlit("npx");
    reveal_strlit("pipx");
    assert("uvx"@[0] != "npx"@[0]);
    assert("pipx"@.len() == 4);
}

/// Lines stand one after the other, each with a line break behind it.
pub proof fn law_lines_stand_one_after_the_other(
    a: Seq<Seq<char>>,
    b: Seq<Seq<char>>,
    line: Seq<char>,
)
    ensures
        lines(a + b) == lines(a) + lines(b),
        lines(seq![line]) == line.push('\n'),
        lines(Seq::<Seq<char>>::empty()).len() == 0,
    decreases b.len(),
{
    reveal_strlit("\n");
    let none = Seq::<Seq<char>>::empty();
    assert(seq![line].drop_last() =~= none);
    assert(lines(none) =~= Seq::<char>::empty());
    assert(lines(seq![line]) == lines(none) + line + "\n"@);
    assert(lines(seq![line]) =~= line.push('\n'));
    if b.len() == 0 {
        assert(a + b =~= a);
        assert(lines(a) + lines(b) =~= lines(a));
    } else {
        law_lines_stand_one_after_the_other(a, b.drop_last(), line);
        assert((a + b).drop_last() =~= a + b.drop_last());
        assert(lines(a + b) =~= lines(a) + lines(b));
    }
}

/// A Dockerfile says, in this order: what the runner needs, which depends on the runner alone;
/// what to install, if anything is asked for; the label; the port, if there is one; and the
/// entrypoint. It says nothing else.
pub proof fn law_instructions_stand_in_order(
    runner: Runner,
    entrypoint: Seq<char>,
    expose_port: Option<u16>,
    requested: Seq<Seq<char>>,
)
    ensures
        ({
            let list = instructions(runner, entrypoint, expose_port, requested);
            let base = instructions(runner, Seq::empty(), None, Seq::empty());
            let start = base.len() - 2;
            let installs: int = if packages::canonical(requested).len() > 0 {
                1
            } else {
                0
            };
            let exposes: int = if expose_port is Some {
                1
            } else {
                0
            };
            &&& start >= 1
            &&& list.len() == start + installs + 1 + exposes + 1
            &&& forall|i: int| 0 <= i < start ==> #[trigger] list[i] == base[i]
            &&& "FROM "@.is_prefix_of(list[0])
            &&& installs == 1 ==> list[start] == "RUN apk add --no-cache "@ + text::joined(
                packages::canonical(requested),
                seq![' '],
            )
            &&& list[start + installs] == "LABEL domcp.packages=\""@ + text::joined(
                packages::canonical(requested),
                seq![','],
            ) + seq!['"']
            &&& expose_port matches Some(port) ==> list[start + installs + 1] == "EXPOSE "@
                + text::decimal(port as nat)
            &&& list[list.len() - 1] == "ENTRYPOINT "@ + entrypoint
            &&& dockerfile(runner, entrypoint, expose_port, requested) == lines(list)
        }),
{
    let list = instructions(runner, entrypoint, expose_port, requested);
    let base = instructions(runner, Seq::empty(), None, Seq::empty());
    let own = base_instructions(runner);
    let none = Seq::<Seq<char>>::empty();
    packages::lemma_canonical_exists(none);
    if packages::canonical(none).len() > 0 {
        assert(packages::canonical(none).contains(packages::canonical(none)[0]));
    }
    reveal_strlit(" ");
    assert(" "@ =~= seq![' ']);
    packages::law_labels_are_lists_with_commas(requested);
    reveal_strlit("LABEL ");
    reveal_strlit("domcp.packages");
    reveal_strlit("=\"");
    reveal_strlit("\"");
    reveal_strlit("LABEL domcp.packages=\"");
    assert(label_instruction(requested) =~= "LABEL domcp.packages=\""@ + text::joined(
        packages::canonical(requested),
        seq![','],
    ) + seq!['"']);
    reveal_strlit("FROM ");
    reveal_strlit("FROM python:3-alpine");
    reveal_strlit("FROM node:lts-alpine");
    assert(list[0] == own[0]);
    assert(own[0].take(5) =~= "FROM "@);
    assert(base.len() == own.len() + 2);
    assert forall|i: int| 0 <= i < own.len() implies #[trigger] list[i] == base[i] by {
        assert(list[i] == own[i]);
        assert(base[i] == own[i]);
    }
}

/// Every package that is asked for is installed: one instruction installs packages, words with
/// a space between each two, and a name is one of the words exactly where it is asked for.
/// Where nothing is asked for, no instruction installs a package.
pub proof fn law_requested_packages_are_installed(
    runner: Runner,
    entrypoint: Seq<char>,
    expose_port: Option<u16>,
    requested: Seq<Seq<char>>,
)
    ensures
        ({
            let list = instructions(runner, entrypoint, expose_port, requested);
            let wanted = |name: Seq<char>|
                name.len() > 0 && exists|i: int|
                    0 <= i < requested.len() && text::trimmed(#[trigger] requested[i]) == name;
            &&& (exists|name: Seq<char>| #[trigger] wanted(name)) ==> exists|words: Seq<Seq<char>>|
                list.contains(
                    "RUN apk add --no-cache "@ + #[trigger] text::joined(words, seq![' ']),
                ) && forall|name: Seq<char>| #[trigger] words.contains(name) <==> wanted(name)
            &&& (forall|name: Seq<char>| !#[trigger] wanted(name)) ==> forall|i: int|
                0 <= i < list.len() ==> !"RUN apk"@.is_prefix_of(#[trigger] list[i])
        }),
{
    let list = instructions(runner, entrypoint, expose_port, requested);
    let words = packages::canonical(requested);
    let wanted = |name: Seq<char>|
        name.len() > 0 && exists|i: int|
            0 <= i < requested.len() && text::trimmed(#[trigger] requested[i]) == name;
    let base = base_instructions(runner);
    let install = package_instructions(requested);
    assert forall|name: Seq<char>| #[trigger] words.contains(name) <==> wanted(name) by {
        packages::law_canonical_holds_what_is_asked_for(requested, name);
    }
    if exists|name: Seq<char>| #[trigger] wanted(name) {
        let name = choose|name: Seq<char>| #[trigger] wanted(name);
        assert(words.contains(name));
        reveal_strlit(" ");
        assert(" "@ =~= seq![' ']);
        assert(list[base.len() as int] == "RUN apk add --no-cache "@ + text::joined(
            words,
            seq![' '],
        ));
    } else {
        if words.len() > 0 {
            assert(words.contains(words[0]));
            assert(wanted(words[0]));
        }
        reveal_strlit("RUN apk");
        reveal_strlit("EXPOSE ");
        reveal_strlit("ENTRYPOINT ");
        reveal_strlit("LABEL ");
        reveal_strlit("FROM python:3-alpine");
        reveal_strlit("FROM node:lts-alpine");
        reveal_strlit("RUN pip install --no-cache-dir uv");
        reveal_strlit("RUN pip install --no-cache-dir pipx");
        assert forall|i: int| 0 <= i < list.len() implies !"RUN apk"@.is_prefix_of(
            #[trigger] list[i],
        ) by {
            if "RUN apk"@.is_prefix_of(list[i]) {
                assert(list[i].take(7)[0] == 'R' && list[i].take(7)[4] == 'a');
                assert(list[i][0] == 'R' && list[i][4] == 'a');
                if i < base.len() {
                    assert(list[i] == base[i]);
                } else if i == base.len() {
                    assert(list[i] == label_instruction(requested));
                } else if i == list.len() - 1 {
                    assert(list[i] == "ENTRYPOINT "@ + entrypoint);
                }
            }
        }
    }
}

/// The message on an unsupported runner names it, and is otherwise the same for all.
pub proof fn law_the_unsupported_runner_is_named(a: UnsupportedRunner, b: UnsupportedRunner)
    ensures
        exists|front: Seq<char>, back: Seq<char>|
            #![trigger front + a.name@ + back]
            a.text() == front + a.name@ + back && b.text() == front + b.name@ + back,
{
    let front = "Unsupported runner `"@;
    let back = "`. Supported runners: uvx, npx, pipx"@;
    assert(a.text() == front + a.name@ + back);
    assert(b.text() == front + b.name@ + back);
}

} // verus!
