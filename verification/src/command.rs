//! The commands that carry out operations, and answers to their prompts.
use vstd::prelude::*;
use vstd::slice::slice_subrange;

use crate::text::{find_char, from_chars, index_of, is_upper, joined, joined_pieces_split, lowered,
    other_than, own, pieces, push_text, run_len_is, same_text, split_char, split_on, tail_run_len,
    tail_run_len_bound, tail_run_len_is, texts, to_chars, to_lower, trim, trimmed};
use crate::version::{find_last_char, last_index_holds, last_index_is, last_index_of};

verus! {

/// A command: the program, its first arguments, and whether the names of packages follow.
pub struct CommandModel {
    pub program: Seq<char>,
    pub args: Seq<Seq<char>>,
    pub takes_names: bool,
}

/// The command for an action on packages of a backend, where 1 stands for Flatpak. An action that is
/// not listed installs packages.
pub open spec fn command_for(action: Seq<char>, backend: i32) -> CommandModel {
    if backend == 1 && (action == "install"@ || action == "bulk-install"@) {
        CommandModel { program: "flatpak"@, args: seq!["install"@, "-y"@], takes_names: true }
    } else if backend == 1 && (action == "remove"@ || action == "bulk-remove"@) {
        CommandModel { program: "flatpak"@, args: seq!["uninstall"@, "-y"@], takes_names: true }
    } else if backend == 1 && action == "update"@ {
        CommandModel { program: "flatpak"@, args: seq!["update"@, "-y"@], takes_names: true }
    } else if action == "remove"@ || action == "bulk-remove"@ {
        CommandModel { program: "pkexec"@, args: seq!["pacman"@, "-R"@], takes_names: true }
    } else if backend == 1 && action == "update-all"@ {
        CommandModel { program: "flatpak"@, args: seq!["update"@, "-y"@], takes_names: false }
    } else if action == "update-all"@ {
        CommandModel { program: "pkexec"@, args: seq!["pacman"@, "-Syu"@], takes_names: false }
    } else if action == "force-install"@ {
        CommandModel {
            program: "pkexec"@,
            args: seq!["pacman"@, "-S"@, "--overwrite"@, "*"@, "--noconfirm"@],
            takes_names: true,
        }
    } else if action == "force-update-all"@ {
        CommandModel {
            program: "pkexec"@,
            args: seq!["pacman"@, "-Syu"@, "--overwrite"@, "*"@, "--noconfirm"@],
            takes_names: false,
        }
    } else {
        CommandModel { program: "pkexec"@, args: seq!["pacman"@, "-S"@], takes_names: true }
    }
}

fn two(a: &str, b: &str) -> (list: Vec<String>)
    ensures
        texts(list@) == seq![a@, b@],
{
    let mut list: Vec<String> = Vec::new();
    push_text(&mut list, own(a));
    push_text(&mut list, own(b));
    proof {
        assert(texts(list@) =~= seq![a@, b@]);
    }
    list
}

fn overwriting(a: &str, b: &str) -> (list: Vec<String>)
    ensures
        texts(list@) == seq![a@, b@, "--overwrite"@, "*"@, "--noconfirm"@],
{
    let mut list = two(a, b);
    push_text(&mut list, own("--overwrite"));
    push_text(&mut list, own("*"));
    push_text(&mut list, own("--noconfirm"));
    proof {
        assert(texts(list@) =~= seq![a@, b@, "--overwrite"@, "*"@, "--noconfirm"@]);
    }
    list
}

fn choose_command(action: &str, backend: i32) -> (r: (String, Vec<String>, bool))
    ensures
        r.0@ == command_for(action@, backend).program,
        texts(r.1@) == command_for(action@, backend).args,
        r.2 == command_for(action@, backend).takes_names,
{
    let flatpak = backend == 1;
    if flatpak && (same_text(action, "install") || same_text(action, "bulk-install")) {
        (own("flatpak"), two("install", "-y"), true)
    } else if flatpak && (same_text(action, "remove") || same_text(action, "bulk-remove")) {
        (own("flatpak"), two("uninstall", "-y"), true)
    } else if flatpak && same_text(action, "update") {
        (own("flatpak"), two("update", "-y"), true)
    } else if same_text(action, "remove") || same_text(action, "bulk-remove") {
        (own("pkexec"), two("pacman", "-R"), true)
    } else if flatpak && same_text(action, "update-all") {
        (own("flatpak"), two("update", "-y"), false)
    } else if same_text(action, "update-all") {
        (own("pkexec"), two("pacman", "-Syu"), false)
    } else if same_text(action, "force-install") {
        (own("pkexec"), overwriting("pacman", "-S"), true)
    } else if same_text(action, "force-update-all") {
        (own("pkexec"), overwriting("pacman", "-Syu"), false)
    } else {
        (own("pkexec"), two("pacman", "-S"), true)
    }
}

/// All arguments of the command for an action on packages of a backend.
pub open spec fn arguments_for(action: Seq<char>, backend: i32, names: Seq<Seq<char>>) -> Seq<
    Seq<char>,
> {
    let c = command_for(action, backend);
    if c.takes_names {
        c.args + names
    } else {
        c.args
    }
}

/// The program and the arguments for an action on packages of a backend.
pub fn build_pacman_command(action: &str, names: &[String], backend: i32) -> (r: (
    String,
    Vec<String>,
))
    ensures
        r.0@ == command_for(action@, backend).program,
        texts(r.1@) == arguments_for(action@, backend, texts(names@)),
{
    let (program, args, takes_names) = choose_command(action, backend);
    let mut args = args;
    let ghost first = texts(args@);
    if takes_names {
        proof {
            assert(first + texts(names@).take(0) =~= first);
        }
        for i in 0..names.len()
            invariant
                texts(args@) == first + texts(names@).take(i as int),
        {
            push_text(&mut args, own(names[i].as_str()));
            proof {
                assert((first + texts(names@).take(i as int)).push(names@[i as int]@) =~= first
                    + texts(names@).take(i + 1));
            }
        }
        proof {
            assert(texts(names@).take(names@.len() as int) =~= texts(names@));
        }
    }
    (program, args)
}

/// Whether an action removes packages.
pub open spec fn is_removing(action: Seq<char>) -> bool {
    action == "remove"@ || action == "bulk-remove"@
}

/// Whether an action installs packages.
pub open spec fn is_installing(action: Seq<char>) -> bool {
    action == "install"@ || action == "bulk-install"@
}

/// The actions are told apart by their names.
proof fn actions_differ()
    ensures
        "install"@.len() == 7,
        "bulk-install"@.len() == 12,
        "remove"@.len() == 6,
        "bulk-remove"@.len() == 11,
        "update"@.len() == 6,
        "remove"@ != "update"@,
        "update-all"@.len() == 10,
        "force-install"@.len() == 13,
        "force-update-all"@.len() == 16,
{
    reveal_strlit("install");
    reveal_strlit("bulk-install");
    reveal_strlit("remove");
    reveal_strlit("bulk-remove");
    reveal_strlit("update");
    reveal_strlit("update-all");
    reveal_strlit("force-install");
    reveal_strlit("force-update-all");
    assert("remove"@[0] == 'r');
    assert("update"@[0] == 'u');
}

/// The words that tell pacman and Flatpak what to do are told apart.
proof fn orders_differ()
    ensures
        "-R"@ != "-S"@,
        "-R"@ != "-y"@,
        "-S"@ != "-y"@,
        "-R"@.len() == 2,
        "-S"@.len() == 2,
        "-y"@.len() == 2,
        "-Syu"@.len() == 4,
        "pacman"@.len() == 6,
        "update"@.len() == 6,
        "install"@.len() == 7,
        "uninstall"@.len() == 9,
        "--overwrite"@.len() == 11,
        "*"@.len() == 1,
        "--noconfirm"@.len() == 11,
{
    reveal_strlit("-R");
    reveal_strlit("-S");
    reveal_strlit("-y");
    reveal_strlit("-Syu");
    reveal_strlit("pacman");
    reveal_strlit("update");
    reveal_strlit("install");
    reveal_strlit("uninstall");
    reveal_strlit("--overwrite");
    reveal_strlit("*");
    reveal_strlit("--noconfirm");
    assert("-R"@[1] == 'R');
    assert("-S"@[1] == 'S');
    assert("-y"@[1] == 'y');
}

/// Removing packages uninstalls them and never installs any: pacman is told to remove exactly the
/// named packages, and so is Flatpak.
pub proof fn removing_uninstalls(action: Seq<char>, backend: i32, names: Seq<Seq<char>>)
    requires
        is_removing(action),
    ensures
        backend != 1 ==> command_for(action, backend).program == "pkexec"@ && arguments_for(
            action,
            backend,
            names,
        ) == seq!["pacman"@, "-R"@] + names,
        backend == 1 ==> command_for(action, backend).program == "flatpak"@ && arguments_for(
            action,
            backend,
            names,
        ) == seq!["uninstall"@, "-y"@] + names,
        !command_for(action, backend).args.contains("-S"@),
        !command_for(action, backend).args.contains("-Syu"@),
        !command_for(action, backend).args.contains("install"@),
{
    actions_differ();
    orders_differ();
    let args = command_for(action, backend).args;
    assert(args.len() == 2);
}

/// Installing packages installs exactly the named ones, from the backend that has them.
pub proof fn installing_installs(action: Seq<char>, backend: i32, names: Seq<Seq<char>>)
    requires
        is_installing(action),
    ensures
        backend != 1 ==> command_for(action, backend).program == "pkexec"@ && arguments_for(
            action,
            backend,
            names,
        ) == seq!["pacman"@, "-S"@] + names,
        backend == 1 ==> command_for(action, backend).program == "flatpak"@ && arguments_for(
            action,
            backend,
            names,
        ) == seq!["install"@, "-y"@] + names,
{
    actions_differ();
}

/// Updating a package brings it to the newest version: pacman installs that, Flatpak updates.
pub proof fn updating_updates(backend: i32, names: Seq<Seq<char>>)
    ensures
        backend != 1 ==> command_for("update"@, backend).program == "pkexec"@ && arguments_for(
            "update"@,
            backend,
            names,
        ) == seq!["pacman"@, "-S"@] + names,
        backend == 1 ==> command_for("update"@, backend).program == "flatpak"@ && arguments_for(
            "update"@,
            backend,
            names,
        ) == seq!["update"@, "-y"@] + names,
{
    actions_differ();
}

/// Updating everything names no package.
pub proof fn updating_everything_names_nothing(backend: i32, names: Seq<Seq<char>>)
    ensures
        backend != 1 ==> command_for("update-all"@, backend).program == "pkexec"@ && arguments_for(
            "update-all"@,
            backend,
            names,
        ) == seq!["pacman"@, "-Syu"@],
        backend == 1 ==> command_for("update-all"@, backend).program == "flatpak"@ && arguments_for(
            "update-all"@,
            backend,
            names,
        ) == seq!["update"@, "-y"@],
        arguments_for("force-update-all"@, backend, names) == seq![
            "pacman"@,
            "-Syu"@,
            "--overwrite"@,
            "*"@,
            "--noconfirm"@,
        ],
        arguments_for("force-install"@, backend, names) == seq![
            "pacman"@,
            "-S"@,
            "--overwrite"@,
            "*"@,
            "--noconfirm"@,
        ] + names,
{
    actions_differ();
}

/// No action but a removing one removes packages.
pub proof fn only_removing_removes(action: Seq<char>, backend: i32)
    requires
        !is_removing(action),
    ensures
        !command_for(action, backend).args.contains("-R"@),
        !command_for(action, backend).args.contains("uninstall"@),
{
    actions_differ();
    orders_differ();
    let args = command_for(action, backend).args;
    assert(args.len() == 2 || args.len() == 5);
    assert forall|i: int| 0 <= i < args.len() implies #[trigger] args[i] != "-R"@ && args[i]
        != "uninstall"@ by {
        assert(i == 0 || i == 1 || i == 2 || i == 3 || i == 4);
    }
}

/// Only actions that force their way overwrite files.
pub proof fn only_force_overwrites(action: Seq<char>, backend: i32)
    requires
        action != "force-install"@,
        action != "force-update-all"@,
    ensures
        !command_for(action, backend).args.contains("--overwrite"@),
{
    reveal_strlit("--overwrite");
    reveal_strlit("install");
    reveal_strlit("uninstall");
    reveal_strlit("update");
    reveal_strlit("-y");
    reveal_strlit("pacman");
    reveal_strlit("-R");
    reveal_strlit("-S");
    reveal_strlit("-Syu");
    let args = command_for(action, backend).args;
    assert(args.len() == 2);
    assert(args[0].len() < 11 && args[1].len() < 11);
    assert("--overwrite"@.len() == 11);
}

// ---------------------------------------------------------------------------
// Prompts

/// Blanks and colons.
pub open spec fn blank_or_colon() -> spec_fn(char) -> bool {
    |c: char| c == ' ' || c == ':'
}

/// The first option that starts with a capital letter.
pub open spec fn capital_option(options: Seq<Seq<char>>) -> Option<Seq<char>>
    decreases options.len(),
{
    if options.len() == 0 {
        None
    } else {
        let t = trimmed(options[0]);
        if t.len() > 0 && is_upper(t[0]) {
            Some(t)
        } else {
            capital_option(options.skip(1))
        }
    }
}

/// The default among options between slashes: the one with a capital letter, in lower case, or else
/// the first one.
pub open spec fn default_option(inner: Seq<char>) -> Option<Seq<char>> {
    let options = split_on(inner, '/');
    match capital_option(options) {
        Some(t) => Some(lowered(t)),
        None => if trimmed(options[0]).len() > 0 {
            Some(trimmed(options[0]))
        } else {
            None
        },
    }
}

/// What stands between the last `open` and the first `close` after it.
pub open spec fn bracketed(line: Seq<char>, open: char, close: char) -> Option<Seq<char>> {
    match last_index_of(line, open) {
        Some(a) => {
            let b = a + index_of(line.skip(a), close);
            if b < line.len() {
                Some(line.subrange(a + 1, b))
            } else {
                None
            }
        },
        None => None,
    }
}

/// The default answer to the prompt on a line such as `Proceed? [Y/n]` or `Continue (yes/no)`.
pub open spec fn prompt_default(line: Seq<char>) -> Option<Seq<char>> {
    let s = line.take(line.len() - tail_run_len(line, blank_or_colon()));
    let square = match bracketed(s, '[', ']') {
        Some(inner) => default_option(inner),
        None => None,
    };
    match square {
        Some(t) => Some(t),
        None => match bracketed(s, '(', ')') {
            Some(inner) => default_option(inner),
            None => None,
        },
    }
}

fn default_in(inner: &[char]) -> (r: Option<String>)
    ensures
        match r {
            Some(t) => default_option(inner@) == Some(t@),
            None => default_option(inner@) is None,
        },
{
    let parts = split_char(inner, '/');
    let ghost all = pieces(parts@);
    proof {
        assert(all.skip(0) =~= all);
    }
    for i in 0..parts.len()
        invariant
            all == pieces(parts@),
            all == split_on(inner@, '/'),
            capital_option(all) == capital_option(all.skip(i as int)),
    {
        proof {
            assert(all.skip(i as int)[0] == parts@[i as int]@);
            assert(all.skip(i as int).skip(1) =~= all.skip(i + 1));
        }
        let t = trim(parts[i].as_slice());
        if t.len() > 0 && t[0].is_uppercase() {
            return Some(to_lower(from_chars(t).as_str()));
        }
    }
    proof {
        crate::text::split_is_not_empty(inner@, '/');
        assert(all[0] == parts@[0]@);
        assert(all.skip(all.len() as int).len() == 0);
    }
    let first = trim(parts[0].as_slice());
    if first.len() > 0 {
        Some(from_chars(first))
    } else {
        None
    }
}

fn in_brackets<'a>(line: &'a [char], open: char, close: char) -> (r: Option<&'a [char]>)
    requires
        open != close,
    ensures
        match r {
            Some(inner) => bracketed(line@, open, close) == Some(inner@),
            None => bracketed(line@, open, close) is None,
        },
{
    match find_last_char(line, open) {
        Some(a) => {
            let b = find_char(line, a, close);
            if b == line.len() {
                return None;
            }
            proof {
                crate::version::last_index_holds(line@, open);
            }
            Some(slice_subrange(line, a + 1, b))
        },
        None => None,
    }
}

/// The default answer to the prompt on a line.
pub fn detect_prompt_default(line: &str) -> (r: Option<String>)
    ensures
        match r {
            Some(t) => prompt_default(line@) == Some(t@),
            None => prompt_default(line@) is None,
        },
{
    let chars = to_chars(line);
    let all = chars.as_slice();
    let mut k: usize = all.len();
    while k > 0 && (all[k - 1] == ' ' || all[k - 1] == ':')
        invariant
            k <= all@.len(),
            forall|j: int| k <= j < all@.len() ==> (#[trigger] all@[j] == ' ' || all@[j] == ':'),
        ensures
            k > 0 ==> !(all@[k - 1] == ' ' || all@[k - 1] == ':'),
        decreases k,
    {
        k = k - 1;
    }
    let s = slice_subrange(all, 0, k);
    proof {
        tail_run_len_is(all@, blank_or_colon(), (all@.len() - k) as nat);
        assert(s@ =~= all@.take(k as int));
    }
    if let Some(inner) = in_brackets(s, '[', ']') {
        if let Some(t) = default_in(inner) {
            return Some(t);
        }
    }
    if let Some(inner) = in_brackets(s, '(', ')') {
        return default_in(inner);
    }
    None
}

// ---------------------------------------------------------------------------
// Laws on prompts

/// Among options in brackets, the first one with a capital letter is the default, in lower case.
pub proof fn capital_is_the_default(options: Seq<Seq<char>>, i: int)
    requires
        0 <= i < options.len(),
        forall|j: int| 0 <= j < options.len() ==> !(#[trigger] options[j]).contains('/'),
        trimmed(options[i]).len() > 0,
        is_upper(trimmed(options[i])[0]),
        forall|j: int|
            0 <= j < i ==> trimmed(#[trigger] options[j]).len() == 0 || !is_upper(
                trimmed(options[j])[0],
            ),
    ensures
        default_option(joined(options, seq!['/'])) == Some(lowered(trimmed(options[i]))),
{
    joined_pieces_split(options, '/');
    first_capital(options, i);
}

proof fn first_capital(options: Seq<Seq<char>>, i: int)
    requires
        0 <= i < options.len(),
        trimmed(options[i]).len() > 0,
        is_upper(trimmed(options[i])[0]),
        forall|j: int|
            0 <= j < i ==> trimmed(#[trigger] options[j]).len() == 0 || !is_upper(
                trimmed(options[j])[0],
            ),
    ensures
        capital_option(options) == Some(trimmed(options[i])),
    decreases i,
{
    if i > 0 {
        let rest = options.skip(1);
        assert(rest[i - 1] == options[i]);
        assert forall|j: int| 0 <= j < i - 1 implies trimmed(#[trigger] rest[j]).len() == 0
            || !is_upper(trimmed(rest[j])[0]) by {
            assert(rest[j] == options[j + 1]);
        }
        assert(trimmed(options[0]).len() == 0 || !is_upper(trimmed(options[0])[0]));
        first_capital(rest, i - 1);
    }
}

proof fn no_capital(options: Seq<Seq<char>>)
    requires
        forall|j: int|
            0 <= j < options.len() ==> trimmed(#[trigger] options[j]).len() == 0 || !is_upper(
                trimmed(options[j])[0],
            ),
    ensures
        capital_option(options) is None,
    decreases options.len(),
{
    if options.len() > 0 {
        let rest = options.skip(1);
        assert forall|j: int| 0 <= j < rest.len() implies trimmed(#[trigger] rest[j]).len() == 0
            || !is_upper(trimmed(rest[j])[0]) by {
            assert(rest[j] == options[j + 1]);
        }
        assert(trimmed(options[0]).len() == 0 || !is_upper(trimmed(options[0])[0]));
        no_capital(rest);
    }
}

/// Among options without a capital letter, the first one is the default.
pub proof fn first_is_the_default(options: Seq<Seq<char>>)
    requires
        options.len() > 0,
        forall|j: int| 0 <= j < options.len() ==> !(#[trigger] options[j]).contains('/'),
        trimmed(options[0]).len() > 0,
        forall|j: int|
            0 <= j < options.len() ==> trimmed(#[trigger] options[j]).len() == 0 || !is_upper(
                trimmed(options[j])[0],
            ),
    ensures
        default_option(joined(options, seq!['/'])) == Some(trimmed(options[0])),
{
    joined_pieces_split(options, '/');
    no_capital(options);
}

/// The options of a prompt stand in the square brackets at its end, before blanks and colons.
pub proof fn options_stand_in_brackets(front: Seq<char>, inner: Seq<char>, behind: Seq<char>)
    requires
        !inner.contains('['),
        !inner.contains(']'),
        forall|i: int| 0 <= i < behind.len() ==> (#[trigger] behind[i] == ' ' || behind[i] == ':'),
        default_option(inner) is Some,
    ensures
        prompt_default((front.push('[') + inner.push(']')) + behind) == default_option(inner),
{
    let s = front.push('[') + inner.push(']');
    let line = s + behind;
    assert forall|i: int| line.len() - behind.len() <= i < line.len() implies blank_or_colon()(
        #[trigger] line[i],
    ) by {
        assert(line[i] == behind[i - s.len()]);
    }
    assert(line[s.len() - 1] == ']');
    tail_run_len_is(line, blank_or_colon(), behind.len());
    assert(line.take(s.len() as int) =~= s);
    let tail = inner.push(']');
    assert(!tail.contains('[')) by {
        if tail.contains('[') {
            let i = choose|i: int| 0 <= i < tail.len() && tail[i] == '[';
            assert(inner[i] == '[');
        }
    }
    last_index_is(front, '[', tail);
    let a = front.len() as int;
    let rest = s.skip(a);
    assert(rest =~= seq!['['] + inner + seq![']']);
    assert forall|i: int| 0 <= i < inner.len() + 1 implies other_than(']')(#[trigger] rest[i]) by {
        if i > 0 {
            assert(rest[i] == inner[i - 1]);
        }
    }
    assert(rest[inner.len() as int + 1] == ']');
    run_len_is(rest, other_than(']'), inner.len() + 1);
    assert(s.subrange(a + 1, a + 1 + inner.len()) =~= inner);
}

/// A line without brackets is no prompt.
pub proof fn no_brackets_no_prompt(line: Seq<char>)
    requires
        !line.contains('['),
        !line.contains('('),
    ensures
        prompt_default(line) is None,
{
    let s = line.take(line.len() - tail_run_len(line, blank_or_colon()));
    tail_run_len_bound(line, blank_or_colon());
    last_index_holds(s, '[');
    last_index_holds(s, '(');
    if let Some(k) = last_index_of(s, '[') {
        assert(line[k] == '[');
    }
    if let Some(k) = last_index_of(s, '(') {
        assert(line[k] == '(');
    }
}

} // verus!
