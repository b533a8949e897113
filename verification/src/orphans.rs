//! Packages that nothing needs any more, and what pacman says of single packages.
use vstd::prelude::*;
use vstd::slice::slice_subrange;

use crate::deps::{first_line, first_line_is_first};
use crate::listing::{blank_data, data_models, push_data, DataModel, PackageData};
use crate::repos::{names_in, read_names};
use crate::text::{begins, ends, filled, find_char, from_chars, has_word, holds, index_of, lines,
    lines_of, other_than, own, pieces, run_len_is, same_text, split_char, split_on,
    starts_with_word, texts, to_chars, trim, trimmed};

verus! {

/// The names that a command has printed, one on a line.
pub fn orphan_names(output: &str) -> (out: Vec<String>)
    ensures
        texts(out@) == names_in(lines_of(output@), ""@),
{
    read_names(output, "")
}

// ---------------------------------------------------------------------------
// Rows

/// What is read of an orphan.
pub struct OrphanModel {
    pub description: Seq<char>,
    pub version: Seq<char>,
    pub explicit: bool,
}

/// What follows `key` on a line, without the white space around it.
pub open spec fn labelled(line: Seq<char>, key: Seq<char>) -> Option<Seq<char>> {
    if begins(line, key) {
        Some(trimmed(line.skip(key.len() as int)))
    } else {
        None
    }
}

/// After a line of the output of `pacman -Qi`.
pub open spec fn orphan_after(m: OrphanModel, line: Seq<char>) -> OrphanModel {
    OrphanModel {
        description: match labelled(line, "Description     : "@) {
            Some(v) => v,
            None => m.description,
        },
        version: match labelled(line, "Version         : "@) {
            Some(v) => v,
            None => m.version,
        },
        explicit: match labelled(line, "Install Reason  : "@) {
            Some(v) => holds(v, "Explicitly"@),
            None => m.explicit,
        },
    }
}

/// After the lines of the output of `pacman -Qi`.
pub open spec fn orphan_after_lines(list: Seq<Seq<char>>) -> OrphanModel
    decreases list.len(),
{
    if list.len() == 0 {
        OrphanModel { description: seq![], version: seq![], explicit: false }
    } else {
        orphan_after(orphan_after_lines(list.drop_last()), list.last())
    }
}

/// The row of an orphan.
pub open spec fn orphan_data(name: Seq<char>, output: Seq<char>) -> DataModel {
    let m = orphan_after_lines(lines_of(output));
    DataModel {
        name,
        display_name: name,
        description: m.description,
        version: m.version,
        backend: 0,
        installed: true,
        explicit: m.explicit,
        repository: "local"@,
        ..blank_data()
    }
}

fn label<'a>(line: &'a [char], key: &str) -> (r: Option<&'a [char]>)
    ensures
        match r {
            Some(v) => labelled(line@, key@) == Some(v@),
            None => labelled(line@, key@) is None,
        },
{
    if !starts_with_word(line, key) {
        return None;
    }
    let word = to_chars(key);
    let rest = slice_subrange(line, word.len(), line.len());
    proof {
        assert(rest@ =~= line@.skip(key@.len() as int));
    }
    Some(trim(rest))
}

/// The row of an orphan, from the output of `pacman -Qi`.
pub fn orphan_row(name: &str, output: &str) -> (d: PackageData)
    ensures
        d@ == orphan_data(name@, output@),
{
    let chars = to_chars(output);
    let list = lines(chars.as_slice());
    let ghost all = pieces(list@);
    let mut description = String::new();
    let mut version = String::new();
    let mut explicit = false;
    proof {
        assert(description@ =~= orphan_after_lines(all.take(0)).description);
        assert(version@ =~= orphan_after_lines(all.take(0)).version);
    }
    for i in 0..list.len()
        invariant
            all == pieces(list@),
            all == lines_of(output@),
            orphan_after_lines(all.take(i as int)) == (OrphanModel {
                description: description@,
                version: version@,
                explicit,
            }),
    {
        let line = list[i].as_slice();
        proof {
            assert(all.take(i + 1).last() == line@);
            assert(all.take(i + 1).drop_last() =~= all.take(i as int));
        }
        if let Some(v) = label(line, "Description     : ") {
            description = from_chars(v);
        }
        if let Some(v) = label(line, "Version         : ") {
            version = from_chars(v);
        }
        if let Some(v) = label(line, "Install Reason  : ") {
            explicit = has_word(v, "Explicitly");
        }
    }
    proof {
        assert(all.take(all.len() as int) =~= all);
    }
    PackageData {
        name: own(name),
        display_name: own(name),
        description,
        version,
        backend: 0,
        installed: true,
        explicit,
        repository: own("local"),
        ..PackageData::blank()
    }
}

/// An orphan, and what `pacman -Qi` has printed for it.
#[derive(Debug, Clone)]
pub struct OrphanAnswer {
    pub name: String,
    pub output: String,
}

/// The rows of orphans.
pub fn load_orphan_list(answers: &[OrphanAnswer]) -> (out: Vec<PackageData>)
    ensures
        data_models(out@) == answers@.map_values(
            |a: OrphanAnswer| orphan_data(a.name@, a.output@),
        ),
{
    let ghost f = |a: OrphanAnswer| orphan_data(a.name@, a.output@);
    let mut out: Vec<PackageData> = Vec::new();
    for i in 0..answers.len()
        invariant
            f == (|a: OrphanAnswer| orphan_data(a.name@, a.output@)),
            data_models(out@) =~= answers@.take(i as int).map_values(f),
    {
        push_data(&mut out, orphan_row(answers[i].name.as_str(), answers[i].output.as_str()));
    }
    proof {
        assert(answers@.take(answers@.len() as int) =~= answers@);
    }
    out
}

// ---------------------------------------------------------------------------
// Single fields

fn line_with(output: &str, key: &str) -> (r: Option<Vec<char>>)
    ensures
        match r {
            Some(line) => first_line(lines_of(output@), key@) == Some(line@),
            None => first_line(lines_of(output@), key@) is None,
        },
{
    let chars = to_chars(output);
    let list = lines(chars.as_slice());
    let ghost all = pieces(list@);
    proof {
        assert(all.skip(0) =~= all);
    }
    for i in 0..list.len()
        invariant
            all == pieces(list@),
            all == lines_of(output@),
            first_line(all, key@) == first_line(all.skip(i as int), key@),
    {
        let line = list[i].as_slice();
        proof {
            assert(all.skip(i as int)[0] == line@);
            assert(all.skip(i as int).skip(1) =~= all.skip(i + 1));
        }
        if starts_with_word(line, key) {
            let found = slice_subrange(line, 0, line.len());
            proof {
                assert(found@ =~= line@);
            }
            let text = from_chars(found);
            return Some(to_chars(text.as_str()));
        }
    }
    None
}

/// The value of a field up to a second colon, empty where there is none.
pub open spec fn short_field(output: Seq<char>, key: Seq<char>) -> Seq<char> {
    match first_line(lines_of(output), key) {
        Some(line) => if split_on(line, ':').len() > 1 {
            trimmed(split_on(line, ':')[1])
        } else {
            seq![]
        },
        None => seq![],
    }
}

fn read_short_field(output: &str, key: &str) -> (out: String)
    ensures
        out@ == short_field(output@, key@),
{
    match line_with(output, key) {
        Some(line) => {
            let parts = split_char(line.as_slice(), ':');
            if parts.len() > 1 {
                proof {
                    assert(pieces(parts@)[1] == parts@[1]@);
                }
                from_chars(trim(parts[1].as_slice()))
            } else {
                String::new()
            }
        },
        None => String::new(),
    }
}

/// Whether a field says that there is nothing.
pub open spec fn says_none(value: Seq<char>) -> bool {
    value.len() == 0 || value == "None"@
}

/// Which packages need another one, or would use it, according to the output of `pacman -Qi`.
pub open spec fn needed_text(output: Seq<char>) -> Seq<char> {
    let required = short_field(output, "Required By"@);
    let optional = short_field(output, "Optional For"@);
    if says_none(required) && says_none(optional) {
        "Not required by any installed package."@
    } else if says_none(optional) {
        "Required by: "@ + required
    } else if says_none(required) {
        "Optional for: "@ + optional
    } else {
        "Required by: "@ + required + "  |  Optional for: "@ + optional
    }
}

/// Which packages need another one, or would use it.
pub fn orphan_dep_info(output: &str) -> (out: String)
    ensures
        out@ == needed_text(output@),
{
    let required = read_short_field(output, "Required By");
    let optional = read_short_field(output, "Optional For");
    let no_required = !filled(required.as_str()) || same_text(required.as_str(), "None");
    let no_optional = !filled(optional.as_str()) || same_text(optional.as_str(), "None");
    if no_required && no_optional {
        return own("Not required by any installed package.");
    }
    let mut out = String::new();
    if !no_required {
        out = own("Required by: ");
        out.append(required.as_str());
        if !no_optional {
            out.append("  |  Optional for: ");
            out.append(optional.as_str());
        }
    } else {
        out = own("Optional for: ");
        out.append(optional.as_str());
    }
    out
}

/// The description in the output of `pacman -Si`, empty where there is none.
pub open spec fn description_in(output: Seq<char>) -> Seq<char> {
    match first_line(lines_of(output), "Description"@) {
        Some(line) => {
            let k = index_of(line, ':');
            if k < line.len() {
                trimmed(line.skip(k as int + 1))
            } else {
                seq![]
            }
        },
        None => seq![],
    }
}

/// The description of a package in a repository, from the output of `pacman -Si`.
pub fn repo_description(output: &str) -> (out: String)
    ensures
        out@ == description_in(output@),
{
    match line_with(output, "Description") {
        Some(line) => {
            let s = line.as_slice();
            proof {
                assert(s@.skip(0) =~= s@);
            }
            let k = find_char(s, 0, ':');
            if k == s.len() {
                return String::new();
            }
            let rest = slice_subrange(s, k + 1, s.len());
            proof {
                assert(rest@ =~= s@.skip(k + 1));
            }
            from_chars(trim(rest))
        },
        None => String::new(),
    }
}

// ---------------------------------------------------------------------------
// Laws

/// What is told of an orphan comes from the lines with its description, its version and the reason of
/// its installation; the last line of a kind counts.
pub proof fn orphan_lines_are_read(list: Seq<Seq<char>>, value: Seq<char>)
    ensures
        orphan_after_lines(list.push("Description     : "@ + value)).description == trimmed(value),
        orphan_after_lines(list.push("Version         : "@ + value)).version == trimmed(value),
        orphan_after_lines(list.push("Install Reason  : "@ + value)).explicit == holds(
            trimmed(value),
            "Explicitly"@,
        ),
        orphan_after_lines(list.push("Description     : "@ + value)).version == orphan_after_lines(
            list,
        ).version,
        orphan_after_lines(list.push("Version         : "@ + value)).description
            == orphan_after_lines(list).description,
{
    reveal_strlit("Description     : ");
    reveal_strlit("Version         : ");
    reveal_strlit("Install Reason  : ");
    let (a, b, c) = ("Description     : "@, "Version         : "@, "Install Reason  : "@);
    assert(a.len() == 18 && b.len() == 18 && c.len() == 18);
    assert(a[0] == 'D' && b[0] == 'V' && c[0] == 'I');
    assert(list.push(a + value).drop_last() =~= list);
    assert(list.push(b + value).drop_last() =~= list);
    assert(list.push(c + value).drop_last() =~= list);
    assert((a + value).take(18) =~= a && (a + value).skip(18) =~= value);
    assert((b + value).take(18) =~= b && (b + value).skip(18) =~= value);
    assert((c + value).take(18) =~= c && (c + value).skip(18) =~= value);
    assert((a + value).take(18)[0] == 'D');
    assert((b + value).take(18)[0] == 'V');
    assert((c + value).take(18)[0] == 'I');
}

/// What needs an orphan is told exactly where something does.
pub proof fn needs_are_told(output: Seq<char>)
    ensures
        ({
            let required = short_field(output, "Required By"@);
            let optional = short_field(output, "Optional For"@);
            &&& says_none(required) && says_none(optional) ==> needed_text(output)
                == "Not required by any installed package."@
            &&& !says_none(required) ==> begins(needed_text(output), "Required by: "@ + required)
            &&& !says_none(optional) ==> ends(needed_text(output), optional)
        }),
{
    let required = short_field(output, "Required By"@);
    let optional = short_field(output, "Optional For"@);
    let t = needed_text(output);
    if !says_none(required) {
        let head = "Required by: "@ + required;
        assert(t.take(head.len() as int) =~= head);
    }
    if !says_none(optional) {
        assert(t.skip(t.len() - optional.len()) =~= optional);
    }
}

/// The row of an orphan shows what is told of it.
pub proof fn orphans_are_listed(name: Seq<char>, output: Seq<char>)
    ensures
        orphan_data(name, output).name == name,
        orphan_data(name, output).description == orphan_after_lines(lines_of(output)).description,
        orphan_data(name, output).version == orphan_after_lines(lines_of(output)).version,
        orphan_data(name, output).explicit == orphan_after_lines(lines_of(output)).explicit,
        orphan_data(name, output).installed,
        orphan_data(name, output).backend == 0,
{
}

/// The description stands behind the colon on the first line of its key.
pub proof fn descriptions_stand_behind_colons(
    output: Seq<char>,
    gap: Seq<char>,
    value: Seq<char>,
    i: int,
)
    requires
        !gap.contains(':'),
        0 <= i < lines_of(output).len(),
        lines_of(output)[i] == "Description"@ + (gap.push(':') + value),
        forall|j: int| 0 <= j < i ==> !begins(#[trigger] lines_of(output)[j], "Description"@),
    ensures
        description_in(output) == trimmed(value),
{
    reveal_strlit("Description");
    let key = "Description"@;
    let line = lines_of(output)[i];
    assert(line.take(key.len() as int) =~= key);
    first_line_is_first(lines_of(output), key, i);
    let n = key.len() + gap.len();
    assert forall|k: int| 0 <= k < n implies other_than(':')(#[trigger] line[k]) by {
        if k >= key.len() {
            assert(line[k] == gap[k - key.len()]);
        }
    }
    assert(line[n as int] == ':');
    run_len_is(line, other_than(':'), n);
    assert(line.skip(n as int + 1) =~= value);
}

} // verus!
