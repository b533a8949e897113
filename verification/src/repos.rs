//! Lists by repository: the installed packages in groups, and the packages of a repository.
use vstd::prelude::*;

use crate::deps::NameMap;
use crate::filters::{is_header, packages};
use crate::listing::{blank_data, data_models, human_name, humanize_package_name, push_data,
    upper_char, DataModel, PackageData};
use crate::number::digit_char;
use crate::order::{int_order, key_of, keys_agree, sort_by_key, sort_unique, sorting_is_stable,
    sorting_maps, stable_sorted, strictly_ascending, text_order, Keyed};
use crate::text::{begins, from_chars, has_word, holds, is_word, lines, lines_of, lowered,
    other_than, own, pieces, pieces_follow, run_len_is, same_text, split_char, split_on,
    starts_with_word, texts, to_chars, to_lower, trim, trimmed, uppered, words, words_of};

verus! {

// ---------------------------------------------------------------------------
// Installed packages by repository

/// Where the group of a repository stands.
pub open spec fn repo_order(repo: Seq<char>) -> int {
    if repo == "core"@ {
        0
    } else if repo == "extra"@ {
        1
    } else if repo == "multilib"@ {
        2
    } else if holds(repo, "testing"@) {
        3
    } else if repo.len() == 0 {
        8
    } else if begins(repo, "aur"@) || repo == "local"@ {
        9
    } else {
        5
    }
}

/// Where the group of a repository stands.
pub fn repo_display_order(repo: &str) -> (n: u8)
    ensures
        n == repo_order(repo@),
        n < 10,
{
    let chars = to_chars(repo);
    let s = chars.as_slice();
    if is_word(s, "core") {
        0
    } else if is_word(s, "extra") {
        1
    } else if is_word(s, "multilib") {
        2
    } else if has_word(s, "testing") {
        3
    } else if s.len() == 0 {
        8
    } else if starts_with_word(s, "aur") || is_word(s, "local") {
        9
    } else {
        5
    }
}

/// The category whose colour stands for a repository.
pub open spec fn repo_category(repo: Seq<char>) -> Seq<char> {
    if repo == "core"@ {
        "System"@
    } else if repo == "extra"@ {
        "Development"@
    } else if repo == "multilib"@ {
        "Network"@
    } else if holds(repo, "testing"@) {
        "Science"@
    } else if begins(repo, "aur"@) || repo.len() == 0 {
        "Game"@
    } else {
        "Utility"@
    }
}

/// The category whose colour stands for a repository.
pub fn repo_to_avatar_category(repo: &str) -> (r: &'static str)
    ensures
        r@ == repo_category(repo@),
{
    let chars = to_chars(repo);
    let s = chars.as_slice();
    if is_word(s, "core") {
        "System"
    } else if is_word(s, "extra") {
        "Development"
    } else if is_word(s, "multilib") {
        "Network"
    } else if has_word(s, "testing") {
        "Science"
    } else if starts_with_word(s, "aur") || s.len() == 0 {
        "Game"
    } else {
        "Utility"
    }
}

/// By what packages are put in order: the place of their repository, then their name in lower case.
pub open spec fn group_key(d: DataModel) -> Seq<char> {
    seq![digit_char(repo_order(d.repository))] + lowered(d.name)
}

/// A package with the text by which it is put in order.
struct Ranked {
    rank: String,
    data: PackageData,
}

impl Keyed for Ranked {
    closed spec fn key_text(&self) -> Seq<char> {
        self.rank@
    }

    fn key(&self) -> (r: &str) {
        self.rank.as_str()
    }
}

/// The heading of the group of a repository.
pub open spec fn group_header(repo: Seq<char>) -> DataModel {
    DataModel {
        name: if repo.len() == 0 {
            "unknown"@
        } else {
            repo
        },
        repository: repo,
        backend: (-1) as i32,
        ..blank_data()
    }
}

/// The letter that stands for a name.
pub open spec fn initial_of(name: Seq<char>) -> Seq<char> {
    if name.len() > 0 {
        uppered(seq![name[0]])
    } else {
        uppered(seq!['?'])
    }
}

/// The letter that stands for a name.
pub fn initial(name: &str) -> (out: String)
    ensures
        out@ == initial_of(name@),
{
    let chars = to_chars(name);
    if chars.len() > 0 {
        upper_char(chars[0])
    } else {
        upper_char('?')
    }
}

/// A package in its group, with its letter and the category of its repository.
pub open spec fn grouped_row(d: DataModel) -> DataModel {
    DataModel {
        required_by: initial_of(d.name),
        installed_size: repo_category(d.repository),
        ..d
    }
}

/// The packages with a heading wherever the repository changes from the one before.
pub open spec fn with_headers(list: Seq<DataModel>, repo: Seq<char>) -> Seq<DataModel>
    decreases list.len(),
{
    if list.len() == 0 {
        seq![]
    } else {
        let d = list[0];
        let row = seq![grouped_row(d)] + with_headers(list.skip(1), d.repository);
        if d.repository == repo {
            row
        } else {
            seq![group_header(d.repository)] + row
        }
    }
}

/// The installed packages in groups.
pub open spec fn grouped(list: Seq<DataModel>) -> Seq<DataModel> {
    with_headers(stable_sorted(list, |d: DataModel| group_key(d)), seq![])
}

fn rank(list: Vec<PackageData>) -> (out: Vec<Ranked>)
    ensures
        out@.map_values(|r: Ranked| r.data@) == data_models(list@),
        forall|i: int| 0 <= i < out@.len() ==> (#[trigger] out@[i]).rank@ == group_key(out@[i].data@),
{
    let mut out: Vec<Ranked> = Vec::new();
    for i in 0..list.len()
        invariant
            out@.len() == i,
            forall|j: int| 0 <= j < i ==> (#[trigger] out@[j]).data@ == list@[j]@,
            forall|j: int|
                0 <= j < i ==> (#[trigger] out@[j]).rank@ == group_key(out@[j].data@),
    {
        let data = list[i].copied();
        let mut text = String::new();
        text.push(crate::number::digit_for(repo_display_order(data.repository.as_str()) as u64));
        text.append(to_lower(data.name.as_str()).as_str());
        proof {
            assert(text@ =~= group_key(data@));
        }
        out.push(Ranked { rank: text, data });
    }
    proof {
        assert(out@.map_values(|r: Ranked| r.data@) =~= data_models(list@));
    }
    out
}

/// Puts the installed packages in groups by repository.
pub fn group_installed_by_repo(list: Vec<PackageData>) -> (out: Vec<PackageData>)
    ensures
        data_models(out@) == grouped(data_models(list@)),
{
    let ghost models = data_models(list@);
    let ranked = rank(list);
    let ghost f = |r: Ranked| r.data@;
    let ghost image_key = |d: DataModel| group_key(d);
    proof {
        assert(keys_agree(ranked@, key_of::<Ranked>(), f, image_key)) by {
            assert forall|i: int| 0 <= i < ranked@.len() implies image_key(f(#[trigger] ranked@[i]))
                == (key_of::<Ranked>())(ranked@[i]) by {}
        }
        sorting_maps(ranked@, key_of::<Ranked>(), f, image_key);
    }
    let sorted = sort_by_key(ranked);
    let ghost all = sorted@.map_values(f);
    let mut out: Vec<PackageData> = Vec::new();
    let mut repo = String::new();
    proof {
        assert(all.skip(0) =~= all);
        assert(data_models(out@) + with_headers(all, seq![]) =~= with_headers(all, seq![]));
    }
    for i in 0..sorted.len()
        invariant
            f == (|r: Ranked| r.data@),
            all == sorted@.map_values(f),
            data_models(out@) + with_headers(all.skip(i as int), repo@) == with_headers(
                all,
                seq![],
            ),
    {
        let data = &sorted[i].data;
        let ghost before = data_models(out@);
        let ghost was = repo@;
        let ghost rest = all.skip(i as int);
        proof {
            assert(rest[0] == data@);
            assert(rest.skip(1) =~= all.skip(i + 1));
        }
        if !same_text(data.repository.as_str(), repo.as_str()) {
            let chars = to_chars(data.repository.as_str());
            let label = if chars.len() == 0 {
                own("unknown")
            } else {
                own(data.repository.as_str())
            };
            push_data(
                &mut out,
                PackageData {
                    name: label,
                    repository: own(data.repository.as_str()),
                    backend: -1,
                    ..PackageData::blank()
                },
            );
            repo = own(data.repository.as_str());
        }
        let mut row = data.copied();
        row.required_by = initial(data.name.as_str());
        row.installed_size = own(repo_to_avatar_category(data.repository.as_str()));
        push_data(&mut out, row);
        proof {
            assert(data_models(out@) + with_headers(rest.skip(1), repo@) =~= before + with_headers(
                rest,
                was,
            ));
        }
    }
    proof {
        assert(all.skip(all.len() as int) =~= Seq::<DataModel>::empty());
        assert(data_models(out@) + with_headers(all.skip(all.len() as int), repo@) =~= data_models(
            out@,
        ));
    }
    out
}

/// The order in groups: the place of the repository decides, then the name in lower case.
pub proof fn group_key_order(a: DataModel, b: DataModel)
    ensures
        text_order(group_key(a), group_key(b)) == (if repo_order(a.repository) == repo_order(
            b.repository,
        ) {
            text_order(lowered(a.name), lowered(b.name))
        } else {
            int_order(repo_order(a.repository), repo_order(b.repository))
        }),
{
    let (x, y) = (group_key(a), group_key(b));
    assert(x.skip(1) =~= lowered(a.name));
    assert(y.skip(1) =~= lowered(b.name));
    assert(x[0] == digit_char(repo_order(a.repository)));
    assert(y[0] == digit_char(repo_order(b.repository)));
}

proof fn headers_come_on_top(list: Seq<DataModel>, repo: Seq<char>)
    requires
        forall|i: int| 0 <= i < list.len() ==> !is_header(#[trigger] list[i]),
    ensures
        with_headers(list, repo).filter(packages()) == list.map_values(
            |d: DataModel| grouped_row(d),
        ),
    decreases list.len(),
{
    let f = |d: DataModel| grouped_row(d);
    if list.len() == 0 {
        reveal(Seq::filter);
        assert(list.map_values(f) =~= seq![]);
    } else {
        let d = list[0];
        let rest = list.skip(1);
        assert forall|i: int| 0 <= i < rest.len() implies !is_header(#[trigger] rest[i]) by {
            assert(rest[i] == list[i + 1]);
        }
        headers_come_on_top(rest, d.repository);
        let row = seq![grouped_row(d)];
        let more = with_headers(rest, d.repository);
        let head = seq![group_header(d.repository)];
        Seq::filter_distributes_over_add(row, more, packages());
        Seq::filter_distributes_over_add(head, row + more, packages());
        assert(row.filter(packages()) =~= row && head.filter(packages()) =~= seq![]) by {
            reveal_with_fuel(Seq::filter, 2);
            assert(row.drop_last() =~= seq![]);
            assert(head.drop_last() =~= seq![]);
        }
        assert(list.map_values(f) =~= row + rest.map_values(f));
    }
}

/// Grouping loses no package and shows none twice: without the headings, the groups are the
/// packages in order.
pub proof fn grouping_keeps_packages(list: Seq<DataModel>)
    requires
        forall|i: int| 0 <= i < list.len() ==> !is_header(#[trigger] list[i]),
    ensures
        ({
            let sorted = stable_sorted(list, |d: DataModel| group_key(d));
            &&& grouped(list).filter(packages()) == sorted.map_values(
                |d: DataModel| grouped_row(d),
            )
            &&& sorted.to_multiset() == list.to_multiset()
        }),
{
    broadcast use vstd::seq_lib::group_to_multiset_ensures;

    let sorted = stable_sorted(list, |d: DataModel| group_key(d));
    sorting_is_stable(list, |d: DataModel| group_key(d));
    assert forall|i: int| 0 <= i < sorted.len() implies !is_header(#[trigger] sorted[i]) by {
        assert(sorted.to_multiset().count(sorted[i]) > 0);
        assert(list.to_multiset().count(sorted[i]) > 0);
        assert(list.contains(sorted[i]));
    }
    headers_come_on_top(sorted, seq![]);
}

// ---------------------------------------------------------------------------
// Flatpak lists

/// An installed Flatpak on a line with its identifier, name and version between tabs; a line
/// without a second column or without an identifier has none.
pub open spec fn flatpak_in(line: Seq<char>) -> Option<DataModel> {
    let cols = split_on(line, '\t');
    if cols.len() < 2 || trimmed(cols[0]).len() == 0 {
        None
    } else {
        Some(
            DataModel {
                name: trimmed(cols[0]),
                display_name: trimmed(cols[1]),
                version: if cols.len() > 2 {
                    trimmed(cols[2])
                } else {
                    trimmed(""@)
                },
                repository: "flathub"@,
                backend: 1,
                installed: true,
                required_by: initial_of(trimmed(cols[1])),
                ..blank_data()
            },
        )
    }
}

/// The installed Flatpaks on lines.
pub open spec fn flatpaks_in(list: Seq<Seq<char>>) -> Seq<DataModel>
    decreases list.len(),
{
    if list.len() == 0 {
        seq![]
    } else {
        match flatpak_in(list.last()) {
            Some(d) => flatpaks_in(list.drop_last()).push(d),
            None => flatpaks_in(list.drop_last()),
        }
    }
}

fn flatpak_row(line: &[char]) -> (r: Option<PackageData>)
    ensures
        match r {
            Some(d) => flatpak_in(line@) == Some(d@),
            None => flatpak_in(line@) is None,
        },
{
    let cols = split_char(line, '\t');
    let ghost all = pieces(cols@);
    if cols.len() < 2 {
        return None;
    }
    proof {
        assert(all[0] == cols@[0]@ && all[1] == cols@[1]@);
        if cols@.len() > 2 {
            assert(all[2] == cols@[2]@);
        }
    }
    let id = trim(cols[0].as_slice());
    if id.len() == 0 {
        return None;
    }
    let display = from_chars(trim(cols[1].as_slice()));
    let version = if cols.len() > 2 {
        from_chars(trim(cols[2].as_slice()))
    } else {
        crate::text::trim_text("")
    };
    Some(
        PackageData {
            name: from_chars(id),
            required_by: initial(display.as_str()),
            display_name: display,
            version,
            repository: own("flathub"),
            backend: 1,
            installed: true,
            ..PackageData::blank()
        },
    )
}

/// The installed Flatpaks, from the output of `flatpak list`.
pub fn load_installed_flatpaks(output: &str) -> (out: Vec<PackageData>)
    ensures
        data_models(out@) == flatpaks_in(lines_of(output@)),
{
    let chars = to_chars(output);
    let list = lines(chars.as_slice());
    let ghost all = pieces(list@);
    let mut out: Vec<PackageData> = Vec::new();
    proof {
        assert(data_models(out@) =~= flatpaks_in(all.take(0)));
    }
    for i in 0..list.len()
        invariant
            all == pieces(list@),
            data_models(out@) == flatpaks_in(all.take(i as int)),
    {
        proof {
            assert(all.take(i + 1).last() == list@[i as int]@);
            assert(all.take(i + 1).drop_last() =~= all.take(i as int));
        }
        if let Some(d) = flatpak_row(list[i].as_slice()) {
            push_data(&mut out, d);
        }
    }
    proof {
        assert(all.take(all.len() as int) =~= all);
    }
    out
}

/// The lines that are neither blank nor `except`, without the white space around them.
pub open spec fn names_in(list: Seq<Seq<char>>, except: Seq<char>) -> Seq<Seq<char>>
    decreases list.len(),
{
    if list.len() == 0 {
        seq![]
    } else {
        let front = names_in(list.drop_last(), except);
        let t = trimmed(list.last());
        if t.len() == 0 || t == except {
            front
        } else {
            front.push(t)
        }
    }
}

/// The lines of output that are neither blank nor `except`.
pub fn read_names(output: &str, except: &str) -> (out: Vec<String>)
    ensures
        texts(out@) == names_in(lines_of(output@), except@),
{
    let chars = to_chars(output);
    let list = lines(chars.as_slice());
    let ghost all = pieces(list@);
    let mut out: Vec<String> = Vec::new();
    proof {
        assert(texts(out@) =~= names_in(all.take(0), except@));
    }
    for i in 0..list.len()
        invariant
            all == pieces(list@),
            texts(out@) == names_in(all.take(i as int), except@),
    {
        let ghost had = out@;
        proof {
            assert(all.take(i + 1).last() == list@[i as int]@);
            assert(all.take(i + 1).drop_last() =~= all.take(i as int));
        }
        let t = trim(list[i].as_slice());
        if t.len() > 0 && !is_word(t, except) {
            out.push(from_chars(t));
            proof {
                assert(texts(out@) =~= texts(had).push(t@));
            }
        }
    }
    proof {
        assert(all.take(all.len() as int) =~= all);
    }
    out
}

/// The names of the remotes, from the output of `flatpak remotes`.
pub fn fetch_flatpak_remotes(output: &str) -> (out: Vec<String>)
    ensures
        texts(out@) == names_in(lines_of(output@), "Name"@),
{
    read_names(output, "Name")
}

/// The identifiers of all installed Flatpaks, extensions too, from the output of `flatpak list`.
pub fn get_flatpak_installed_ids(output: &str) -> (out: Vec<String>)
    ensures
        texts(out@) == names_in(lines_of(output@), ""@),
{
    read_names(output, "")
}

// ---------------------------------------------------------------------------
// The packages of a repository

/// The first words of lines.
pub open spec fn first_words(list: Seq<Seq<char>>) -> Set<Seq<char>> {
    Set::new(
        |w: Seq<char>|
            exists|i: int|
                0 <= i < list.len() && words_of(#[trigger] list[i]).len() > 0 && words_of(
                    list[i],
                )[0] == w,
    )
}

/// The names of the repositories, sorted, each once, from the output of `pacman -Sl`.
pub fn load_pacman_repos(output: &str) -> (out: Vec<String>)
    ensures
        strictly_ascending(texts(out@)),
        forall|w: Seq<char>| #[trigger]
            texts(out@).contains(w) == first_words(lines_of(output@)).contains(w),
{
    let chars = to_chars(output);
    let list = lines(chars.as_slice());
    let ghost all = pieces(list@);
    let mut names: Vec<String> = Vec::new();
    for i in 0..list.len()
        invariant
            all == pieces(list@),
            forall|w: Seq<char>| #[trigger]
                texts(names@).contains(w) == first_words(all.take(i as int)).contains(w),
    {
        let ghost had = texts(names@);
        let w = words(list[i].as_slice());
        let ghost line = all[i as int];
        proof {
            assert(line == list@[i as int]@);
        }
        if w.len() > 0 {
            proof {
                assert(pieces(w@)[0] == w@[0]@);
            }
            names.push(from_chars(w[0].as_slice()));
            proof {
                assert(texts(names@) =~= had.push(words_of(line)[0]));
            }
        }
        proof {
            let now = texts(names@);
            assert forall|x: Seq<char>| #[trigger] now.contains(x) == first_words(
                all.take(i + 1),
            ).contains(x) by {
                let upto = all.take(i + 1);
                assert(had.contains(x) == first_words(all.take(i as int)).contains(x));
                if first_words(all.take(i as int)).contains(x) {
                    let j = choose|j: int|
                        0 <= j < i && words_of(#[trigger] all.take(i as int)[j]).len() > 0
                            && words_of(all.take(i as int)[j])[0] == x;
                    assert(upto[j] == all.take(i as int)[j]);
                    let k = choose|k: int| 0 <= k < had.len() && had[k] == x;
                    assert(now[k] == x);
                }
                if first_words(upto).contains(x) {
                    let j = choose|j: int|
                        0 <= j < upto.len() && words_of(#[trigger] upto[j]).len() > 0 && words_of(
                            upto[j],
                        )[0] == x;
                    if j < i {
                        assert(all.take(i as int)[j] == upto[j]);
                    } else {
                        assert(now[had.len() as int] == x);
                    }
                }
                if now.contains(x) {
                    let k = choose|k: int| 0 <= k < now.len() && now[k] == x;
                    if k < had.len() {
                        assert(had[k] == x);
                    } else {
                        assert(upto[i as int] == line);
                    }
                }
            }
        }
    }
    let out = sort_unique(names.as_slice());
    proof {
        assert(all.take(all.len() as int) =~= all);
        assert forall|w: Seq<char>| #[trigger] texts(out@).contains(w) == first_words(
            lines_of(output@),
        ).contains(w) by {
            assert(texts(out@).to_set().contains(w) == texts(names@).to_set().contains(w));
            assert(texts(names@).contains(w) == first_words(all).contains(w));
        }
    }
    out
}

/// The name and the description of a package of a repository on a line of `expac`, which has the
/// repository, the name and the description between tabs; none without a description.
pub open spec fn described_in(line: Seq<char>, repo: Seq<char>) -> Option<(Seq<char>, Seq<char>)> {
    let a = crate::text::index_of(line, '\t') as int;
    if a >= line.len() {
        None
    } else {
        let rest = line.skip(a + 1);
        let b = crate::text::index_of(rest, '\t') as int;
        if b >= rest.len() {
            None
        } else {
            let text = trimmed(rest.skip(b + 1));
            if line.take(a) == repo && text.len() > 0 {
                Some((rest.take(b), text))
            } else {
                None
            }
        }
    }
}

/// The descriptions of the packages of a repository on lines of `expac`; a later line counts.
pub open spec fn descriptions_in(list: Seq<Seq<char>>, repo: Seq<char>) -> Map<
    Seq<char>,
    Seq<char>,
>
    decreases list.len(),
{
    if list.len() == 0 {
        Map::empty()
    } else {
        match described_in(list.last(), repo) {
            Some((name, text)) => descriptions_in(list.drop_last(), repo).insert(name, text),
            None => descriptions_in(list.drop_last(), repo),
        }
    }
}

fn described(line: &[char], repo: &str) -> (r: Option<(String, String)>)
    ensures
        match r {
            Some((name, text)) => described_in(line@, repo@) == Some((name@, text@)),
            None => described_in(line@, repo@) is None,
        },
{
    proof {
        assert(line@.skip(0) =~= line@);
    }
    let a = crate::text::find_char(line, 0, '\t');
    if a == line.len() {
        return None;
    }
    let head = vstd::slice::slice_subrange(line, 0, a);
    let rest = vstd::slice::slice_subrange(line, a + 1, line.len());
    proof {
        assert(head@ =~= line@.take(a as int));
        assert(rest@ =~= line@.skip(a + 1));
        assert(rest@.skip(0) =~= rest@);
    }
    let b = crate::text::find_char(rest, 0, '\t');
    if b == rest.len() {
        return None;
    }
    let name = vstd::slice::slice_subrange(rest, 0, b);
    let tail = vstd::slice::slice_subrange(rest, b + 1, rest.len());
    proof {
        assert(name@ =~= rest@.take(b as int));
        assert(tail@ =~= rest@.skip(b + 1));
    }
    let text = trim(tail);
    if is_word(head, repo) && text.len() > 0 {
        Some((from_chars(name), from_chars(text)))
    } else {
        None
    }
}

/// The descriptions of the packages of a repository, from the output of `expac`.
pub fn load_repo_descriptions(output: &str, repo: &str) -> (m: NameMap)
    ensures
        m@ == descriptions_in(lines_of(output@), repo@),
{
    let chars = to_chars(output);
    let list = lines(chars.as_slice());
    let ghost all = pieces(list@);
    let mut m = NameMap::new();
    for i in 0..list.len()
        invariant
            all == pieces(list@),
            m@ == descriptions_in(all.take(i as int), repo@),
    {
        proof {
            assert(all.take(i + 1).last() == list@[i as int]@);
            assert(all.take(i + 1).drop_last() =~= all.take(i as int));
        }
        if let Some((name, text)) = described(list[i].as_slice(), repo) {
            m.insert(name, text);
        }
    }
    proof {
        assert(all.take(all.len() as int) =~= all);
    }
    m
}

/// A package of a repository on a line of `pacman -Sl`: the repository, the name, the version and,
/// where it is installed, a mark.
pub open spec fn repo_package_in(
    line: Seq<char>,
    descriptions: Map<Seq<char>, Seq<char>>,
    names: Map<Seq<char>, Seq<char>>,
) -> Option<DataModel> {
    let w = words_of(line);
    if w.len() < 3 {
        None
    } else {
        Some(
            DataModel {
                name: w[1],
                display_name: human_name(w[1], names),
                version: w[2],
                description: if descriptions.contains_key(w[1]) {
                    descriptions[w[1]]
                } else {
                    seq![]
                },
                repository: w[0],
                backend: 0,
                installed: w.len() > 3 && w[3] == "[installed]"@,
                ..blank_data()
            },
        )
    }
}

/// The packages of a repository on lines of `pacman -Sl`.
pub open spec fn repo_packages_in(
    list: Seq<Seq<char>>,
    descriptions: Map<Seq<char>, Seq<char>>,
    names: Map<Seq<char>, Seq<char>>,
) -> Seq<DataModel>
    decreases list.len(),
{
    if list.len() == 0 {
        seq![]
    } else {
        let front = repo_packages_in(list.drop_last(), descriptions, names);
        match repo_package_in(list.last(), descriptions, names) {
            Some(d) => front.push(d),
            None => front,
        }
    }
}

fn repo_package(line: &[char], descriptions: &NameMap, names: &NameMap) -> (r: Option<PackageData>)
    ensures
        match r {
            Some(d) => repo_package_in(line@, descriptions@, names@) == Some(d@),
            None => repo_package_in(line@, descriptions@, names@) is None,
        },
{
    let w = words(line);
    let ghost all = pieces(w@);
    if w.len() < 3 {
        return None;
    }
    proof {
        assert(all[0] == w@[0]@ && all[1] == w@[1]@ && all[2] == w@[2]@);
        if w@.len() > 3 {
            assert(all[3] == w@[3]@);
        }
    }
    let name = from_chars(w[1].as_slice());
    let description = match descriptions.get(name.as_str()) {
        Some(text) => own(text),
        None => String::new(),
    };
    let installed = w.len() > 3 && is_word(w[3].as_slice(), "[installed]");
    Some(
        PackageData {
            display_name: humanize_package_name(name.as_str(), names),
            name,
            version: from_chars(w[2].as_slice()),
            description,
            repository: from_chars(w[0].as_slice()),
            backend: 0,
            installed,
            ..PackageData::blank()
        },
    )
}

/// The packages of a repository, from the output of `pacman -Sl`.
pub fn load_repo_packages(output: &str, descriptions: &NameMap, names: &NameMap) -> (out: Vec<
    PackageData,
>)
    ensures
        data_models(out@) == repo_packages_in(lines_of(output@), descriptions@, names@),
{
    let chars = to_chars(output);
    let list = lines(chars.as_slice());
    let ghost all = pieces(list@);
    let mut out: Vec<PackageData> = Vec::new();
    proof {
        assert(data_models(out@) =~= repo_packages_in(all.take(0), descriptions@, names@));
    }
    for i in 0..list.len()
        invariant
            all == pieces(list@),
            data_models(out@) == repo_packages_in(all.take(i as int), descriptions@, names@),
    {
        proof {
            assert(all.take(i + 1).last() == list@[i as int]@);
            assert(all.take(i + 1).drop_last() =~= all.take(i as int));
        }
        if let Some(d) = repo_package(list[i].as_slice(), descriptions, names) {
            push_data(&mut out, d);
        }
    }
    proof {
        assert(all.take(all.len() as int) =~= all);
    }
    out
}

// ---------------------------------------------------------------------------
// Laws

/// The official repositories come first, in their order, then those for testing and all others; what
/// has no repository and what was built locally comes last.
pub proof fn official_repositories_come_first(repo: Seq<char>)
    requires
        repo != "core"@ && repo != "extra"@ && repo != "multilib"@,
    ensures
        repo_order("core"@) < repo_order("extra"@) < repo_order("multilib"@) < repo_order(repo),
        holds(repo, "testing"@) ==> repo_order(repo) < repo_order(seq![]),
        repo.len() > 0 && !holds(repo, "testing"@) && !begins(repo, "aur"@) && repo != "local"@
            ==> repo_order(repo) < repo_order(seq![]) && repo_order(repo) > 3,
        !holds(repo, "testing"@) && (begins(repo, "aur"@) || repo == "local"@) && repo.len() > 0
            ==> repo_order(repo) > repo_order(seq![]),
{
    reveal_strlit("core");
    reveal_strlit("extra");
    reveal_strlit("multilib");
    reveal_strlit("testing");
    assert("core"@.len() == 4 && "extra"@.len() == 5 && "multilib"@.len() == 8);
    let none = Seq::<char>::empty();
    assert(!holds(none, "testing"@)) by {
        if holds(none, "testing"@) {
            let i = choose|i: int| 0 <= i <= none.len() && begins(#[trigger] none.skip(i), "testing"@);
            assert(none.skip(i).len() == 0);
        }
    }
}

/// A line gives the installed Flatpak of its first column, with the name and the version of the next
/// ones, and the Flatpaks keep the order of the lines.
pub proof fn flatpaks_follow_the_lines(
    list: Seq<Seq<char>>,
    id: Seq<char>,
    name: Seq<char>,
    version: Seq<char>,
)
    requires
        !id.contains('\t'),
        !name.contains('\t'),
        !version.contains('\t'),
    ensures
        trimmed(id).len() > 0 ==> {
            let out = flatpaks_in(
                list.push(id.push('\t') + (name.push('\t') + version)),
            );
            &&& out.len() == flatpaks_in(list).len() + 1
            &&& flatpaks_in(list).is_prefix_of(out)
            &&& out.last().name == trimmed(id)
            &&& out.last().display_name == trimmed(name)
            &&& out.last().version == trimmed(version)
            &&& out.last().installed && out.last().backend == 1
        },
        trimmed(id).len() == 0 ==> flatpaks_in(
            list.push(id.push('\t') + (name.push('\t') + version)),
        ) == flatpaks_in(list),
        flatpaks_in(list.push(id)) == flatpaks_in(list),
{
    let line = id.push('\t') + (name.push('\t') + version);
    pieces_follow(id, '\t', name.push('\t') + version);
    pieces_follow(name, '\t', version);
    pieces_follow(version, '\t', seq![]);
    assert(split_on(line, '\t') =~= seq![id, name, version]);
    assert(list.push(line).drop_last() =~= list);
    assert(list.push(id).drop_last() =~= list);
    assert(split_on(id, '\t') =~= seq![id]);
}

/// Every line that is neither blank nor left out gives its name, in order.
pub proof fn names_follow_the_lines(list: Seq<Seq<char>>, line: Seq<char>, except: Seq<char>)
    ensures
        trimmed(line).len() > 0 && trimmed(line) != except ==> names_in(list.push(line), except)
            == names_in(list, except).push(trimmed(line)),
        trimmed(line).len() == 0 || trimmed(line) == except ==> names_in(list.push(line), except)
            == names_in(list, except),
        names_in(Seq::<Seq<char>>::empty(), except) == Seq::<Seq<char>>::empty(),
{
    assert(list.push(line).drop_last() =~= list);
}

/// A package of a repository is read from its line: the repository, the name, the version, and whether
/// it is installed; the packages keep the order of the lines.
pub proof fn repository_lines_are_read(
    list: Seq<Seq<char>>,
    line: Seq<char>,
    descriptions: Map<Seq<char>, Seq<char>>,
    names: Map<Seq<char>, Seq<char>>,
)
    ensures
        words_of(line).len() < 3 ==> repo_packages_in(list.push(line), descriptions, names)
            == repo_packages_in(list, descriptions, names),
        words_of(line).len() >= 3 ==> {
            let out = repo_packages_in(list.push(line), descriptions, names);
            let w = words_of(line);
            &&& out.len() == repo_packages_in(list, descriptions, names).len() + 1
            &&& repo_packages_in(list, descriptions, names).is_prefix_of(out)
            &&& out.last().repository == w[0]
            &&& out.last().name == w[1]
            &&& out.last().version == w[2]
            &&& out.last().installed == (w.len() > 3 && w[3] == "[installed]"@)
            &&& descriptions.contains_key(w[1]) ==> out.last().description == descriptions[w[1]]
            &&& out.last().backend == 0
        },
{
    assert(list.push(line).drop_last() =~= list);
}

/// The description of a package is that of the last line with its repository, its name and a text.
pub proof fn descriptions_are_read(
    list: Seq<Seq<char>>,
    repo: Seq<char>,
    name: Seq<char>,
    text: Seq<char>,
    other: Seq<char>,
)
    requires
        !repo.contains('\t'),
        !name.contains('\t'),
        trimmed(text).len() > 0,
    ensures
        descriptions_in(list.push(repo.push('\t') + (name.push('\t') + text)), repo)
            == descriptions_in(list, repo).insert(name, trimmed(text)),
        other != repo ==> descriptions_in(
            list.push(repo.push('\t') + (name.push('\t') + text)),
            other,
        ) == descriptions_in(list, other),
{
    let rest = name.push('\t') + text;
    let line = repo.push('\t') + rest;
    assert(list.push(line).drop_last() =~= list);
    assert forall|i: int| 0 <= i < repo.len() implies other_than('\t')(#[trigger] line[i]) by {
        assert(line[i] == repo[i]);
    }
    assert(line[repo.len() as int] == '\t');
    run_len_is(line, other_than('\t'), repo.len());
    assert(line.take(repo.len() as int) =~= repo);
    assert(line.skip(repo.len() as int + 1) =~= rest);
    assert forall|i: int| 0 <= i < name.len() implies other_than('\t')(#[trigger] rest[i]) by {
        assert(rest[i] == name[i]);
    }
    assert(rest[name.len() as int] == '\t');
    run_len_is(rest, other_than('\t'), name.len());
    assert(rest.take(name.len() as int) =~= name);
    assert(rest.skip(name.len() as int + 1) =~= text);
}

/// A heading stands over a package exactly where its repository differs from that of the package
/// before it; the heading names that repository.
pub proof fn headings_stand_over_groups(
    front: Seq<DataModel>,
    d: DataModel,
    e: DataModel,
    behind: Seq<DataModel>,
    repo: Seq<char>,
)
    ensures
        with_headers(front.push(d) + (seq![e] + behind), repo) == with_headers(front.push(d), repo)
            + (if e.repository == d.repository {
            seq![]
        } else {
            seq![group_header(e.repository)]
        }) + seq![grouped_row(e)] + with_headers(behind, e.repository),
        group_header(e.repository).repository == e.repository,
        e.repository.len() > 0 ==> group_header(e.repository).name == e.repository,
        group_header(e.repository).backend == -1,
        grouped_row(e).name == e.name && grouped_row(e).version == e.version && grouped_row(e).repository
            == e.repository && grouped_row(e).installed == e.installed,
    decreases front.len(),
{
    let tail = seq![e] + behind;
    let all = front.push(d) + tail;
    assert(tail.skip(1) =~= behind);
    if front.len() == 0 {
        let one = front.push(d);
        assert(all[0] == d);
        assert(all.skip(1) =~= tail);
        assert(one.skip(1) =~= seq![]);
        reveal_with_fuel(with_headers, 2);
        assert(with_headers(all, repo) =~= with_headers(one, repo) + (if e.repository
            == d.repository {
            seq![]
        } else {
            seq![group_header(e.repository)]
        }) + seq![grouped_row(e)] + with_headers(behind, e.repository));
    } else {
        let first = front[0];
        let more = front.skip(1);
        headings_stand_over_groups(more, d, e, behind, first.repository);
        assert(all[0] == first);
        assert(all.skip(1) =~= more.push(d) + tail);
        assert(front.push(d)[0] == first);
        assert(front.push(d).skip(1) =~= more.push(d));
        assert(with_headers(all, repo) =~= with_headers(front.push(d), repo) + (if e.repository
            == d.repository {
            seq![]
        } else {
            seq![group_header(e.repository)]
        }) + seq![grouped_row(e)] + with_headers(behind, e.repository));
    }
}

} // verus!
