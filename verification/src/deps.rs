//! The dependency tree of a package, read from the output of pacman.
use vstd::hash_map::StringHashMap;
use vstd::prelude::*;
use vstd::slice::slice_subrange;

use crate::order::{insert_unique, strictly_ascending};
use crate::text::{begins, ends, ends_with_word, filled, find_char, find_word, first_at,
    first_at_is_first, found_behind, from_chars, has_word, held_within, holds, index_of,
    is_one_word, is_space, is_word, lines, lines_of, list_has, not_found, other_than, own, own_all,
    pieces, run_len_is, same_text, single_word, starts_with_word, tail_run_len, tail_run_len_is,
    texts, to_chars, trim, trimmed, trimming_takes_outer_space, words, words_of,
    words_on_both_sides};

verus! {

// ---------------------------------------------------------------------------
// Names with a text

/// A map from names to texts.
pub struct NameMap {
    map: StringHashMap<String>,
}

impl View for NameMap {
    type V = Map<Seq<char>, Seq<char>>;

    closed spec fn view(&self) -> Map<Seq<char>, Seq<char>> {
        self.map@.map_values(|s: String| s@)
    }
}

impl NameMap {
    /// The empty map.
    pub fn new() -> (m: NameMap)
        ensures
            m@ == Map::<Seq<char>, Seq<char>>::empty(),
    {
        let m = NameMap { map: StringHashMap::new() };
        proof {
            assert(m@ =~= Map::<Seq<char>, Seq<char>>::empty());
        }
        m
    }

    /// Gives a name a text, in place of the one it had.
    pub fn insert(&mut self, name: String, text: String)
        ensures
            final(self)@ == old(self)@.insert(name@, text@),
    {
        let ghost before = self@;
        self.map.insert(name, text);
        proof {
            assert(self@ =~= before.insert(name@, text@));
        }
    }

    /// Whether a name has a text.
    pub fn contains(&self, name: &str) -> (r: bool)
        ensures
            r == self@.contains_key(name@),
    {
        self.map.contains_key(name)
    }

    /// The text of a name.
    pub fn get(&self, name: &str) -> (r: Option<&str>)
        ensures
            match r {
                Some(s) => self@.contains_key(name@) && s@ == self@[name@],
                None => !self@.contains_key(name@),
            },
    {
        match self.map.get(name) {
            Some(s) => Some(s.as_str()),
            None => None,
        }
    }
}

// ---------------------------------------------------------------------------
// Dependency names

/// What stands before the first `sep` in `s`, without the white space around it.
pub open spec fn before(s: Seq<char>, sep: Seq<char>) -> Option<Seq<char>> {
    match first_at(s, sep) {
        Some(k) => Some(trimmed(s.take(k as int))),
        None => None,
    }
}

/// A dependency without its version constraint.
pub open spec fn dep_name(s: Seq<char>) -> Seq<char> {
    let t = trimmed(s);
    match before(t, ">="@) {
        Some(n) => n,
        None => match before(t, "<="@) {
            Some(n) => n,
            None => match before(t, ">"@) {
                Some(n) => n,
                None => match before(t, "<"@) {
                    Some(n) => n,
                    None => match before(t, "="@) {
                        Some(n) => n,
                        None => t,
                    },
                },
            },
        },
    }
}

fn cut_before(s: &[char], sep: &str) -> (r: Option<String>)
    ensures
        match r {
            Some(n) => before(s@, sep@) == Some(n@),
            None => before(s@, sep@) is None,
        },
{
    match find_word(s, sep) {
        Some(k) => {
            let head = slice_subrange(s, 0, k);
            proof {
                assert(head@ =~= s@.take(k as int));
            }
            Some(from_chars(trim(head)))
        },
        None => None,
    }
}

/// A dependency without its version constraint.
pub fn clean_dep_name(s: &str) -> (out: String)
    ensures
        out@ == dep_name(s@),
{
    let chars = to_chars(s);
    let t = trim(chars.as_slice());
    if let Some(n) = cut_before(t, ">=") {
        return n;
    }
    if let Some(n) = cut_before(t, "<=") {
        return n;
    }
    if let Some(n) = cut_before(t, ">") {
        return n;
    }
    if let Some(n) = cut_before(t, "<") {
        return n;
    }
    if let Some(n) = cut_before(t, "=") {
        return n;
    }
    from_chars(t)
}

/// A version without the suffixes of packages built from a repository.
pub open spec fn short_version(v: Seq<char>) -> Seq<char> {
    let head = v.take(index_of(v, '+') as int);
    head.take(head.len() - tail_run_len(head, |c: char| c == '-'))
}

/// Trims the suffixes of packages built from a repository: `5.2.1+r604+g0b99615a8aef-1` becomes
/// `5.2.1`.
pub fn trim_version(v: &str) -> (out: String)
    ensures
        out@ == short_version(v@),
{
    let chars = to_chars(v);
    let s = chars.as_slice();
    let plus = find_char(s, 0, '+');
    proof {
        assert(s@.skip(0) =~= s@);
    }
    let head = slice_subrange(s, 0, plus);
    proof {
        assert(head@ =~= s@.take(plus as int));
    }
    let mut k: usize = head.len();
    while k > 0 && head[k - 1] == '-'
        invariant
            k <= head@.len(),
            forall|j: int| k <= j < head@.len() ==> head@[j] == '-',
        ensures
            k > 0 ==> head@[k - 1] != '-',
        decreases k,
    {
        k = k - 1;
    }
    let out = slice_subrange(head, 0, k);
    proof {
        tail_run_len_is(head@, |c: char| c == '-', (head@.len() - k) as nat);
        assert(out@ =~= head@.take(k as int));
    }
    from_chars(out)
}

// ---------------------------------------------------------------------------
// Installed packages

/// The name and the version on a line of `pacman -Q`; a line without a space has none.
pub open spec fn name_and_version(line: Seq<char>) -> Option<(Seq<char>, Seq<char>)> {
    let k = index_of(line, ' ');
    if k < line.len() {
        Some((line.take(k as int), trimmed(line.skip(k as int + 1))))
    } else {
        None
    }
}

/// The versions of the packages that lines of `pacman -Q` name; a later line counts.
pub open spec fn versions_in(list: Seq<Seq<char>>) -> Map<Seq<char>, Seq<char>>
    decreases list.len(),
{
    if list.len() == 0 {
        Map::empty()
    } else {
        match name_and_version(list.last()) {
            Some((name, version)) => versions_in(list.drop_last()).insert(name, version),
            None => versions_in(list.drop_last()),
        }
    }
}

/// The versions of the installed packages, from the output of `pacman -Q`.
pub fn all_installed_map(output: &str) -> (m: NameMap)
    ensures
        m@ == versions_in(lines_of(output@)),
{
    let chars = to_chars(output);
    let list = lines(chars.as_slice());
    let ghost all = pieces(list@);
    let mut m = NameMap::new();
    for i in 0..list.len()
        invariant
            all == pieces(list@),
            m@ == versions_in(all.take(i as int)),
    {
        let line = list[i].as_slice();
        proof {
            assert(all.take(i + 1).last() == line@);
            assert(all.take(i + 1).drop_last() =~= all.take(i as int));
            assert(line@.skip(0) =~= line@);
        }
        let k = find_char(line, 0, ' ');
        if k < line.len() {
            let name = slice_subrange(line, 0, k);
            let version = slice_subrange(line, k + 1, line.len());
            proof {
                assert(name@ =~= line@.take(k as int));
                assert(version@ =~= line@.skip(k + 1));
            }
            m.insert(from_chars(name), from_chars(trim(version)));
        }
    }
    proof {
        assert(all.take(all.len() as int) =~= all);
    }
    m
}

// ---------------------------------------------------------------------------
// Fields of package information

/// Whether a line continues the value of the line before it.
pub open spec fn is_continuation(line: Seq<char>) -> bool {
    line.len() > 0 && (line[0] == ' ' || line[0] == '\t')
}

/// The value on a line that starts with `key`: what follows the first colon after it.
pub open spec fn value_of(line: Seq<char>, key: Seq<char>) -> Option<Seq<char>> {
    if begins(line, key) {
        let rest = line.skip(key.len() as int);
        let k = index_of(rest, ':');
        if k < rest.len() {
            Some(rest.skip(k as int + 1))
        } else {
            None
        }
    } else {
        None
    }
}

/// The words of a value, without `None`.
pub open spec fn entries(value: Seq<char>) -> Seq<Seq<char>> {
    words_of(value).filter(|w: Seq<char>| w != "None"@)
}

/// The dependencies that a value lists.
pub open spec fn dep_entries(value: Seq<char>) -> Seq<Seq<char>> {
    entries(value).map_values(|w: Seq<char>| dep_name(w))
}

/// The dependencies that a value lists with a remark behind a colon.
pub open spec fn remarked_entries(value: Seq<char>) -> Seq<Seq<char>> {
    entries(value).map_values(|w: Seq<char>| dep_name(w.take(index_of(w, ':') as int)))
}

fn continues(line: &[char]) -> (r: bool)
    ensures
        r == is_continuation(line@),
{
    line.len() > 0 && (line[0] == ' ' || line[0] == '\t')
}

fn value<'a>(line: &'a [char], key: &str) -> (r: Option<&'a [char]>)
    ensures
        match r {
            Some(v) => value_of(line@, key@) == Some(v@),
            None => value_of(line@, key@) is None,
        },
{
    if !starts_with_word(line, key) {
        return None;
    }
    let key_chars = to_chars(key);
    let rest = slice_subrange(line, key_chars.len(), line.len());
    proof {
        assert(rest@ =~= line@.skip(key@.len() as int));
        assert(rest@.skip(0) =~= rest@);
    }
    let k = find_char(rest, 0, ':');
    if k == rest.len() {
        return None;
    }
    let out = slice_subrange(rest, k + 1, rest.len());
    proof {
        assert(out@ =~= rest@.skip(k + 1));
    }
    Some(out)
}

/// How the words of a value are taken.
#[derive(Debug, Clone, Copy)]
enum Taking {
    /// As they are.
    Plain,
    /// As dependencies.
    Deps,
    /// As dependencies with a remark behind a colon.
    Remarked,
}

spec fn taken(value: Seq<char>, how: Taking) -> Seq<Seq<char>> {
    match how {
        Taking::Plain => entries(value),
        Taking::Deps => dep_entries(value),
        Taking::Remarked => remarked_entries(value),
    }
}

fn take_entries(value: &[char], how: Taking, out: &mut Vec<String>)
    ensures
        texts(final(out)@) == texts(old(out)@) + taken(value@, how),
{
    let list = words(value);
    let ghost all = pieces(list@);
    let ghost keep = |w: Seq<char>| w != "None"@;
    let ghost f = |w: Seq<char>|
        match how {
            Taking::Plain => w,
            Taking::Deps => dep_name(w),
            Taking::Remarked => dep_name(w.take(index_of(w, ':') as int)),
        };
    let ghost start = texts(out@);
    proof {
        assert(all.take(0) =~= Seq::<Seq<char>>::empty());
        assert(all.take(0).filter(keep) =~= Seq::<Seq<char>>::empty()) by {
            reveal(Seq::filter);
        }
        assert(texts(out@) =~= start + all.take(0).filter(keep).map_values(f));
    }
    for i in 0..list.len()
        invariant
            all == pieces(list@),
            all == words_of(value@),
            keep == (|w: Seq<char>| w != "None"@),
            f == (|w: Seq<char>|
                match how {
                    Taking::Plain => w,
                    Taking::Deps => dep_name(w),
                    Taking::Remarked => dep_name(w.take(index_of(w, ':') as int)),
                }),
            texts(out@) == start + all.take(i as int).filter(keep).map_values(f),
    {
        let w = list[i].as_slice();
        let ghost before = texts(out@);
        let ghost had = all.take(i as int).filter(keep);
        proof {
            assert(all.take(i + 1) =~= all.take(i as int).push(w@));
            all.take(i as int).lemma_filter_push(w@, keep);
        }
        if !is_word(w, "None") {
            let text = match how {
                Taking::Plain => from_chars(w),
                Taking::Deps => clean_dep_name(from_chars(w).as_str()),
                Taking::Remarked => {
                    proof {
                        assert(w@.skip(0) =~= w@);
                    }
                    let k = find_char(w, 0, ':');
                    let head = slice_subrange(w, 0, k);
                    proof {
                        assert(head@ =~= w@.take(k as int));
                    }
                    clean_dep_name(from_chars(head).as_str())
                },
            };
            out.push(text);
            proof {
                assert(texts(out@) =~= before.push(f(w@)));
                assert(had.push(w@).map_values(f) =~= had.map_values(f).push(f(w@)));
                assert(before.push(f(w@)) =~= start + had.map_values(f).push(f(w@)));
            }
        }
    }
    proof {
        assert(all.take(all.len() as int) =~= all);
        assert(all.filter(keep).map_values(f) =~= taken(value@, how));
    }
}

// ---------------------------------------------------------------------------
// One package

/// The dependencies of a package.
#[derive(Debug)]
pub struct PackageDeps {
    pub depends: Vec<String>,
    pub optional: Vec<String>,
    pub required_by: Vec<String>,
}

/// The dependencies of a package.
pub struct DepsModel {
    pub depends: Seq<Seq<char>>,
    pub optional: Seq<Seq<char>>,
    pub required_by: Seq<Seq<char>>,
}

impl View for PackageDeps {
    type V = DepsModel;

    open spec fn view(&self) -> DepsModel {
        DepsModel {
            depends: texts(self.depends@),
            optional: texts(self.optional@),
            required_by: texts(self.required_by@),
        }
    }
}

/// The field that a line belongs to.
#[derive(Debug, Clone, Copy, PartialEq, Eq, Structural)]
pub enum Section {
    Other,
    Depends,
    Optional,
    RequiredBy,
}

/// What has been read of the information on a package.
pub struct BlockModel {
    pub section: Section,
    /// Whether the name of the package has been read.
    pub named: bool,
    pub deps: DepsModel,
}

/// Before anything has been read.
pub open spec fn empty_block() -> BlockModel {
    BlockModel {
        section: Section::Other,
        named: false,
        deps: DepsModel { depends: seq![], optional: seq![], required_by: seq![] },
    }
}

/// The dependencies with those of an installed package's field.
pub open spec fn with_entries(d: DepsModel, section: Section, value: Seq<char>) -> DepsModel {
    match section {
        Section::Other => d,
        Section::Depends => DepsModel { depends: d.depends + dep_entries(value), ..d },
        Section::Optional => DepsModel { optional: d.optional + remarked_entries(value), ..d },
        Section::RequiredBy => DepsModel { required_by: d.required_by + entries(value), ..d },
    }
}

/// The field of an installed package that starts on a line, with its value.
pub open spec fn field_of(line: Seq<char>) -> (Section, Seq<char>) {
    match value_of(line, "Depends On"@) {
        Some(v) => (Section::Depends, v),
        None => match value_of(line, "Optional Deps"@) {
            Some(v) => (Section::Optional, v),
            None => match value_of(line, "Required By"@) {
                Some(v) => (Section::RequiredBy, v),
                None => (Section::Other, seq![]),
            },
        },
    }
}

/// Whether a line gives the name of a package.
pub open spec fn names_package(line: Seq<char>) -> bool {
    !is_continuation(line) && value_of(line, "Name"@) is Some
}

/// After a line of the information on an installed package.
pub open spec fn block_after(m: BlockModel, line: Seq<char>) -> BlockModel {
    if is_continuation(line) {
        BlockModel { deps: with_entries(m.deps, m.section, line), ..m }
    } else {
        let (section, v) = field_of(line);
        BlockModel {
            section,
            named: m.named || names_package(line),
            deps: with_entries(m.deps, section, v),
        }
    }
}

/// After the lines of the first package.
pub open spec fn block_after_lines(m: BlockModel, list: Seq<Seq<char>>) -> BlockModel
    decreases list.len(),
{
    if list.len() == 0 || (m.named && names_package(list[0])) {
        m
    } else {
        block_after_lines(block_after(m, list[0]), list.skip(1))
    }
}

/// What `pacman -Qi` says of the dependencies of the first package.
pub open spec fn installed_deps(output: Seq<char>) -> DepsModel {
    block_after_lines(empty_block(), lines_of(output)).deps
}

fn add_entries(d: PackageDeps, section: Section, value: &[char]) -> (r: PackageDeps)
    ensures
        r@ == with_entries(d@, section, value@),
{
    let mut d = d;
    match section {
        Section::Other => {},
        Section::Depends => take_entries(value, Taking::Deps, &mut d.depends),
        Section::Optional => take_entries(value, Taking::Remarked, &mut d.optional),
        Section::RequiredBy => take_entries(value, Taking::Plain, &mut d.required_by),
    }
    d
}

fn field<'a>(line: &'a [char]) -> (r: (Section, &'a [char]))
    ensures
        r.0 == field_of(line@).0,
        r.0 != Section::Other ==> r.1@ == field_of(line@).1,
{
    if let Some(v) = value(line, "Depends On") {
        (Section::Depends, v)
    } else if let Some(v) = value(line, "Optional Deps") {
        (Section::Optional, v)
    } else if let Some(v) = value(line, "Required By") {
        (Section::RequiredBy, v)
    } else {
        (Section::Other, line)
    }
}

fn no_deps() -> (d: PackageDeps)
    ensures
        d@ == empty_block().deps,
{
    let d = PackageDeps { depends: Vec::new(), optional: Vec::new(), required_by: Vec::new() };
    proof {
        assert(texts(d.depends@) =~= seq![]);
        assert(texts(d.optional@) =~= seq![]);
        assert(texts(d.required_by@) =~= seq![]);
    }
    d
}

/// Reads the dependencies of the first package in the output of `pacman -Qi`, as they are written.
pub fn parse_qi_fields(output: &str) -> (d: PackageDeps)
    ensures
        d@ == installed_deps(output@),
{
    let chars = to_chars(output);
    let list = lines(chars.as_slice());
    let ghost all = pieces(list@);
    let ghost want = block_after_lines(empty_block(), all);
    let mut section = Section::Other;
    let mut named = false;
    let mut d = no_deps();
    let mut i: usize = 0;
    proof {
        assert(all.skip(0) =~= all);
    }
    while i < list.len()
        invariant
            i <= list@.len(),
            all == pieces(list@),
            want == block_after_lines(
                BlockModel { section, named, deps: d@ },
                all.skip(i as int),
            ),
        ensures
            want.deps == d@,
        decreases list@.len() - i,
    {
        let line = list[i].as_slice();
        proof {
            assert(all.skip(i as int)[0] == line@);
            assert(all.skip(i as int).skip(1) =~= all.skip(i + 1));
        }
        if continues(line) {
            d = add_entries(d, section, line);
        } else {
            let names = value(line, "Name").is_some();
            if named && names {
                break;
            }
            let (s, v) = field(line);
            named = named || names;
            section = s;
            d = add_entries(d, s, v);
        }
        i = i + 1;
    }
    d
}

/// The field of a package that is not installed after a line: it ends at the next line with a
/// colon.
pub open spec fn sync_section(m: Section, line: Seq<char>) -> Section {
    if is_continuation(line) {
        m
    } else if value_of(line, "Depends On"@) is Some {
        Section::Depends
    } else if value_of(line, "Optional Deps"@) is Some {
        Section::Optional
    } else if holds(line, ":"@) {
        Section::Other
    } else {
        m
    }
}

/// What a line of the information on a package that is not installed lists.
pub open spec fn sync_value(line: Seq<char>) -> Seq<char> {
    if is_continuation(line) {
        trimmed(line)
    } else {
        match value_of(line, "Depends On"@) {
            Some(v) => v,
            None => match value_of(line, "Optional Deps"@) {
                Some(v) => v,
                None => seq![],
            },
        }
    }
}

/// Whether a line of the information on a package that is not installed lists anything.
pub open spec fn sync_lists(line: Seq<char>) -> bool {
    is_continuation(line) || value_of(line, "Depends On"@) is Some || value_of(
        line,
        "Optional Deps"@,
    ) is Some
}

/// After a line of the information on a package that is not installed.
pub open spec fn sync_after(m: BlockModel, line: Seq<char>) -> BlockModel {
    let section = sync_section(m.section, line);
    BlockModel {
        section,
        named: m.named,
        deps: if !sync_lists(line) {
            m.deps
        } else if section == Section::Depends {
            DepsModel { depends: m.deps.depends + remarked_entries(sync_value(line)), ..m.deps }
        } else if section == Section::Optional {
            DepsModel { optional: m.deps.optional + remarked_entries(sync_value(line)), ..m.deps }
        } else {
            m.deps
        },
    }
}

/// After the lines of the information on a package that is not installed.
pub open spec fn sync_after_lines(m: BlockModel, list: Seq<Seq<char>>) -> BlockModel
    decreases list.len(),
{
    if list.len() == 0 {
        m
    } else {
        sync_after_lines(sync_after(m, list[0]), list.skip(1))
    }
}

/// What `pacman -Si` says of the dependencies of a package.
pub open spec fn sync_deps(output: Seq<char>) -> DepsModel {
    sync_after_lines(empty_block(), lines_of(output)).deps
}

/// Reads the dependencies in the output of `pacman -Si`, as they are written.
pub fn parse_si_fields(output: &str) -> (d: PackageDeps)
    ensures
        d@ == sync_deps(output@),
{
    let chars = to_chars(output);
    let list = lines(chars.as_slice());
    let ghost all = pieces(list@);
    let ghost want = sync_after_lines(empty_block(), all);
    let mut section = Section::Other;
    let mut d = no_deps();
    proof {
        assert(all.skip(0) =~= all);
    }
    for i in 0..list.len()
        invariant
            all == pieces(list@),
            want == sync_after_lines(
                BlockModel { section, named: false, deps: d@ },
                all.skip(i as int),
            ),
    {
        let line = list[i].as_slice();
        let ghost m = BlockModel { section, named: false, deps: d@ };
        proof {
            assert(all.skip(i as int)[0] == line@);
            assert(all.skip(i as int).skip(1) =~= all.skip(i + 1));
        }
        let found: Option<&[char]> = if continues(line) {
            Some(trim(line))
        } else if let Some(v) = value(line, "Depends On") {
            section = Section::Depends;
            Some(v)
        } else if let Some(v) = value(line, "Optional Deps") {
            section = Section::Optional;
            Some(v)
        } else {
            if has_word(line, ":") {
                section = Section::Other;
            }
            None
        };
        if let Some(v) = found {
            if section == Section::Depends {
                take_entries(v, Taking::Remarked, &mut d.depends);
            } else if section == Section::Optional {
                take_entries(v, Taking::Remarked, &mut d.optional);
            }
        }
        proof {
            assert(BlockModel { section, named: false, deps: d@ } == sync_after(m, line@));
        }
    }
    d
}

// ---------------------------------------------------------------------------
// Resolving names

/// The packages that dependencies stand for: a path stands for the package that owns it, once, and
/// for none where no package does; a library name stands for none.
pub open spec fn resolved(list: Seq<Seq<char>>, owners: Map<Seq<char>, Seq<char>>) -> Seq<
    Seq<char>,
>
    decreases list.len(),
{
    if list.len() == 0 {
        seq![]
    } else {
        let r = resolved(list.drop_last(), owners);
        let dep = list.last();
        if is_path(dep) {
            if owners.contains_key(dep) && !r.contains(owners[dep]) {
                r.push(owners[dep])
            } else {
                r
            }
        } else if holds(dep, ".so"@) {
            r
        } else {
            r.push(dep)
        }
    }
}

/// The names of dependencies.
pub open spec fn dep_names(list: Seq<Seq<char>>) -> Seq<Seq<char>> {
    list.map_values(|w: Seq<char>| dep_name(w))
}

/// Whether a dependency is the path of a file.
pub open spec fn is_path(dep: Seq<char>) -> bool {
    dep.len() > 0 && dep[0] == '/'
}

fn path(dep: &[char]) -> (r: bool)
    ensures
        r == is_path(dep@),
{
    dep.len() > 0 && dep[0] == '/'
}

/// The paths among dependencies.
pub fn file_deps(list: &[String]) -> (out: Vec<String>)
    ensures
        texts(out@) == texts(list@).filter(|d: Seq<char>| is_path(d)),
{
    let mut out: Vec<String> = Vec::new();
    let ghost all = texts(list@);
    let ghost keep = |d: Seq<char>| is_path(d);
    proof {
        assert(texts(out@) =~= all.take(0).filter(keep)) by {
            reveal(Seq::filter);
        }
    }
    for i in 0..list.len()
        invariant
            all == texts(list@),
            keep == (|d: Seq<char>| is_path(d)),
            texts(out@) == all.take(i as int).filter(keep),
    {
        let ghost had = out@;
        proof {
            assert(all.take(i + 1) =~= all.take(i as int).push(all[i as int]));
            all.take(i as int).lemma_filter_push(all[i as int], keep);
        }
        let chars = to_chars(list[i].as_str());
        if path(chars.as_slice()) {
            out.push(own(list[i].as_str()));
            proof {
                assert(texts(out@) =~= texts(had).push(all[i as int]));
            }
        }
    }
    proof {
        assert(all.take(all.len() as int) =~= all);
    }
    out
}

/// The paths among the words of output, as dependencies are written.
pub fn paths_in(output: &str) -> (out: Vec<String>)
    ensures
        texts(out@) == dep_names(words_of(output@)).filter(|d: Seq<char>| is_path(d)),
{
    let chars = to_chars(output);
    let list = words(chars.as_slice());
    let ghost all = pieces(list@);
    let mut cleaned: Vec<String> = Vec::new();
    for i in 0..list.len()
        invariant
            all == pieces(list@),
            cleaned@.len() == i,
            forall|j: int| 0 <= j < i ==> (#[trigger] cleaned@[j])@ == dep_name(all[j]),
    {
        let word = from_chars(list[i].as_slice());
        cleaned.push(clean_dep_name(word.as_str()));
    }
    proof {
        assert(texts(cleaned@) =~= dep_names(all));
    }
    file_deps(cleaned.as_slice())
}

/// The packages that dependencies stand for, given the packages that own the paths among them.
pub fn resolve_dep_list(list: &[String], owners: &NameMap) -> (out: Vec<String>)
    ensures
        texts(out@) == resolved(texts(list@), owners@),
{
    let mut out: Vec<String> = Vec::new();
    let ghost all = texts(list@);
    proof {
        assert(texts(out@) =~= resolved(all.take(0), owners@));
    }
    for i in 0..list.len()
        invariant
            all == texts(list@),
            texts(out@) == resolved(all.take(i as int), owners@),
    {
        let dep = list[i].as_str();
        let chars = to_chars(dep);
        let ghost had = out@;
        proof {
            assert(all.take(i + 1).last() == dep@);
            assert(all.take(i + 1).drop_last() =~= all.take(i as int));
        }
        if path(chars.as_slice()) {
            if let Some(owner) = owners.get(dep) {
                if !list_has(out.as_slice(), owner) {
                    out.push(own(owner));
                    proof {
                        assert(texts(out@) =~= texts(had).push(owner@));
                    }
                }
            }
        } else if !has_word(chars.as_slice(), ".so") {
            out.push(own(dep));
            proof {
                assert(texts(out@) =~= texts(had).push(dep@));
            }
        }
    }
    proof {
        assert(all.take(all.len() as int) =~= all);
    }
    out
}

/// The package that `pacman -Qo` names: the first word after `is owned by`.
pub open spec fn owner_in(output: Seq<char>) -> Option<Seq<char>> {
    match first_at(output, "is owned by "@) {
        Some(k) => {
            let rest = output.skip((k + "is owned by "@.len()) as int);
            let piece = match first_at(rest, "is owned by "@) {
                Some(j) => rest.take(j as int),
                None => rest,
            };
            if words_of(piece).len() > 0 {
                Some(words_of(piece)[0])
            } else {
                None
            }
        },
        None => None,
    }
}

/// The package that owns a file, from the output of `pacman -Qo`.
pub fn resolve_file_dep(output: &str) -> (r: Option<String>)
    ensures
        match r {
            Some(p) => owner_in(output@) == Some(p@),
            None => owner_in(output@) is None,
        },
{
    let chars = to_chars(output);
    let s = chars.as_slice();
    let mark = to_chars("is owned by ");
    let total: usize = s.len();
    match find_word(s, "is owned by ") {
        Some(k) => {
            let rest = slice_subrange(s, k + mark.len(), total);
            proof {
                assert(rest@ =~= s@.skip(k + mark@.len()));
            }
            let end: usize = match find_word(rest, "is owned by ") {
                Some(j) => j,
                None => rest.len(),
            };
            let piece = slice_subrange(rest, 0, end);
            proof {
                assert(piece@ =~= rest@.take(end as int));
                assert(rest@.take(rest@.len() as int) =~= rest@);
            }
            let list = words(piece);
            if list.len() > 0 {
                proof {
                    assert(pieces(list@)[0] == list@[0]@);
                }
                Some(from_chars(list[0].as_slice()))
            } else {
                None
            }
        },
        None => None,
    }
}

/// Reads the dependencies of the first package in the output of `pacman -Qi`.
pub fn parse_qi_block(output: &str, owners: &NameMap) -> (d: PackageDeps)
    ensures
        d@.depends == resolved(installed_deps(output@).depends, owners@),
        d@.optional == resolved(installed_deps(output@).optional, owners@),
        d@.required_by == installed_deps(output@).required_by,
{
    let raw = parse_qi_fields(output);
    PackageDeps {
        depends: resolve_dep_list(raw.depends.as_slice(), owners),
        optional: resolve_dep_list(raw.optional.as_slice(), owners),
        required_by: raw.required_by,
    }
}

/// Reads the dependencies in the output of `pacman -Si`. Nothing is known of the packages that
/// require a package that is not installed.
pub fn parse_si_block(output: &str, owners: &NameMap) -> (d: PackageDeps)
    ensures
        d@.depends == resolved(sync_deps(output@).depends, owners@),
        d@.optional == resolved(sync_deps(output@).optional, owners@),
        d@.required_by == Seq::<Seq<char>>::empty(),
{
    let raw = parse_si_fields(output);
    let d = PackageDeps {
        depends: resolve_dep_list(raw.depends.as_slice(), owners),
        optional: resolve_dep_list(raw.optional.as_slice(), owners),
        required_by: Vec::new(),
    };
    proof {
        assert(texts(d.required_by@) =~= Seq::<Seq<char>>::empty());
    }
    d
}

// ---------------------------------------------------------------------------
// Many packages

/// The dependencies of one package of many.
#[derive(Debug)]
pub struct DepEntry {
    pub name: String,
    pub deps: Vec<String>,
}

/// The dependencies of the packages of a list; a later entry of the same name counts.
pub open spec fn dep_table(list: Seq<DepEntry>) -> Map<Seq<char>, Seq<Seq<char>>>
    decreases list.len(),
{
    if list.len() == 0 {
        Map::empty()
    } else {
        dep_table(list.drop_last()).insert(list.last().name@, texts(list.last().deps@))
    }
}

/// What has been read of the information on many packages.
pub struct BatchModel {
    pub name: Seq<char>,
    pub deps: Seq<Seq<char>>,
    pub in_depends: bool,
    pub table: Map<Seq<char>, Seq<Seq<char>>>,
}

/// The dependencies of the package read last are entered, where it has a name.
pub open spec fn entered(m: BatchModel, owners: Map<Seq<char>, Seq<char>>) -> BatchModel {
    if m.name.len() > 0 {
        BatchModel {
            deps: seq![],
            table: m.table.insert(m.name, resolved(m.deps, owners)),
            ..m
        }
    } else {
        m
    }
}

/// After a line of the information on many packages.
pub open spec fn batch_after(
    m: BatchModel,
    line: Seq<char>,
    owners: Map<Seq<char>, Seq<char>>,
) -> BatchModel {
    if is_continuation(line) {
        if m.in_depends {
            BatchModel { deps: m.deps + dep_entries(line), ..m }
        } else {
            m
        }
    } else {
        match value_of(line, "Name"@) {
            Some(v) => BatchModel { name: trimmed(v), in_depends: false, ..entered(m, owners) },
            None => match value_of(line, "Depends On"@) {
                Some(v) => BatchModel { deps: m.deps + dep_entries(v), in_depends: true, ..m },
                None => BatchModel { in_depends: false, ..m },
            },
        }
    }
}

/// After the lines of the information on many packages.
pub open spec fn batch_after_lines(
    m: BatchModel,
    list: Seq<Seq<char>>,
    owners: Map<Seq<char>, Seq<char>>,
) -> BatchModel
    decreases list.len(),
{
    if list.len() == 0 {
        m
    } else {
        batch_after_lines(batch_after(m, list[0], owners), list.skip(1), owners)
    }
}

/// What `pacman -Qi` says of the dependencies of many packages.
pub open spec fn batch_of(
    output: Seq<char>,
    owners: Map<Seq<char>, Seq<char>>,
) -> Map<Seq<char>, Seq<Seq<char>>> {
    let start = BatchModel {
        name: seq![],
        deps: seq![],
        in_depends: false,
        table: Map::empty(),
    };
    entered(batch_after_lines(start, lines_of(output), owners), owners).table
}

fn enter(table: &mut Vec<DepEntry>, name: String, deps: Vec<String>)
    ensures
        dep_table(final(table)@) == dep_table(old(table)@).insert(name@, texts(deps@)),
{
    let ghost before = table@;
    table.push(DepEntry { name, deps });
    proof {
        assert(table@.drop_last() =~= before);
    }
}

/// Reads the dependencies of many packages in the output of `pacman -Qi`, given the packages that
/// own the paths among them.
pub fn batch_deps(output: &str, owners: &NameMap) -> (table: Vec<DepEntry>)
    ensures
        dep_table(table@) == batch_of(output@, owners@),
{
    let chars = to_chars(output);
    let list = lines(chars.as_slice());
    let ghost all = pieces(list@);
    let mut table: Vec<DepEntry> = Vec::new();
    let mut name = String::new();
    let mut deps: Vec<String> = Vec::new();
    let mut in_depends = false;
    let ghost start = BatchModel {
        name: seq![],
        deps: seq![],
        in_depends: false,
        table: Map::empty(),
    };
    let ghost want = batch_after_lines(start, all, owners@);
    proof {
        assert(all.skip(0) =~= all);
        assert(texts(deps@) =~= seq![]);
    }
    for i in 0..list.len()
        invariant
            all == pieces(list@),
            want == batch_after_lines(
                BatchModel {
                    name: name@,
                    deps: texts(deps@),
                    in_depends,
                    table: dep_table(table@),
                },
                all.skip(i as int),
                owners@,
            ),
    {
        let line = list[i].as_slice();
        proof {
            assert(all.skip(i as int)[0] == line@);
            assert(all.skip(i as int).skip(1) =~= all.skip(i + 1));
        }
        if continues(line) {
            if in_depends {
                take_entries(line, Taking::Deps, &mut deps);
            }
        } else if let Some(v) = value(line, "Name") {
            if filled(name.as_str()) {
                let found = resolve_dep_list(deps.as_slice(), owners);
                enter(&mut table, name, found);
                deps = Vec::new();
                proof {
                    assert(texts(deps@) =~= seq![]);
                }
            }
            name = from_chars(trim(v));
            in_depends = false;
        } else if let Some(v) = value(line, "Depends On") {
            take_entries(v, Taking::Deps, &mut deps);
            in_depends = true;
        } else {
            in_depends = false;
        }
    }
    if filled(name.as_str()) {
        let found = resolve_dep_list(deps.as_slice(), owners);
        enter(&mut table, name, found);
    }
    table
}

/// The dependencies of a package.
fn deps_of<'a>(table: &'a Vec<DepEntry>, name: &str) -> (r: Option<&'a Vec<String>>)
    ensures
        match r {
            Some(deps) => dep_table(table@).contains_key(name@) && texts(deps@)
                == dep_table(table@)[name@],
            None => !dep_table(table@).contains_key(name@),
        },
{
    let mut k: usize = table.len();
    let ghost all = table@;
    proof {
        assert(all.take(k as int) =~= all);
    }
    while k > 0
        invariant
            k <= table@.len(),
            all == table@,
            dep_table(all).contains_key(name@) == dep_table(all.take(k as int)).contains_key(name@),
            dep_table(all.take(k as int)).contains_key(name@) ==> dep_table(all)[name@]
                == dep_table(all.take(k as int))[name@],
        decreases k,
    {
        proof {
            assert(all.take(k as int).last() == all[k - 1]);
            assert(all.take(k as int).drop_last() =~= all.take(k - 1));
        }
        if same_text(table[k - 1].name.as_str(), name) {
            return Some(&table[k - 1].deps);
        }
        k = k - 1;
    }
    None
}

/// Whether a line of `pacman -Ss` is the head line of a package: it starts with the repository and
/// the name.
pub open spec fn lists_package(line: Seq<char>, name: Seq<char>) -> bool {
    &&& holds(line, "/"@)
    &&& words_of(line).len() > 0
    &&& ends(words_of(line)[0], "/"@ + name + "/"@) || ends(words_of(line)[0], "/"@ + name)
}

/// Whether a head line bears the mark of an installed package, which may hold a version.
pub open spec fn marked_installed(line: Seq<char>) -> bool {
    exists|i: int|
        0 <= i < words_of(line).len() && begins(#[trigger] words_of(line)[i], "[installed"@)
}

/// Whether lines list a package of that name.
pub open spec fn listed(name: Seq<char>, list: Seq<Seq<char>>) -> bool {
    exists|i: int| 0 <= i < list.len() && lists_package(#[trigger] list[i], name)
}

/// Whether lines list a package of that name as installed.
pub open spec fn listed_installed(name: Seq<char>, list: Seq<Seq<char>>) -> bool {
    exists|i: int|
        0 <= i < list.len() && lists_package(#[trigger] list[i], name) && marked_installed(list[i])
}

/// Whether a package is in a repository and not installed, according to the output of `pacman -Ss`.
pub open spec fn available(name: Seq<char>, output: Seq<char>) -> bool {
    listed(name, lines_of(output)) && !listed_installed(name, lines_of(output))
}

fn has_mark(line: &[char]) -> (r: bool)
    ensures
        r == marked_installed(line@),
{
    let list = words(line);
    let ghost all = pieces(list@);
    for i in 0..list.len()
        invariant
            all == pieces(list@),
            all == words_of(line@),
            forall|j: int| 0 <= j < i ==> !begins(#[trigger] all[j], "[installed"@),
    {
        proof {
            assert(all[i as int] == list@[i as int]@);
        }
        if starts_with_word(list[i].as_slice(), "[installed") {
            return true;
        }
    }
    false
}

fn is_head_line(line: &[char], name: &str) -> (r: bool)
    ensures
        r == lists_package(line@, name@),
{
    if !has_word(line, "/") {
        return false;
    }
    let list = words(line);
    if list.len() == 0 {
        return false;
    }
    proof {
        assert(pieces(list@)[0] == list@[0]@);
    }
    let mut short = own("/");
    short.append(name);
    let mut long = own(short.as_str());
    long.append("/");
    let first = list[0].as_slice();
    ends_with_word(first, long.as_str()) || ends_with_word(first, short.as_str())
}

/// Whether a package can be installed and is not, from the output of `pacman -Ss`.
pub fn is_installable(name: &str, output: &str) -> (r: bool)
    ensures
        r == available(name@, output@),
{
    let chars = to_chars(output);
    let list = lines(chars.as_slice());
    let ghost all = pieces(list@);
    let mut found = false;
    for i in 0..list.len()
        invariant
            all == pieces(list@),
            all == lines_of(output@),
            found == listed(name@, all.take(i as int)),
            forall|j: int|
                0 <= j < i && lists_package(#[trigger] all[j], name@) ==> !marked_installed(all[j]),
    {
        let line = list[i].as_slice();
        let ghost upto = all.take(i + 1);
        proof {
            assert(upto[i as int] == line@);
            assert(all[i as int] == line@);
            if found {
                let k = choose|k: int|
                    0 <= k < i && lists_package(#[trigger] all.take(i as int)[k], name@);
                assert(upto[k] == all.take(i as int)[k]);
            }
            if listed(name@, upto) {
                let k = choose|k: int| 0 <= k < i + 1 && lists_package(#[trigger] upto[k], name@);
                if k < i {
                    assert(all.take(i as int)[k] == upto[k]);
                }
            }
        }
        if is_head_line(line, name) {
            if has_mark(line) {
                return false;
            }
            found = true;
        }
    }
    proof {
        assert(all.take(all.len() as int) =~= all);
    }
    found
}

/// A package that the output lists as installed cannot be installed.
pub proof fn marked_is_not_available(name: Seq<char>, output: Seq<char>, i: int)
    requires
        0 <= i < lines_of(output).len(),
        lists_package(lines_of(output)[i], name),
        marked_installed(lines_of(output)[i]),
    ensures
        !available(name, output),
{
}

// ---------------------------------------------------------------------------
// The tree

/// A line of the dependency view.
#[derive(Debug, Clone)]
pub struct DepNode {
    pub name: String,
    pub version: String,
    pub depth: i32,
    pub installed: bool,
    pub is_optional: bool,
    pub prefix: String,
    pub is_root: bool,
    pub installable: bool,
}

/// A line of the dependency view.
pub struct NodeModel {
    pub name: Seq<char>,
    pub version: Seq<char>,
    pub depth: i32,
    pub installed: bool,
    pub is_optional: bool,
    pub prefix: Seq<char>,
    pub is_root: bool,
    pub installable: bool,
}

impl View for DepNode {
    type V = NodeModel;

    open spec fn view(&self) -> NodeModel {
        NodeModel {
            name: self.name@,
            version: self.version@,
            depth: self.depth,
            installed: self.installed,
            is_optional: self.is_optional,
            prefix: self.prefix@,
            is_root: self.is_root,
            installable: self.installable,
        }
    }
}

/// The contents of a list of lines.
pub open spec fn node_models(list: Seq<DepNode>) -> Seq<NodeModel> {
    list.map_values(|n: DepNode| n@)
}

/// What is known of packages: the installed ones with their versions, the ones that can be
/// installed, and the dependencies of the direct dependencies.
pub struct Known {
    pub installed: Map<Seq<char>, Seq<char>>,
    pub installable: Set<Seq<char>>,
    pub second: Map<Seq<char>, Seq<Seq<char>>>,
}

/// The version that is shown for a package, empty where it is not installed.
pub open spec fn shown_version(installed: Map<Seq<char>, Seq<char>>, name: Seq<char>) -> Seq<char> {
    if installed.contains_key(name) {
        short_version(installed[name])
    } else {
        seq![]
    }
}

/// Whether a dependency is shown: it is installed, or can be.
pub open spec fn is_shown(k: Known, name: Seq<char>) -> bool {
    k.installed.contains_key(name) || k.installable.contains(name)
}

/// The dependencies that are shown.
pub open spec fn shown_deps(k: Known, list: Seq<Seq<char>>) -> Seq<Seq<char>> {
    list.filter(|n: Seq<char>| is_shown(k, n))
}

/// The line for a dependency.
pub open spec fn dep_node(
    k: Known,
    name: Seq<char>,
    depth: i32,
    is_optional: bool,
    prefix: Seq<char>,
) -> NodeModel {
    let version = shown_version(k.installed, name);
    NodeModel {
        name,
        version,
        depth,
        installed: version.len() > 0,
        is_optional,
        prefix,
        is_root: false,
        installable: version.len() == 0 && k.installable.contains(name),
    }
}

/// The lines for the dependencies of a direct dependency.
pub open spec fn sub_nodes(k: Known, name: Seq<char>, is_end: bool) -> Seq<NodeModel> {
    if k.second.contains_key(name) {
        let subs = shown_deps(k, k.second[name]);
        let rail = if is_end {
            "   "@
        } else {
            "│  "@
        };
        Seq::new(
            subs.len(),
            |j: int|
                dep_node(
                    k,
                    subs[j],
                    2,
                    false,
                    rail + (if j == subs.len() - 1 {
                        "└─ "@
                    } else {
                        "├─ "@
                    }),
                ),
        )
    } else {
        seq![]
    }
}

/// The lines for the direct dependencies from the `from`-th on, each followed by its own; the last
/// one closes the tree, unless optional ones follow.
pub open spec fn direct_nodes(k: Known, list: Seq<Seq<char>>, from: int, more: bool) -> Seq<
    NodeModel,
>
    decreases list.len() - from,
{
    if from < 0 || from >= list.len() {
        seq![]
    } else {
        let is_end = from == list.len() - 1 && !more;
        let prefix = if is_end {
            "└─ "@
        } else {
            "├─ "@
        };
        seq![dep_node(k, list[from], 1, false, prefix)] + sub_nodes(k, list[from], is_end)
            + direct_nodes(k, list, from + 1, more)
    }
}

/// The heading and the lines for the optional dependencies.
pub open spec fn optional_nodes(k: Known, list: Seq<Seq<char>>) -> Seq<NodeModel> {
    if list.len() == 0 {
        seq![]
    } else {
        seq![
            NodeModel {
                name: "Optional Dependencies"@,
                version: seq![],
                depth: (-1) as i32,
                installed: false,
                is_optional: true,
                prefix: seq![],
                is_root: false,
                installable: false,
            },
        ] + Seq::new(
            list.len(),
            |i: int|
                dep_node(
                    k,
                    list[i],
                    1,
                    true,
                    if i == list.len() - 1 {
                        "└╌ "@
                    } else {
                        "├╌ "@
                    },
                ),
        )
    }
}

/// The dependency tree of a package, without the package itself.
pub open spec fn tree_of(k: Known, depends: Seq<Seq<char>>, optional: Seq<Seq<char>>) -> Seq<
    NodeModel,
> {
    let direct = shown_deps(k, depends);
    let extra = shown_deps(k, optional);
    direct_nodes(k, direct, 0, extra.len() > 0) + optional_nodes(k, extra)
}

/// The packages that require a package, as a flat list.
pub open spec fn required_nodes(k: Known, list: Seq<Seq<char>>) -> Seq<NodeModel> {
    Seq::new(
        list.len(),
        |i: int|
            NodeModel {
                name: list[i],
                version: shown_version(k.installed, list[i]),
                depth: 1,
                installed: true,
                is_optional: false,
                prefix: seq![],
                is_root: false,
                installable: false,
            },
    )
}

/// What has been found out about packages.
pub struct DepKnowledge {
    pub installed: NameMap,
    pub installable: Vec<String>,
    pub second: Vec<DepEntry>,
}

impl View for DepKnowledge {
    type V = Known;

    open spec fn view(&self) -> Known {
        Known {
            installed: self.installed@,
            installable: texts(self.installable@).to_set(),
            second: dep_table(self.second@),
        }
    }
}

fn version_shown(installed: &NameMap, name: &str) -> (out: String)
    ensures
        out@ == shown_version(installed@, name@),
{
    match installed.get(name) {
        Some(v) => trim_version(v),
        None => String::new(),
    }
}

fn keep_shown(k: &DepKnowledge, list: &[String]) -> (out: Vec<String>)
    ensures
        texts(out@) == shown_deps(k@, texts(list@)),
{
    let mut out: Vec<String> = Vec::new();
    let ghost all = texts(list@);
    let ghost keep = |n: Seq<char>| is_shown(k@, n);
    proof {
        assert(texts(out@) =~= all.take(0).filter(keep)) by {
            reveal(Seq::filter);
        }
    }
    for i in 0..list.len()
        invariant
            all == texts(list@),
            keep == (|n: Seq<char>| is_shown(k@, n)),
            texts(out@) == all.take(i as int).filter(keep),
    {
        let ghost had = out@;
        proof {
            assert(all.take(i + 1) =~= all.take(i as int).push(all[i as int]));
            all.take(i as int).lemma_filter_push(all[i as int], keep);
        }
        let name = list[i].as_str();
        if k.installed.contains(name) || list_has(k.installable.as_slice(), name) {
            out.push(own(name));
            proof {
                assert(texts(out@) =~= texts(had).push(all[i as int]));
            }
        }
    }
    proof {
        assert(all.take(all.len() as int) =~= all);
    }
    out
}

fn node(k: &DepKnowledge, name: &str, depth: i32, is_optional: bool, prefix: String) -> (n: DepNode)
    ensures
        n@ == dep_node(k@, name@, depth, is_optional, prefix@),
{
    let version = version_shown(&k.installed, name);
    let installed = filled(version.as_str());
    let installable = !installed && list_has(k.installable.as_slice(), name);
    DepNode {
        name: own(name),
        version,
        depth,
        installed,
        is_optional,
        prefix,
        is_root: false,
        installable,
    }
}

fn push_node(out: &mut Vec<DepNode>, n: DepNode)
    ensures
        node_models(final(out)@) == node_models(old(out)@).push(n@),
{
    let ghost before = out@;
    out.push(n);
    proof {
        assert(node_models(out@) =~= node_models(before).push(n@));
    }
}

fn add_sub_nodes(k: &DepKnowledge, name: &str, is_end: bool, out: &mut Vec<DepNode>)
    ensures
        node_models(final(out)@) == node_models(old(out)@) + sub_nodes(k@, name@, is_end),
{
    let ghost before = node_models(out@);
    let ghost want = sub_nodes(k@, name@, is_end);
    if let Some(deps) = deps_of(&k.second, name) {
        let subs = keep_shown(k, deps.as_slice());
        let ghost all = texts(subs@);
        proof {
            assert(before + want.take(0) =~= before);
        }
        for j in 0..subs.len()
            invariant
                all == texts(subs@),
                k@.second.contains_key(name@),
                all == shown_deps(k@, k@.second[name@]),
                want == sub_nodes(k@, name@, is_end),
                node_models(out@) == before + want.take(j as int),
        {
            let mut prefix = if is_end {
                own("   ")
            } else {
                own("│  ")
            };
            prefix.append(
                if j == subs.len() - 1 {
                    "└─ "
                } else {
                    "├─ "
                },
            );
            let n = node(k, subs[j].as_str(), 2, false, prefix);
            proof {
                assert(all[j as int] == subs@[j as int]@);
                assert(want.len() == all.len());
                assert(n@ == want[j as int]);
                assert((before + want.take(j as int)).push(n@) =~= before + want.take(j + 1));
            }
            push_node(out, n);
        }
        proof {
            assert(want.take(want.len() as int) =~= want);
        }
    } else {
        proof {
            assert(node_models(out@) =~= before + want);
        }
    }
}

/// Builds the lines of the dependency view: the tree, and the packages that require the package.
pub fn build_dep_tree(k: &DepKnowledge, deps: &PackageDeps) -> (r: (Vec<DepNode>, Vec<DepNode>))
    ensures
        node_models(r.0@) == tree_of(k@, deps@.depends, deps@.optional),
        node_models(r.1@) == required_nodes(k@, deps@.required_by),
{
    let direct = keep_shown(k, deps.depends.as_slice());
    let extra = keep_shown(k, deps.optional.as_slice());
    let ghost list = texts(direct@);
    let ghost more = texts(extra@).len() > 0;
    let mut out: Vec<DepNode> = Vec::new();
    proof {
        assert(node_models(out@) + direct_nodes(k@, list, 0, more) =~= direct_nodes(
            k@,
            list,
            0,
            more,
        ));
    }
    for i in 0..direct.len()
        invariant
            list == texts(direct@),
            more == (extra@.len() > 0),
            node_models(out@) + direct_nodes(k@, list, i as int, more) == direct_nodes(
                k@,
                list,
                0,
                more,
            ),
    {
        let ghost before = node_models(out@);
        let is_end = i == direct.len() - 1 && extra.len() == 0;
        let prefix = if is_end {
            own("└─ ")
        } else {
            own("├─ ")
        };
        let name = direct[i].as_str();
        proof {
            assert(list[i as int] == name@);
        }
        push_node(&mut out, node(k, name, 1, false, prefix));
        add_sub_nodes(k, name, is_end, &mut out);
        proof {
            assert(node_models(out@) + direct_nodes(k@, list, i + 1, more) =~= before
                + direct_nodes(k@, list, i as int, more));
        }
    }
    let ghost tree = direct_nodes(k@, list, 0, more);
    proof {
        assert(node_models(out@) + direct_nodes(k@, list, list.len() as int, more)
            =~= node_models(out@));
    }
    add_optional(k, &extra, &mut out);
    let mut required: Vec<DepNode> = Vec::new();
    let ghost want = required_nodes(k@, deps@.required_by);
    for i in 0..deps.required_by.len()
        invariant
            want == required_nodes(k@, deps@.required_by),
            node_models(required@) == want.take(i as int),
    {
        let name = deps.required_by[i].as_str();
        let n = DepNode {
            name: own(name),
            version: version_shown(&k.installed, name),
            depth: 1,
            installed: true,
            is_optional: false,
            prefix: String::new(),
            is_root: false,
            installable: false,
        };
        proof {
            assert(deps@.required_by[i as int] == name@);
            assert(n@ == want[i as int]);
            assert(want.take(i as int).push(n@) =~= want.take(i + 1));
        }
        push_node(&mut required, n);
    }
    proof {
        assert(want.take(want.len() as int) =~= want);
    }
    (out, required)
}

fn add_optional(k: &DepKnowledge, extra: &Vec<String>, out: &mut Vec<DepNode>)
    ensures
        node_models(final(out)@) == node_models(old(out)@) + optional_nodes(k@, texts(extra@)),
{
    let ghost before = node_models(out@);
    let ghost list = texts(extra@);
    let ghost want = optional_nodes(k@, list);
    if extra.len() == 0 {
        proof {
            assert(before + want =~= before);
        }
        return;
    }
    push_node(
        out,
        DepNode {
            name: own("Optional Dependencies"),
            version: String::new(),
            depth: -1,
            installed: false,
            is_optional: true,
            prefix: String::new(),
            is_root: false,
            installable: false,
        },
    );
    proof {
        assert(node_models(out@) =~= before + want.take(1));
    }
    for i in 0..extra.len()
        invariant
            list == texts(extra@),
            list.len() > 0,
            want == optional_nodes(k@, list),
            node_models(out@) == before + want.take(i + 1),
    {
        let prefix = if i == extra.len() - 1 {
            own("└╌ ")
        } else {
            own("├╌ ")
        };
        let n = node(k, extra[i].as_str(), 1, true, prefix);
        proof {
            assert(list[i as int] == extra@[i as int]@);
            assert(n@ == want[i + 1]);
            assert((before + want.take(i + 1)).push(n@) =~= before + want.take(i + 2));
        }
        push_node(out, n);
    }
    proof {
        assert(want.take(want.len() as int) =~= want);
    }
}

// ---------------------------------------------------------------------------
// What has to be asked for a tree

/// The first line of a list that starts with `key`.
pub open spec fn first_line(list: Seq<Seq<char>>, key: Seq<char>) -> Option<Seq<char>>
    decreases list.len(),
{
    if list.len() == 0 {
        None
    } else if begins(list[0], key) {
        Some(list[0])
    } else {
        first_line(list.skip(1), key)
    }
}

/// The version in the output of `pacman -Si`, empty where there is none.
pub open spec fn sync_version_in(output: Seq<char>) -> Seq<char> {
    match first_line(lines_of(output), "Version"@) {
        Some(line) => {
            let k = index_of(line, ':');
            if k < line.len() {
                short_version(trimmed(line.skip(k as int + 1)))
            } else {
                seq![]
            }
        },
        None => seq![],
    }
}

/// The version of a package that is not installed, from the output of `pacman -Si`.
pub fn sync_version(output: &str) -> (out: String)
    ensures
        out@ == sync_version_in(output@),
{
    let chars = to_chars(output);
    let list = lines(chars.as_slice());
    let ghost all = pieces(list@);
    proof {
        assert(all.skip(0) =~= all);
    }
    for i in 0..list.len()
        invariant
            all == pieces(list@),
            all == lines_of(output@),
            first_line(all, "Version"@) == first_line(all.skip(i as int), "Version"@),
    {
        let line = list[i].as_slice();
        proof {
            assert(all.skip(i as int)[0] == line@);
            assert(all.skip(i as int).skip(1) =~= all.skip(i + 1));
            assert(line@.skip(0) =~= line@);
        }
        if starts_with_word(line, "Version") {
            let k = find_char(line, 0, ':');
            if k == line.len() {
                return String::new();
            }
            let rest = slice_subrange(line, k + 1, line.len());
            proof {
                assert(rest@ =~= line@.skip(k + 1));
            }
            return trim_version(from_chars(trim(rest)).as_str());
        }
    }
    String::new()
}

/// The version of an installed package as it is shown, empty where the package is not installed.
pub fn root_version(installed: &NameMap, name: &str) -> (out: String)
    ensures
        out@ == shown_version(installed@, name@),
{
    version_shown(installed, name)
}

/// The dependencies whose own dependencies are asked for: the installed ones.
pub fn second_level_names(installed: &NameMap, deps: &PackageDeps) -> (out: Vec<String>)
    ensures
        texts(out@) == (deps@.depends + deps@.optional).filter(
            |n: Seq<char>| installed@.contains_key(n),
        ),
{
    let mut all_names = own_all(deps.depends.as_slice());
    let mut more = own_all(deps.optional.as_slice());
    let ghost first = all_names@;
    let ghost last = more@;
    all_names.append(&mut more);
    let ghost all = texts(all_names@);
    proof {
        assert(all =~= texts(first) + texts(last));
    }
    let ghost keep = |n: Seq<char>| installed@.contains_key(n);
    let mut out: Vec<String> = Vec::new();
    proof {
        assert(texts(out@) =~= all.take(0).filter(keep)) by {
            reveal(Seq::filter);
        }
    }
    for i in 0..all_names.len()
        invariant
            all == texts(all_names@),
            keep == (|n: Seq<char>| installed@.contains_key(n)),
            texts(out@) == all.take(i as int).filter(keep),
    {
        let ghost had = out@;
        proof {
            assert(all.take(i + 1) =~= all.take(i as int).push(all[i as int]));
            all.take(i as int).lemma_filter_push(all[i as int], keep);
        }
        let name = all_names[i].as_str();
        if installed.contains(name) {
            out.push(own(name));
            proof {
                assert(texts(out@) =~= texts(had).push(all[i as int]));
            }
        }
    }
    proof {
        assert(all.take(all.len() as int) =~= all);
    }
    out
}

/// Whether a package is a dependency, of the package or of one of its dependencies, that is not
/// installed.
pub open spec fn is_missing(
    name: Seq<char>,
    installed: Map<Seq<char>, Seq<char>>,
    deps: DepsModel,
    table: Map<Seq<char>, Seq<Seq<char>>>,
) -> bool {
    &&& !installed.contains_key(name)
    &&& deps.depends.contains(name) || deps.optional.contains(name) || exists|n: Seq<char>|
        table.contains_key(n) && (#[trigger] table[n]).contains(name)
}

fn add_missing(list: &[String], installed: &NameMap, out: &mut Vec<String>)
    requires
        strictly_ascending(texts(old(out)@)),
    ensures
        strictly_ascending(texts(final(out)@)),
        forall|n: Seq<char>| #[trigger]
            texts(final(out)@).contains(n) == (texts(old(out)@).contains(n) || (
            !installed@.contains_key(n) && texts(list@).contains(n))),
{
    let ghost before = texts(out@);
    let ghost all = texts(list@);
    for i in 0..list.len()
        invariant
            all == texts(list@),
            strictly_ascending(texts(out@)),
            forall|n: Seq<char>| #[trigger]
                texts(out@).contains(n) == (before.contains(n) || (!installed@.contains_key(n)
                    && all.take(i as int).contains(n))),
    {
        let ghost had = texts(out@);
        let name = list[i].as_str();
        if !installed.contains(name) {
            insert_unique(out, name);
        }
        proof {
            let now = texts(out@);
            assert forall|n: Seq<char>| #[trigger] now.contains(n) == (before.contains(n) || (
            !installed@.contains_key(n) && all.take(i + 1).contains(n))) by {
                let next = all.take(i + 1);
                assert(next =~= all.take(i as int).push(name@));
                assert(now.contains(n) == now.to_set().contains(n));
                assert(had.contains(n) == had.to_set().contains(n));
                if next.contains(n) {
                    let j = choose|j: int| 0 <= j < next.len() && next[j] == n;
                    if j < i {
                        assert(all.take(i as int)[j] == n);
                    }
                }
                if all.take(i as int).contains(n) {
                    let j = choose|j: int| 0 <= j < i && all.take(i as int)[j] == n;
                    assert(next[j] == n);
                }
                assert(next[i as int] == name@);
            }
        }
    }
    proof {
        assert(all.take(all.len() as int) =~= all);
    }
}

/// The missing dependencies, sorted, each once: those to be looked for in the repositories.
pub fn missing_names(installed: &NameMap, deps: &PackageDeps, table: &Vec<DepEntry>) -> (out: Vec<
    String,
>)
    ensures
        strictly_ascending(texts(out@)),
        forall|n: Seq<char>| #[trigger]
            texts(out@).contains(n) == is_missing(n, installed@, deps@, dep_table(table@)),
{
    let mut out: Vec<String> = Vec::new();
    add_missing(deps.depends.as_slice(), installed, &mut out);
    add_missing(deps.optional.as_slice(), installed, &mut out);
    let ghost direct = texts(out@);
    let ghost t = dep_table(table@);
    for i in 0..table.len()
        invariant
            t == dep_table(table@),
            strictly_ascending(texts(out@)),
            forall|n: Seq<char>| #[trigger]
                texts(out@).contains(n) == (direct.contains(n) || (!installed@.contains_key(n)
                    && in_table(table@, i as int, n))),
    {
        let ghost had = texts(out@);
        let name = table[i].name.as_str();
        proof {
            named_in_table(table@, i as int);
        }
        if let Some(list) = deps_of(table, name) {
            add_missing(list.as_slice(), installed, &mut out);
            proof {
                let now = texts(out@);
                assert forall|n: Seq<char>| #[trigger] now.contains(n) == (direct.contains(n) || (
                !installed@.contains_key(n) && in_table(table@, i + 1, n))) by {
                    assert(had.contains(n) == (direct.contains(n) || (!installed@.contains_key(n)
                        && in_table(table@, i as int, n))));
                    if t[name@].contains(n) {
                        assert(dep_table(table@)[table@[i as int].name@].contains(n));
                        assert(in_table(table@, i + 1, n));
                    }
                    if in_table(table@, i as int, n) {
                        let j = choose|j: int|
                            0 <= j < i && dep_table(table@)[#[trigger] table@[j].name@].contains(n);
                        assert(dep_table(table@)[table@[j].name@].contains(n));
                        assert(in_table(table@, i + 1, n));
                    }
                }
            }
        }
    }
    proof {
        assert forall|n: Seq<char>| #[trigger] texts(out@).contains(n) == is_missing(
            n,
            installed@,
            deps@,
            t,
        ) by {
            if in_table(table@, table@.len() as int, n) {
                let j = choose|j: int|
                    0 <= j < table@.len() && t[#[trigger] table@[j].name@].contains(n);
                named_in_table(table@, j);
                assert(t.contains_key(table@[j].name@) && t[table@[j].name@].contains(n));
            }
            if exists|m: Seq<char>| t.contains_key(m) && (#[trigger] t[m]).contains(n) {
                let m = choose|m: Seq<char>| t.contains_key(m) && (#[trigger] t[m]).contains(n);
                let j = table_has_entry(table@, m);
                assert(t[table@[j].name@].contains(n));
                assert(in_table(table@, table@.len() as int, n));
            }
        }
    }
    out
}

/// Whether a name is among the dependencies of one of the first `upto` packages of a list.
spec fn in_table(list: Seq<DepEntry>, upto: int, n: Seq<char>) -> bool {
    exists|j: int| 0 <= j < upto && dep_table(list)[#[trigger] list[j].name@].contains(n)
}

proof fn named_in_table(list: Seq<DepEntry>, i: int)
    requires
        0 <= i < list.len(),
    ensures
        dep_table(list).contains_key(list[i].name@),
    decreases list.len(),
{
    if i < list.len() - 1 {
        named_in_table(list.drop_last(), i);
    }
}

proof fn table_has_entry(list: Seq<DepEntry>, name: Seq<char>) -> (i: int)
    requires
        dep_table(list).contains_key(name),
    ensures
        0 <= i < list.len(),
        list[i].name@ == name,
    decreases list.len(),
{
    if list.last().name@ == name {
        list.len() - 1
    } else {
        table_has_entry(list.drop_last(), name)
    }
}

// ---------------------------------------------------------------------------
// Laws

/// Whether every line of a list is a heading or a dependency that is installed or can be.
pub open spec fn all_shown(k: Known, list: Seq<NodeModel>) -> bool {
    forall|i: int|
        0 <= i < list.len() ==> (#[trigger] list[i]).depth == -1 || is_shown(k, list[i].name)
}

proof fn shown_deps_are_shown(k: Known, list: Seq<Seq<char>>)
    ensures
        forall|i: int|
            0 <= i < shown_deps(k, list).len() ==> is_shown(k, #[trigger] shown_deps(k, list)[i]),
{
    list.filter_lemma(|n: Seq<char>| is_shown(k, n));
}

proof fn direct_nodes_are_shown(k: Known, list: Seq<Seq<char>>, from: int, more: bool)
    requires
        forall|i: int| 0 <= i < list.len() ==> is_shown(k, #[trigger] list[i]),
    ensures
        all_shown(k, direct_nodes(k, list, from, more)),
    decreases list.len() - from,
{
    if 0 <= from < list.len() {
        direct_nodes_are_shown(k, list, from + 1, more);
        let is_end = from == list.len() - 1 && !more;
        if k.second.contains_key(list[from]) {
            shown_deps_are_shown(k, k.second[list[from]]);
        }
        assert(all_shown(k, sub_nodes(k, list[from], is_end)));
        assert(is_shown(k, list[from]));
    }
}

/// The tree shows no dependency that is neither installed nor to be had.
pub proof fn tree_is_shown(k: Known, depends: Seq<Seq<char>>, optional: Seq<Seq<char>>)
    ensures
        all_shown(k, tree_of(k, depends, optional)),
{
    shown_deps_are_shown(k, depends);
    shown_deps_are_shown(k, optional);
    let extra = shown_deps(k, optional);
    direct_nodes_are_shown(k, shown_deps(k, depends), 0, extra.len() > 0);
    assert(all_shown(k, optional_nodes(k, extra)));
}

/// A dependency that is installed is never offered for installation.
pub proof fn installed_is_not_installable(
    k: Known,
    name: Seq<char>,
    depth: i32,
    is_optional: bool,
    prefix: Seq<char>,
)
    ensures
        !(dep_node(k, name, depth, is_optional, prefix).installed && dep_node(
            k,
            name,
            depth,
            is_optional,
            prefix,
        ).installable),
{
}

/// Whether no line of a list stands for the package whose tree it is.
pub open spec fn without_root(list: Seq<NodeModel>) -> bool {
    forall|i: int| 0 <= i < list.len() ==> !(#[trigger] list[i]).is_root
}

proof fn direct_nodes_are_no_roots(k: Known, list: Seq<Seq<char>>, from: int, more: bool)
    ensures
        without_root(direct_nodes(k, list, from, more)),
    decreases list.len() - from,
{
    if 0 <= from < list.len() {
        direct_nodes_are_no_roots(k, list, from + 1, more);
        let is_end = from == list.len() - 1 && !more;
        assert(without_root(sub_nodes(k, list[from], is_end)));
    }
}

/// The package itself is not part of its tree, nor of the packages that require it.
pub proof fn root_stands_apart(
    k: Known,
    depends: Seq<Seq<char>>,
    optional: Seq<Seq<char>>,
    required: Seq<Seq<char>>,
)
    ensures
        without_root(tree_of(k, depends, optional)),
        without_root(required_nodes(k, required)),
{
    let extra = shown_deps(k, optional);
    direct_nodes_are_no_roots(k, shown_deps(k, depends), 0, extra.len() > 0);
    assert(without_root(optional_nodes(k, extra)));
}

/// Dependencies that are installed or can be.
pub open spec fn to_be_had(k: Known) -> spec_fn(Seq<char>) -> bool {
    |n: Seq<char>| k.installed.contains_key(n) || k.installable.contains(n)
}

/// The dependencies of a package that stand below it: those that are installed or can be.
pub open spec fn deps_below(k: Known, name: Seq<char>) -> Seq<Seq<char>> {
    if k.second.contains_key(name) {
        k.second[name].filter(to_be_had(k))
    } else {
        seq![]
    }
}

/// Whether a line is that of a direct dependency.
pub open spec fn is_direct(n: NodeModel) -> bool {
    n.depth == 1 && !n.is_optional
}

/// Whether the dependencies of a direct dependency stand right below its line, in their order, and
/// no others.
pub open spec fn stands_over(k: Known, tree: Seq<NodeModel>, i: int) -> bool {
    let subs = deps_below(k, tree[i].name);
    let end = i + 1 + subs.len();
    &&& end <= tree.len()
    &&& forall|j: int|
        0 <= j < subs.len() ==> (#[trigger] tree[i + 1 + j]).depth == 2 && tree[i + 1 + j].name
            == subs[j]
    &&& end < tree.len() ==> tree[end].depth != 2
}

/// Whether every direct dependency stands over its own dependencies, and those stand nowhere else.
pub open spec fn is_nested(k: Known, tree: Seq<NodeModel>) -> bool {
    &&& forall|i: int|
        0 <= i < tree.len() && is_direct(#[trigger] tree[i]) ==> stands_over(k, tree, i)
    &&& forall|i: int|
        0 <= i < tree.len() && (#[trigger] tree[i]).depth == 2 ==> i > 0 && (tree[i - 1].depth == 2
            || is_direct(tree[i - 1]))
}

proof fn shown_deps_are_to_be_had(k: Known, list: Seq<Seq<char>>)
    ensures
        shown_deps(k, list) == list.filter(to_be_had(k)),
    decreases list.len(),
{
    reveal(Seq::filter);
    if list.len() > 0 {
        shown_deps_are_to_be_had(k, list.drop_last());
    }
}

proof fn sub_nodes_are_below(k: Known, name: Seq<char>, is_end: bool)
    ensures
        sub_nodes(k, name, is_end).len() == deps_below(k, name).len(),
        forall|j: int|
            0 <= j < sub_nodes(k, name, is_end).len() ==> (#[trigger] sub_nodes(k, name, is_end)[j]).depth
                == 2 && sub_nodes(k, name, is_end)[j].name == deps_below(k, name)[j],
{
    if k.second.contains_key(name) {
        shown_deps_are_to_be_had(k, k.second[name]);
    }
}

/// Lines in front of nested ones are nested too, where they are a direct dependency with its own.
proof fn nested_in_front(k: Known, first: NodeModel, subs: Seq<NodeModel>, rest: Seq<NodeModel>)
    requires
        is_direct(first),
        subs.len() == deps_below(k, first.name).len(),
        forall|j: int|
            0 <= j < subs.len() ==> (#[trigger] subs[j]).depth == 2 && subs[j].name == deps_below(
                k,
                first.name,
            )[j],
        is_nested(k, rest),
    ensures
        is_nested(k, seq![first] + subs + rest),
{
    let tree = seq![first] + subs + rest;
    let n = 1 + subs.len();
    if rest.len() > 0 {
        assert(rest[0].depth != 2);
        assert(tree[n as int] == rest[0]);
    }
    assert forall|i: int| 0 <= i < tree.len() && is_direct(#[trigger] tree[i]) implies stands_over(
        k,
        tree,
        i,
    ) by {
        if i == 0 {
            assert forall|j: int| 0 <= j < subs.len() implies (#[trigger] tree[i + 1 + j]).depth == 2
                && tree[i + 1 + j].name == deps_below(k, first.name)[j] by {
                assert(tree[1 + j] == subs[j]);
            }
        } else if i < n {
            assert(tree[i] == subs[i - 1]);
        } else {
            let t = i - n;
            assert(tree[i] == rest[t]);
            assert(stands_over(k, rest, t));
            let below = deps_below(k, rest[t].name);
            assert forall|j: int| 0 <= j < below.len() implies (#[trigger] tree[i + 1 + j]).depth
                == 2 && tree[i + 1 + j].name == below[j] by {
                assert(tree[i + 1 + j] == rest[t + 1 + j]);
            }
            let end = i + 1 + below.len();
            if end < tree.len() {
                assert(tree[end] == rest[end - n]);
            }
        }
    }
    assert forall|i: int| 0 <= i < tree.len() && (#[trigger] tree[i]).depth == 2 implies i > 0 && (
    tree[i - 1].depth == 2 || is_direct(tree[i - 1])) by {
        if i >= n {
            assert(tree[i] == rest[i - n]);
            assert(tree[i - 1] == rest[i - n - 1]);
        } else {
            if i > 1 {
                assert(tree[i - 1] == subs[i - 2]);
            } else {
                assert(tree[0] == first);
            }
        }
    }
}

proof fn direct_nodes_are_nested(
    k: Known,
    list: Seq<Seq<char>>,
    from: int,
    more: bool,
    behind: Seq<NodeModel>,
)
    requires
        from >= 0,
        is_nested(k, behind),
    ensures
        is_nested(k, direct_nodes(k, list, from, more) + behind),
    decreases list.len() - from,
{
    let all = direct_nodes(k, list, from, more);
    if from < list.len() {
        let rest = direct_nodes(k, list, from + 1, more);
        direct_nodes_are_nested(k, list, from + 1, more, behind);
        let is_end = from == list.len() - 1 && !more;
        let subs = sub_nodes(k, list[from], is_end);
        sub_nodes_are_below(k, list[from], is_end);
        nested_in_front(k, all[0], subs, rest + behind);
        assert(all + behind =~= seq![all[0]] + subs + (rest + behind));
    } else {
        assert(all + behind =~= behind);
    }
}

/// Every direct dependency, wherever it stands, is followed by the lines of its own dependencies that
/// are installed or can be, in their order; these lines stand nowhere else.
pub proof fn tree_nests_dependencies(
    k: Known,
    depends: Seq<Seq<char>>,
    optional: Seq<Seq<char>>,
)
    ensures
        is_nested(k, tree_of(k, depends, optional)),
{
    let extra = shown_deps(k, optional);
    let behind = optional_nodes(k, extra);
    assert(is_nested(k, behind));
    direct_nodes_are_nested(k, shown_deps(k, depends), 0, extra.len() > 0, behind);
}

/// The names on the lines of a tree that a test picks.
pub open spec fn names_of(tree: Seq<NodeModel>, pick: spec_fn(NodeModel) -> bool) -> Seq<
    Seq<char>,
> {
    tree.filter(pick).map_values(|n: NodeModel| n.name)
}

/// The lines of direct dependencies.
pub open spec fn direct_lines() -> spec_fn(NodeModel) -> bool {
    |n: NodeModel| n.depth == 1 && !n.is_optional
}

/// The lines of optional dependencies.
pub open spec fn optional_lines() -> spec_fn(NodeModel) -> bool {
    |n: NodeModel| n.depth == 1 && n.is_optional
}

proof fn names_of_both(a: Seq<NodeModel>, b: Seq<NodeModel>, pick: spec_fn(NodeModel) -> bool)
    ensures
        names_of(a + b, pick) == names_of(a, pick) + names_of(b, pick),
{
    Seq::filter_distributes_over_add(a, b, pick);
    assert(names_of(a + b, pick) =~= names_of(a, pick) + names_of(b, pick));
}

proof fn none_picked(a: Seq<NodeModel>, pick: spec_fn(NodeModel) -> bool)
    requires
        forall|i: int| 0 <= i < a.len() ==> !pick(#[trigger] a[i]),
    ensures
        names_of(a, pick) == Seq::<Seq<char>>::empty(),
    decreases a.len(),
{
    reveal(Seq::filter);
    if a.len() > 0 {
        none_picked(a.drop_last(), pick);
    }
    assert(names_of(a, pick) =~= Seq::<Seq<char>>::empty());
}

proof fn all_picked(a: Seq<NodeModel>, pick: spec_fn(NodeModel) -> bool)
    requires
        forall|i: int| 0 <= i < a.len() ==> pick(#[trigger] a[i]),
    ensures
        names_of(a, pick) == a.map_values(|n: NodeModel| n.name),
    decreases a.len(),
{
    reveal(Seq::filter);
    if a.len() > 0 {
        all_picked(a.drop_last(), pick);
        let names = |n: NodeModel| n.name;
        assert(a =~= a.drop_last().push(a.last()));
        assert(a.map_values(names) =~= a.drop_last().map_values(names).push(names(a.last())));
        assert(a.filter(pick) =~= a.drop_last().filter(pick).push(a.last()));
    }
    assert(names_of(a, pick) =~= a.map_values(|n: NodeModel| n.name));
}

proof fn direct_names(k: Known, list: Seq<Seq<char>>, from: int, more: bool)
    requires
        0 <= from <= list.len(),
    ensures
        names_of(direct_nodes(k, list, from, more), direct_lines()) == list.skip(from),
        names_of(direct_nodes(k, list, from, more), optional_lines()) == Seq::<Seq<char>>::empty(),
    decreases list.len() - from,
{
    let all = direct_nodes(k, list, from, more);
    if from < list.len() {
        let rest = direct_nodes(k, list, from + 1, more);
        direct_names(k, list, from + 1, more);
        let is_end = from == list.len() - 1 && !more;
        let subs = sub_nodes(k, list[from], is_end);
        let head = seq![all[0]];
        assert(all =~= (head + subs) + rest);
        names_of_both(head + subs, rest, direct_lines());
        names_of_both(head + subs, rest, optional_lines());
        names_of_both(head, subs, direct_lines());
        names_of_both(head, subs, optional_lines());
        sub_nodes_are_below(k, list[from], is_end);
        none_picked(subs, direct_lines());
        none_picked(subs, optional_lines());
        all_picked(head, direct_lines());
        none_picked(head, optional_lines());
        assert(names_of(all, direct_lines()) =~= list.skip(from));
        assert(names_of(all, optional_lines()) =~= Seq::<Seq<char>>::empty());
    } else {
        none_picked(all, direct_lines());
        none_picked(all, optional_lines());
        assert(list.skip(from) =~= Seq::<Seq<char>>::empty());
    }
}

/// The tree has a line for every dependency that is installed or can be, the direct ones first, both
/// in the order in which the package lists them.
pub proof fn tree_lists_dependencies(
    k: Known,
    depends: Seq<Seq<char>>,
    optional: Seq<Seq<char>>,
)
    ensures
        names_of(tree_of(k, depends, optional), direct_lines()) == depends.filter(to_be_had(k)),
        names_of(tree_of(k, depends, optional), optional_lines()) == optional.filter(to_be_had(k)),
{
    let direct = shown_deps(k, depends);
    let extra = shown_deps(k, optional);
    shown_deps_are_to_be_had(k, depends);
    shown_deps_are_to_be_had(k, optional);
    let front = direct_nodes(k, direct, 0, extra.len() > 0);
    let behind = optional_nodes(k, extra);
    direct_names(k, direct, 0, extra.len() > 0);
    names_of_both(front, behind, direct_lines());
    names_of_both(front, behind, optional_lines());
    none_picked(behind, direct_lines());
    if extra.len() > 0 {
        let head = seq![behind[0]];
        let lines = behind.skip(1);
        assert(behind =~= head + lines);
        names_of_both(head, lines, optional_lines());
        none_picked(head, optional_lines());
        all_picked(lines, optional_lines());
        assert(lines.map_values(|n: NodeModel| n.name) =~= extra);
    } else {
        none_picked(behind, optional_lines());
    }
    assert(direct.skip(0) =~= direct);
    assert(names_of(front + behind, direct_lines()) =~= direct);
    assert(names_of(front + behind, optional_lines()) =~= extra);
}

/// Whether a line tells of its package what is known: the version where it is installed, and else
/// whether it can be installed.
pub open spec fn tells(k: Known, n: NodeModel) -> bool {
    &&& k.installed.contains_key(n.name) ==> n.version == short_version(k.installed[n.name])
        && n.installed == (n.version.len() > 0)
    &&& !k.installed.contains_key(n.name) ==> n.version.len() == 0 && !n.installed
        && n.installable == k.installable.contains(n.name)
}

/// Whether every line below the heading tells what is known.
pub open spec fn all_tell(k: Known, tree: Seq<NodeModel>) -> bool {
    forall|i: int| 0 <= i < tree.len() ==> (#[trigger] tree[i]).depth == -1 || tells(k, tree[i])
}

proof fn direct_nodes_tell(k: Known, list: Seq<Seq<char>>, from: int, more: bool)
    ensures
        all_tell(k, direct_nodes(k, list, from, more)),
    decreases list.len() - from,
{
    if 0 <= from < list.len() {
        direct_nodes_tell(k, list, from + 1, more);
        let is_end = from == list.len() - 1 && !more;
        assert(all_tell(k, sub_nodes(k, list[from], is_end)));
    }
}

/// Every line of the tree tells whether its package is installed, in which version, and whether it
/// can be installed where it is not.
pub proof fn lines_tell_what_is_known(
    k: Known,
    depends: Seq<Seq<char>>,
    optional: Seq<Seq<char>>,
)
    ensures
        all_tell(k, tree_of(k, depends, optional)),
{
    let extra = shown_deps(k, optional);
    direct_nodes_tell(k, shown_deps(k, depends), 0, extra.len() > 0);
    assert(all_tell(k, optional_nodes(k, extra)));
}

/// The packages that require a package are listed one for one, all of them as installed.
pub proof fn requirers_are_listed(k: Known, list: Seq<Seq<char>>)
    ensures
        required_nodes(k, list).map_values(|n: NodeModel| n.name) == list,
        forall|i: int|
            0 <= i < required_nodes(k, list).len() ==> (#[trigger] required_nodes(k, list)[i]).installed
                && !required_nodes(k, list)[i].is_optional && required_nodes(k, list)[i].depth == 1,
        forall|i: int|
            0 <= i < list.len() && k.installed.contains_key(#[trigger] list[i])
                ==> required_nodes(k, list)[i].version == short_version(k.installed[list[i]]),
{
    assert(required_nodes(k, list).map_values(|n: NodeModel| n.name) =~= list);
}

/// Whether the branch of a line is drawn right. The branch of a direct dependency closes where nothing
/// but its own dependencies follows, and else a rail stands in front of those; the branch of one of
/// those closes where no other follows it, and that of an optional dependency at the end.
pub open spec fn is_drawn(tree: Seq<NodeModel>, i: int) -> bool {
    let last = forall|j: int| i < j < tree.len() ==> (#[trigger] tree[j]).depth == 2;
    &&& is_direct(tree[i]) ==> tree[i].prefix == (if last {
        "└─ "@
    } else {
        "├─ "@
    })
    &&& tree[i].depth == 2 ==> tree[i].prefix == (if last {
        "   "@
    } else {
        "│  "@
    }) + (if i + 1 < tree.len() && tree[i + 1].depth == 2 {
        "├─ "@
    } else {
        "└─ "@
    })
    &&& tree[i].depth == 1 && tree[i].is_optional ==> tree[i].prefix == (if i == tree.len() - 1 {
        "└╌ "@
    } else {
        "├╌ "@
    })
}

/// The drawing of a line does not depend on the lines before it.
proof fn drawn_behind(front: Seq<NodeModel>, rest: Seq<NodeModel>, t: int)
    requires
        0 <= t < rest.len(),
        is_drawn(rest, t),
    ensures
        is_drawn(front + rest, front.len() + t),
{
    let tree = front + rest;
    let n = front.len();
    let i = n + t;
    assert(tree[i] == rest[t]);
    if t + 1 < rest.len() {
        assert(tree[i + 1] == rest[t + 1]);
    }
    if forall|j: int| t < j < rest.len() ==> (#[trigger] rest[j]).depth == 2 {
        assert forall|j: int| i < j < tree.len() implies (#[trigger] tree[j]).depth == 2 by {
            assert(tree[j] == rest[j - n]);
        }
    } else {
        let j = choose|j: int| t < j < rest.len() && (#[trigger] rest[j]).depth != 2;
        assert(tree[j + n] == rest[j]);
    }
}

proof fn direct_nodes_are_drawn(
    k: Known,
    list: Seq<Seq<char>>,
    from: int,
    more: bool,
    behind: Seq<NodeModel>,
)
    requires
        from >= 0,
        more == (behind.len() > 0),
        more ==> behind[0].depth == -1,
        forall|i: int| 0 <= i < behind.len() ==> #[trigger] is_drawn(behind, i),
    ensures
        forall|i: int|
            0 <= i < (direct_nodes(k, list, from, more) + behind).len() ==> #[trigger] is_drawn(
                direct_nodes(k, list, from, more) + behind,
                i,
            ),
    decreases list.len() - from,
{
    let all = direct_nodes(k, list, from, more);
    if from < list.len() {
        let rest = direct_nodes(k, list, from + 1, more) + behind;
        direct_nodes_are_drawn(k, list, from + 1, more, behind);
        let is_end = from == list.len() - 1 && !more;
        let subs = sub_nodes(k, list[from], is_end);
        let n = 1 + subs.len();
        let tree = all + behind;
        assert(tree =~= (seq![all[0]] + subs) + rest);
        assert forall|i: int| 0 <= i < tree.len() implies #[trigger] is_drawn(tree, i) by {
            if i < n {
                if is_end {
                    assert(rest.len() == 0);
                    assert forall|j: int| i < j < tree.len() implies (#[trigger] tree[j]).depth == 2 by {
                        assert(tree[j] == subs[j - 1]);
                    }
                } else {
                    assert(rest.len() > 0 && rest[0].depth != 2);
                    assert(tree[n as int] == rest[0]);
                }
                if i > 0 {
                    assert(tree[i] == subs[i - 1]);
                    if i + 1 < n {
                        assert(tree[i + 1] == subs[i]);
                    }
                }
            } else {
                drawn_behind(seq![all[0]] + subs, rest, i - n);
            }
        }
    } else {
        assert(all + behind =~= behind);
    }
}

/// The branches of the tree are drawn right.
pub proof fn branches_are_drawn(
    k: Known,
    depends: Seq<Seq<char>>,
    optional: Seq<Seq<char>>,
)
    ensures
        forall|i: int|
            0 <= i < tree_of(k, depends, optional).len() ==> #[trigger] is_drawn(
                tree_of(k, depends, optional),
                i,
            ),
{
    let extra = shown_deps(k, optional);
    let behind = optional_nodes(k, extra);
    assert forall|i: int| 0 <= i < behind.len() implies #[trigger] is_drawn(behind, i) by {
        if i > 0 {
            assert(behind[i].is_optional);
        }
    }
    direct_nodes_are_drawn(k, shown_deps(k, depends), 0, extra.len() > 0, behind);
}

/// The line that counts is the first one that starts with the key.
pub proof fn first_line_is_first(list: Seq<Seq<char>>, key: Seq<char>, i: int)
    ensures
        0 <= i < list.len() && begins(list[i], key) && (forall|j: int|
            0 <= j < i ==> !begins(#[trigger] list[j], key)) ==> first_line(list, key) == Some(
            list[i],
        ),
        (forall|j: int| 0 <= j < list.len() ==> !begins(#[trigger] list[j], key)) ==> first_line(
            list,
            key,
        ) is None,
    decreases list.len(),
{
    if list.len() > 0 {
        let rest = list.skip(1);
        first_line_is_first(rest, key, i - 1);
        if 0 < i < list.len() && begins(list[i], key) && (forall|j: int|
            0 <= j < i ==> !begins(#[trigger] list[j], key)) {
            assert(!begins(list[0], key));
            assert(rest[i - 1] == list[i]);
            assert forall|j: int| 0 <= j < i - 1 implies !begins(#[trigger] rest[j], key) by {
                assert(rest[j] == list[j + 1]);
            }
        }
        if forall|j: int| 0 <= j < list.len() ==> !begins(#[trigger] list[j], key) {
            assert(!begins(list[0], key));
            assert forall|j: int| 0 <= j < rest.len() implies !begins(#[trigger] rest[j], key) by {
                assert(rest[j] == list[j + 1]);
            }
        }
    }
}

// ---------------------------------------------------------------------------
// What is read

/// Whether a text is a plain package name: not empty, without white space and signs of comparison.
pub open spec fn is_plain_name(s: Seq<char>) -> bool {
    is_one_word(s) && !s.contains('<') && !s.contains('>') && !s.contains('=')
}

/// Whether a text is the right side of a version constraint.
pub open spec fn is_bound(s: Seq<char>) -> bool {
    is_one_word(s) && !s.contains('<') && !s.contains('>') && !s.contains('=')
}

proof fn whole_is_trimmed(s: Seq<char>)
    requires
        is_one_word(s),
    ensures
        trimmed(s) == s,
{
    trimming_takes_outer_space(seq![], s, seq![]);
    assert(Seq::<char>::empty() + s + Seq::<char>::empty() =~= s);
}

/// What stands before a separator that occurs nowhere before.
proof fn cut_at(name: Seq<char>, sep: Seq<char>, rest: Seq<char>)
    requires
        is_one_word(name),
        sep.len() > 0,
        !name.contains(sep[0]),
    ensures
        before(name + sep + rest, sep) == Some(name),
{
    found_behind(name, sep, rest);
    assert((name + sep + rest).take(name.len() as int) =~= name);
    whole_is_trimmed(name);
}

/// A sign of two characters is not found where its second one never follows its first.
proof fn pair_not_found(s: Seq<char>, a: char, b: char)
    requires
        forall|i: int| 0 <= i < s.len() - 1 ==> !(#[trigger] s[i] == a && s[i + 1] == b),
    ensures
        first_at(s, seq![a, b]) is None,
{
    let pat = seq![a, b];
    first_at_is_first(s, pat);
    if let Some(k) = first_at(s, pat) {
        let t = s.skip(k as int).take(2);
        assert(t[0] == s[k as int] && t[1] == s[k as int + 1]);
        assert(!(s[k as int] == a && s[k as int + 1] == b));
    }
}

proof fn joined_is_one_word(a: Seq<char>, sep: Seq<char>, b: Seq<char>)
    requires
        is_one_word(a),
        is_one_word(sep),
        is_one_word(b),
    ensures
        is_one_word(a + sep + b),
{
    let s = a + sep + b;
    assert forall|i: int| 0 <= i < s.len() implies !is_space(#[trigger] s[i]) by {
        if i < a.len() {
            assert(s[i] == a[i]);
        } else if i < a.len() + sep.len() {
            assert(s[i] == sep[i - a.len()]);
        } else {
            assert(s[i] == b[i - a.len() - sep.len()]);
        }
    }
}

/// The name of a dependency is what stands before its version constraint, whatever the constraint, and
/// all of it where there is none.
pub proof fn constraints_are_cut(name: Seq<char>, bound: Seq<char>)
    requires
        is_plain_name(name),
        is_bound(bound),
    ensures
        dep_name(name) == name,
        dep_name(name + ">="@ + bound) == name,
        dep_name(name + "<="@ + bound) == name,
        dep_name(name + ">"@ + bound) == name,
        dep_name(name + "<"@ + bound) == name,
        dep_name(name + "="@ + bound) == name,
{
    reveal_strlit(">=");
    reveal_strlit("<=");
    reveal_strlit(">");
    reveal_strlit("<");
    reveal_strlit("=");
    assert(">="@ =~= seq!['>', '='] && "<="@ =~= seq!['<', '='] && ">"@ =~= seq!['>'] && "<"@
        =~= seq!['<'] && "="@ =~= seq!['=']);
    plain_name_stays(name);
    assert(is_one_word(">="@) && is_one_word("<="@) && is_one_word(">"@) && is_one_word("<"@)
        && is_one_word("="@));
    cut_with(name, ">="@, bound);
    cut_with(name, "<="@, bound);
    cut_with(name, ">"@, bound);
    cut_with(name, "<"@, bound);
    cut_with(name, "="@, bound);
}

proof fn plain_name_stays(name: Seq<char>)
    requires
        is_plain_name(name),
    ensures
        dep_name(name) == name,
{
    reveal_strlit(">=");
    reveal_strlit("<=");
    reveal_strlit(">");
    reveal_strlit("<");
    reveal_strlit("=");
    whole_is_trimmed(name);
    assert(">="@[0] == '>' && "<="@[0] == '<' && ">"@[0] == '>' && "<"@[0] == '<' && "="@[0] == '=');
    not_found(name, ">="@);
    not_found(name, "<="@);
    not_found(name, ">"@);
    not_found(name, "<"@);
    not_found(name, "="@);
}

proof fn cut_with(name: Seq<char>, sep: Seq<char>, bound: Seq<char>)
    requires
        is_plain_name(name),
        is_bound(bound),
        sep == seq!['>', '='] || sep == seq!['<', '='] || sep == seq!['>'] || sep == seq!['<'] || sep
            == seq!['='],
        is_one_word(sep),
    ensures
        dep_name(name + sep + bound) == name,
{
    reveal_strlit(">=");
    reveal_strlit("<=");
    reveal_strlit(">");
    reveal_strlit("<");
    reveal_strlit("=");
    assert(">="@ =~= seq!['>', '='] && "<="@ =~= seq!['<', '='] && ">"@ =~= seq!['>'] && "<"@
        =~= seq!['<'] && "="@ =~= seq!['=']);
    let s = name + sep + bound;
    joined_is_one_word(name, sep, bound);
    whole_is_trimmed(s);
    cut_at(name, sep, bound);
    let n = name.len() as int;
    let m = n + sep.len();
    assert forall|i: int| 0 <= i < s.len() && !(n <= i < m) implies #[trigger] s[i] != '<' && s[i]
        != '>' && s[i] != '=' by {
        if i < n {
            assert(s[i] == name[i]);
        } else {
            assert(s[i] == bound[i - m]);
        }
    }
    assert(s[n] == sep[0]);
    if sep.len() == 2 {
        assert(s[n + 1] == '=');
    }
    if sep != seq!['>', '='] {
        pair_not_found(s, '>', '=');
        if sep != seq!['<', '='] {
            pair_not_found(s, '<', '=');
            if sep != seq!['>'] {
                assert(!s.contains('>'));
                not_found(s, ">"@);
                if sep != seq!['<'] {
                    assert(!s.contains('<'));
                    not_found(s, "<"@);
                }
            }
        }
    }
}

/// A version is shown without the suffixes behind a plus sign and without hyphens at its end.
pub proof fn suffixes_are_cut(v: Seq<char>, behind: Seq<char>)
    requires
        !v.contains('+'),
        v.len() > 0 ==> v.last() != '-',
    ensures
        short_version(v) == v,
        short_version(v.push('+') + behind) == v,
{
    let s = v.push('+') + behind;
    assert forall|i: int| 0 <= i < v.len() implies other_than('+')(#[trigger] v[i]) by {}
    run_len_is(v, other_than('+'), v.len());
    assert(v.take(v.len() as int) =~= v);
    assert forall|i: int| 0 <= i < v.len() implies other_than('+')(#[trigger] s[i]) by {
        assert(s[i] == v[i]);
    }
    assert(s[v.len() as int] == '+');
    run_len_is(s, other_than('+'), v.len());
    assert(s.take(v.len() as int) =~= v);
    tail_run_len_is(v, |c: char| c == '-', 0);
}

/// A line with a name and a version says that the package is installed in that version; a later line
/// of a name counts, and lines of other names change nothing.
pub proof fn installed_lines_are_read(
    list: Seq<Seq<char>>,
    name: Seq<char>,
    version: Seq<char>,
    other: Seq<char>,
)
    requires
        !name.contains(' '),
        !other.contains(' '),
    ensures
        versions_in(list.push(name.push(' ') + version)) == versions_in(list).insert(
            name,
            trimmed(version),
        ),
        versions_in(list.push(other)) == versions_in(list),
        versions_in(Seq::<Seq<char>>::empty()) == Map::<Seq<char>, Seq<char>>::empty(),
{
    let line = name.push(' ') + version;
    assert(list.push(line).drop_last() =~= list);
    assert(list.push(other).drop_last() =~= list);
    assert forall|i: int| 0 <= i < name.len() implies other_than(' ')(#[trigger] line[i]) by {
        assert(line[i] == name[i]);
    }
    assert(line[name.len() as int] == ' ');
    run_len_is(line, other_than(' '), name.len());
    assert(line.take(name.len() as int) =~= name);
    assert(line.skip(name.len() as int + 1) =~= version);
    assert forall|i: int| 0 <= i < other.len() implies other_than(' ')(#[trigger] other[i]) by {}
    run_len_is(other, other_than(' '), other.len());
}

/// The value of a field stands behind the colon after its key.
pub proof fn values_stand_behind_colons(key: Seq<char>, gap: Seq<char>, value: Seq<char>)
    requires
        !gap.contains(':'),
    ensures
        value_of(key + (gap.push(':') + value), key) == Some(value),
{
    let rest = gap.push(':') + value;
    let line = key + rest;
    assert(line.take(key.len() as int) =~= key);
    assert(line.skip(key.len() as int) =~= rest);
    assert forall|i: int| 0 <= i < gap.len() implies other_than(':')(#[trigger] rest[i]) by {
        assert(rest[i] == gap[i]);
    }
    assert(rest[gap.len() as int] == ':');
    run_len_is(rest, other_than(':'), gap.len());
    assert(rest.skip(gap.len() as int + 1) =~= value);
}

/// The entries of a value are its words but `None`, in order, each as the name of its dependency.
pub proof fn entries_are_words(a: Seq<char>, c: char, b: Seq<char>, word: Seq<char>)
    requires
        is_space(c),
        is_one_word(word),
    ensures
        entries(a.push(c) + b) == entries(a) + entries(b),
        word != "None"@ ==> entries(word) == seq![word] && dep_entries(word) == seq![dep_name(word)],
        word == "None"@ ==> entries(word) == Seq::<Seq<char>>::empty(),
        dep_entries(a.push(c) + b) == dep_entries(a) + dep_entries(b),
{
    let keep = |w: Seq<char>| w != "None"@;
    words_on_both_sides(a, c, b);
    Seq::filter_distributes_over_add(words_of(a), words_of(b), keep);
    single_word(word);
    assert(seq![word].filter(keep) =~= (if word != "None"@ {
        seq![word]
    } else {
        seq![]
    })) by {
        reveal_with_fuel(Seq::filter, 2);
        assert(seq![word].drop_last() =~= Seq::<Seq<char>>::empty());
    }
    assert(dep_entries(a.push(c) + b) =~= dep_entries(a) + dep_entries(b));
    if word != "None"@ {
        assert(dep_entries(word) =~= seq![dep_name(word)]);
    }
}

/// The fields of an installed package are told apart by their keys.
pub proof fn fields_are_told_apart(gap: Seq<char>, value: Seq<char>)
    requires
        !gap.contains(':'),
    ensures
        field_of("Depends On"@ + (gap.push(':') + value)) == (Section::Depends, value),
        field_of("Optional Deps"@ + (gap.push(':') + value)) == (Section::Optional, value),
        field_of("Required By"@ + (gap.push(':') + value)) == (Section::RequiredBy, value),
{
    reveal_strlit("Depends On");
    reveal_strlit("Optional Deps");
    reveal_strlit("Required By");
    let (a, b, c) = ("Depends On"@, "Optional Deps"@, "Required By"@);
    let rest = gap.push(':') + value;
    values_stand_behind_colons(a, gap, value);
    values_stand_behind_colons(b, gap, value);
    values_stand_behind_colons(c, gap, value);
    assert(a[0] == 'D' && b[0] == 'O' && c[0] == 'R');
    assert(a.len() == 10 && b.len() == 13 && c.len() == 11);
    assert(!begins(b + rest, a)) by {
        if begins(b + rest, a) {
            assert((b + rest).take(10)[0] == 'O');
        }
    }
    assert(!begins(c + rest, a)) by {
        if begins(c + rest, a) {
            assert((c + rest).take(10)[0] == 'R');
        }
    }
    assert(!begins(c + rest, b)) by {
        if begins(c + rest, b) {
            assert((c + rest).take(13)[0] == 'R');
        }
    }
}

/// A field adds its entries to its own list, and a line that continues it adds more to the same list;
/// any other line ends it.
pub proof fn fields_fill_their_lists(m: BlockModel, line: Seq<char>, value: Seq<char>)
    ensures
        !is_continuation(line) && field_of(line) == (Section::Depends, value) ==> block_after(m, line)
            == (BlockModel {
            section: Section::Depends,
            named: m.named || names_package(line),
            deps: DepsModel { depends: m.deps.depends + dep_entries(value), ..m.deps },
        }),
        !is_continuation(line) && field_of(line) == (Section::Optional, value) ==> block_after(
            m,
            line,
        ).deps == (DepsModel { optional: m.deps.optional + remarked_entries(value), ..m.deps }),
        !is_continuation(line) && field_of(line) == (Section::RequiredBy, value) ==> block_after(
            m,
            line,
        ).deps == (DepsModel { required_by: m.deps.required_by + entries(value), ..m.deps }),
        !is_continuation(line) && field_of(line).0 == Section::Other ==> block_after(m, line).deps
            == m.deps && block_after(m, line).section == Section::Other,
        is_continuation(line) && m.section == Section::Depends ==> block_after(m, line).deps == (
        DepsModel { depends: m.deps.depends + dep_entries(line), ..m.deps }),
        is_continuation(line) && m.section == Section::RequiredBy ==> block_after(m, line).deps == (
        DepsModel { required_by: m.deps.required_by + entries(line), ..m.deps }),
        is_continuation(line) && m.section == Section::Other ==> block_after(m, line).deps == m.deps,
        is_continuation(line) ==> block_after(m, line).section == m.section,
{
}

/// What follows the name of a second package belongs to that one and does not count.
pub proof fn second_package_does_not_count(
    m: BlockModel,
    line: Seq<char>,
    more: Seq<Seq<char>>,
)
    requires
        m.named,
        names_package(line),
    ensures
        block_after_lines(m, seq![line] + more) == m,
        block_after_lines(m, Seq::<Seq<char>>::empty()) == m,
{
    assert((seq![line] + more)[0] == line);
}

/// A plain dependency stands for itself, a path for the package that owns it, and a library for none;
/// the order is kept, and no owner is entered a second time.
pub proof fn dependencies_are_resolved(
    list: Seq<Seq<char>>,
    owners: Map<Seq<char>, Seq<char>>,
    dep: Seq<char>,
)
    ensures
        (dep.len() == 0 || dep[0] != '/') && !holds(dep, ".so"@) ==> resolved(list.push(dep), owners)
            == resolved(list, owners).push(dep),
        (dep.len() == 0 || dep[0] != '/') && holds(dep, ".so"@) ==> resolved(list.push(dep), owners)
            == resolved(list, owners),
        dep.len() > 0 && dep[0] == '/' && owners.contains_key(dep) && !resolved(
            list,
            owners,
        ).contains(owners[dep]) ==> resolved(list.push(dep), owners) == resolved(
            list,
            owners,
        ).push(owners[dep]),
        dep.len() > 0 && dep[0] == '/' && (!owners.contains_key(dep) || resolved(
            list,
            owners,
        ).contains(owners[dep])) ==> resolved(list.push(dep), owners) == resolved(list, owners),
        resolved(Seq::<Seq<char>>::empty(), owners) == Seq::<Seq<char>>::empty(),
{
    assert(list.push(dep).drop_last() =~= list);
}

/// The owner of a file is the word behind the words that say so.
pub proof fn owners_are_read(front: Seq<char>, owner: Seq<char>, rest: Seq<char>)
    requires
        !front.contains('i'),
        is_one_word(owner),
        !holds(owner.push(' ') + rest, "is owned by "@),
    ensures
        owner_in(front + "is owned by "@ + (owner.push(' ') + rest)) == Some(owner),
        owner_in(front) is None,
{
    reveal_strlit("is owned by ");
    let mark = "is owned by "@;
    assert(mark.len() == 12 && mark[0] == 'i');
    let tail = owner.push(' ') + rest;
    found_behind(front, mark, tail);
    not_found(front, mark);
    let s = front + mark + tail;
    assert(s.skip((front.len() + mark.len()) as int) =~= tail);
    first_at_is_first(tail, mark);
    words_on_both_sides(owner, ' ', rest);
    single_word(owner);
    assert(words_of(tail)[0] == owner);
}

/// Of many packages, each has the dependencies of its own block: those read since its name are entered
/// under it when the next name comes.
pub proof fn blocks_are_entered(
    m: BatchModel,
    gap: Seq<char>,
    value: Seq<char>,
    owners: Map<Seq<char>, Seq<char>>,
)
    requires
        !gap.contains(':'),
    ensures
        ({
            let next = batch_after(m, "Name"@ + (gap.push(':') + value), owners);
            &&& next.name == trimmed(value)
            &&& !next.in_depends
            &&& m.name.len() > 0 ==> next.deps.len() == 0 && next.table == m.table.insert(
                m.name,
                resolved(m.deps, owners),
            )
            &&& m.name.len() == 0 ==> next.table == m.table
        }),
        ({
            let next = batch_after(m, "Depends On"@ + (gap.push(':') + value), owners);
            &&& next.deps == m.deps + dep_entries(value)
            &&& next.in_depends
            &&& next.name == m.name && next.table == m.table
        }),
{
    reveal_strlit("Name");
    reveal_strlit("Depends On");
    let (a, b) = ("Name"@, "Depends On"@);
    let rest = gap.push(':') + value;
    values_stand_behind_colons(a, gap, value);
    values_stand_behind_colons(b, gap, value);
    assert((a + rest)[0] == 'N' && (b + rest)[0] == 'D');
    assert(!begins(b + rest, a)) by {
        if begins(b + rest, a) {
            assert((b + rest).take(4)[0] == 'D');
            assert(a[0] == 'N');
        }
    }
}

/// Lines that continue a list of dependencies add to it; other lines end it.
pub proof fn continued_blocks(
    m: BatchModel,
    line: Seq<char>,
    owners: Map<Seq<char>, Seq<char>>,
)
    ensures
        is_continuation(line) && m.in_depends ==> batch_after(m, line, owners) == (BatchModel {
            deps: m.deps + dep_entries(line),
            ..m
        }),
        is_continuation(line) && !m.in_depends ==> batch_after(m, line, owners) == m,
        !is_continuation(line) && value_of(line, "Name"@) is None && value_of(
            line,
            "Depends On"@,
        ) is None ==> batch_after(m, line, owners) == (BatchModel { in_depends: false, ..m }),
{
}

/// The dependencies of a package in a table are those of its last entry.
pub proof fn last_entry_counts(list: Seq<DepEntry>, e: DepEntry, name: Seq<char>)
    ensures
        dep_table(list.push(e)).contains_key(e.name@),
        dep_table(list.push(e))[e.name@] == texts(e.deps@),
        name != e.name@ ==> dep_table(list.push(e)).contains_key(name) == dep_table(
            list,
        ).contains_key(name),
        name != e.name@ && dep_table(list).contains_key(name) ==> dep_table(list.push(e))[name]
            == dep_table(list)[name],
{
    assert(list.push(e).drop_last() =~= list);
}

/// A head line with the repository and the name of a package lists it.
pub proof fn head_lines_list_packages(repo: Seq<char>, name: Seq<char>, rest: Seq<char>)
    requires
        is_one_word(repo),
        is_one_word(name),
    ensures
        lists_package((repo + "/"@ + name).push(' ') + rest, name),
{
    reveal_strlit("/");
    assert("/"@ =~= seq!['/']);
    assert(is_one_word("/"@));
    let word = repo + "/"@ + name;
    joined_is_one_word(repo, "/"@, name);
    let line = word.push(' ') + rest;
    words_on_both_sides(word, ' ', rest);
    single_word(word);
    assert(words_of(line)[0] == word);
    assert(word.skip(word.len() - ("/"@ + name).len()) =~= "/"@ + name);
    assert(line =~= repo + "/"@ + (name.push(' ') + rest));
    held_within(repo, "/"@, name.push(' ') + rest);
}

/// A package is available where a head line lists it and none of its head lines bears the mark.
pub proof fn unmarked_is_available(name: Seq<char>, output: Seq<char>, i: int)
    requires
        0 <= i < lines_of(output).len(),
        lists_package(lines_of(output)[i], name),
        forall|j: int, k: int|
            0 <= j < lines_of(output).len() && lists_package(lines_of(output)[j], name) && 0 <= k
                < words_of(lines_of(output)[j]).len() ==> !begins(
                #[trigger] words_of(lines_of(output)[j])[k],
                "[installed"@,
            ),
    ensures
        available(name, output),
{
}

/// The version of a package that is not installed stands behind the colon on the first line of its
/// key.
pub proof fn sync_versions_are_read(output: Seq<char>, gap: Seq<char>, value: Seq<char>, i: int)
    requires
        !gap.contains(':'),
        0 <= i < lines_of(output).len(),
        lines_of(output)[i] == "Version"@ + (gap.push(':') + value),
        forall|j: int| 0 <= j < i ==> !begins(#[trigger] lines_of(output)[j], "Version"@),
    ensures
        sync_version_in(output) == short_version(trimmed(value)),
{
    reveal_strlit("Version");
    let key = "Version"@;
    let line = lines_of(output)[i];
    assert(line.take(key.len() as int) =~= key);
    first_line_is_first(lines_of(output), key, i);
    let n = key.len() + gap.len();
    assert forall|k: int| 0 <= k < n implies other_than(':')(#[trigger] line[k]) by {
        if k >= key.len() {
            assert(line[k] == gap[k - key.len()]);
        }
    }
    assert(line[n as int] == ':');
    run_len_is(line, other_than(':'), n);
    assert(line.skip(n as int + 1) =~= value);
}

/// Of a package that is not installed too, a field adds its entries to its own list, a line that
/// continues it adds more, and the next field ends it.
pub proof fn sync_fields_fill_their_lists(
    m: BlockModel,
    gap: Seq<char>,
    value: Seq<char>,
    line: Seq<char>,
)
    requires
        !gap.contains(':'),
    ensures
        sync_after(m, "Depends On"@ + (gap.push(':') + value)) == (BlockModel {
            section: Section::Depends,
            named: m.named,
            deps: DepsModel { depends: m.deps.depends + remarked_entries(value), ..m.deps },
        }),
        sync_after(m, "Optional Deps"@ + (gap.push(':') + value)) == (BlockModel {
            section: Section::Optional,
            named: m.named,
            deps: DepsModel { optional: m.deps.optional + remarked_entries(value), ..m.deps },
        }),
        is_continuation(line) && m.section == Section::Depends ==> sync_after(m, line).deps == (
        DepsModel { depends: m.deps.depends + remarked_entries(trimmed(line)), ..m.deps }),
        is_continuation(line) && m.section == Section::Optional ==> sync_after(m, line).deps == (
        DepsModel { optional: m.deps.optional + remarked_entries(trimmed(line)), ..m.deps }),
        is_continuation(line) ==> sync_after(m, line).section == m.section,
        is_continuation(line) && m.section == Section::Other ==> sync_after(m, line).deps == m.deps,
        !is_continuation(line) && !begins(line, "Depends On"@) && !begins(line, "Optional Deps"@)
            ==> sync_after(m, line).deps == m.deps && (holds(line, ":"@) ==> sync_after(
            m,
            line,
        ).section == Section::Other),
{
    reveal_strlit("Depends On");
    reveal_strlit("Optional Deps");
    values_stand_behind_colons("Depends On"@, gap, value);
    values_stand_behind_colons("Optional Deps"@, gap, value);
    let a = "Depends On"@ + (gap.push(':') + value);
    let b = "Optional Deps"@ + (gap.push(':') + value);
    assert(a[0] == 'D' && b[0] == 'O');
    assert(!begins(b, "Depends On"@)) by {
        if begins(b, "Depends On"@) {
            assert(b.take(10)[0] == 'O');
            assert("Depends On"@[0] == 'D');
        }
    }
}

/// The lines of the information on a package count one after the other.
pub proof fn sync_lines_follow(m: BlockModel, a: Seq<Seq<char>>, b: Seq<Seq<char>>)
    ensures
        sync_after_lines(m, a + b) == sync_after_lines(sync_after_lines(m, a), b),
    decreases a.len(),
{
    if a.len() == 0 {
        assert(a + b =~= b);
    } else {
        assert((a + b).skip(1) =~= a.skip(1) + b);
        sync_lines_follow(sync_after(m, a[0]), a.skip(1), b);
    }
}

/// The lines of the information on many packages count one after the other.
pub proof fn batch_lines_follow(
    m: BatchModel,
    a: Seq<Seq<char>>,
    b: Seq<Seq<char>>,
    owners: Map<Seq<char>, Seq<char>>,
)
    ensures
        batch_after_lines(m, a + b, owners) == batch_after_lines(
            batch_after_lines(m, a, owners),
            b,
            owners,
        ),
    decreases a.len(),
{
    if a.len() == 0 {
        assert(a + b =~= b);
    } else {
        assert((a + b).skip(1) =~= a.skip(1) + b);
        batch_lines_follow(batch_after(m, a[0], owners), a.skip(1), b, owners);
    }
}

} // verus!
