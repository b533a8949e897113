//! Packages as the lists of the user interface show them.
use vstd::prelude::*;
use vstd::slice::slice_subrange;

use crate::deps::NameMap;
use crate::package::{Package, PackageBackend, PackageModel, PackageStatus, UpdateInfo};
use crate::progress::{bytes_text, format_size};
use crate::text::{ascii_upper, begins, ends, ends_with_word, filled, from_chars, has_word, holds,
    is_ascii_text, is_one_word, is_word, join, joined, joined_front, last_piece, lines, lines_of,
    lowered, own, pieces, pieces_follow, push_all, same_text, single_word, split_char,
    split_is_not_empty, split_on, starts_with_word, to_chars, to_lower, to_upper, uppered, words,
    words_of, words_on_both_sides};
use crate::version::{find_last_char, last_index_is, last_index_of};

verus! {

/// A package as a list shows it. Some lists keep other things in some of the fields.
#[derive(Debug, Clone)]
pub struct PackageData {
    pub name: String,
    pub display_name: String,
    pub version: String,
    pub description: String,
    pub repository: String,
    pub backend: i32,
    pub installed: bool,
    pub has_update: bool,
    pub installed_size: String,
    pub licenses: String,
    pub url: String,
    pub dependencies: String,
    pub required_by: String,
    pub selected: bool,
    pub explicit: bool,
}

/// A package as a list shows it.
pub struct DataModel {
    pub name: Seq<char>,
    pub display_name: Seq<char>,
    pub version: Seq<char>,
    pub description: Seq<char>,
    pub repository: Seq<char>,
    pub backend: i32,
    pub installed: bool,
    pub has_update: bool,
    pub installed_size: Seq<char>,
    pub licenses: Seq<char>,
    pub url: Seq<char>,
    pub dependencies: Seq<char>,
    pub required_by: Seq<char>,
    pub selected: bool,
    pub explicit: bool,
}

impl View for PackageData {
    type V = DataModel;

    open spec fn view(&self) -> DataModel {
        DataModel {
            name: self.name@,
            display_name: self.display_name@,
            version: self.version@,
            description: self.description@,
            repository: self.repository@,
            backend: self.backend,
            installed: self.installed,
            has_update: self.has_update,
            installed_size: self.installed_size@,
            licenses: self.licenses@,
            url: self.url@,
            dependencies: self.dependencies@,
            required_by: self.required_by@,
            selected: self.selected,
            explicit: self.explicit,
        }
    }
}

/// The contents of a list.
pub open spec fn data_models(list: Seq<PackageData>) -> Seq<DataModel> {
    list.map_values(|p: PackageData| p@)
}

/// Nothing in any field.
pub open spec fn blank_data() -> DataModel {
    DataModel {
        name: seq![],
        display_name: seq![],
        version: seq![],
        description: seq![],
        repository: seq![],
        backend: 0,
        installed: false,
        has_update: false,
        installed_size: seq![],
        licenses: seq![],
        url: seq![],
        dependencies: seq![],
        required_by: seq![],
        selected: false,
        explicit: false,
    }
}

impl PackageData {
    /// Nothing in any field.
    pub fn blank() -> (p: PackageData)
        ensures
            p@ == blank_data(),
    {
        PackageData {
            name: String::new(),
            display_name: String::new(),
            version: String::new(),
            description: String::new(),
            repository: String::new(),
            backend: 0,
            installed: false,
            has_update: false,
            installed_size: String::new(),
            licenses: String::new(),
            url: String::new(),
            dependencies: String::new(),
            required_by: String::new(),
            selected: false,
            explicit: false,
        }
    }

    /// A copy.
    pub fn copied(&self) -> (p: PackageData)
        ensures
            p@ == self@,
    {
        PackageData {
            name: own(self.name.as_str()),
            display_name: own(self.display_name.as_str()),
            version: own(self.version.as_str()),
            description: own(self.description.as_str()),
            repository: own(self.repository.as_str()),
            backend: self.backend,
            installed: self.installed,
            has_update: self.has_update,
            installed_size: own(self.installed_size.as_str()),
            licenses: own(self.licenses.as_str()),
            url: own(self.url.as_str()),
            dependencies: own(self.dependencies.as_str()),
            required_by: own(self.required_by.as_str()),
            selected: self.selected,
            explicit: self.explicit,
        }
    }
}

/// Adds a package to a list.
pub fn push_data(list: &mut Vec<PackageData>, p: PackageData)
    ensures
        data_models(final(list)@) == data_models(old(list)@).push(p@),
{
    let ghost before = list@;
    list.push(p);
    proof {
        assert(data_models(list@) =~= data_models(before).push(p@));
    }
}

/// Copies a list.
pub fn copy_data(list: &[PackageData]) -> (out: Vec<PackageData>)
    ensures
        data_models(out@) == data_models(list@),
{
    let mut out: Vec<PackageData> = Vec::new();
    for i in 0..list.len()
        invariant
            out@.len() == i,
            forall|j: int| 0 <= j < i ==> (#[trigger] out@[j])@ == list@[j]@,
    {
        out.push(list[i].copied());
    }
    proof {
        assert(data_models(out@) =~= data_models(list@));
    }
    out
}

// ---------------------------------------------------------------------------
// Names for people

/// A word with its first letter in upper case.
pub open spec fn capitalized(word: Seq<char>) -> Seq<char> {
    if word.len() == 0 {
        seq![]
    } else {
        uppered(seq![word[0]]) + word.skip(1)
    }
}

/// The parts of a package name between hyphens as words of a title.
pub open spec fn titled(name: Seq<char>) -> Seq<char> {
    joined(split_on(name, '-').map_values(|w: Seq<char>| capitalized(w)), " "@)
}

/// The name of a package for people: that of its desktop entry, else its own as a title.
pub open spec fn human_name(name: Seq<char>, names: Map<Seq<char>, Seq<char>>) -> Seq<char> {
    if names.contains_key(lowered(name)) {
        names[lowered(name)]
    } else {
        titled(name)
    }
}

/// The upper case of a character, which may be several.
pub fn upper_char(c: char) -> (out: String)
    ensures
        out@ == uppered(seq![c]),
{
    let mut one = String::new();
    one.push(c);
    proof {
        assert(one@ =~= seq![c]);
    }
    to_upper(one.as_str())
}

fn capitalize(word: &[char]) -> (out: Vec<char>)
    ensures
        out@ == capitalized(word@),
{
    if word.len() == 0 {
        return Vec::new();
    }
    let first = upper_char(word[0]);
    let mut out = to_chars(first.as_str());
    let rest = slice_subrange(word, 1, word.len());
    push_all(&mut out, rest);
    proof {
        assert(rest@ =~= word@.skip(1));
    }
    out
}

/// The name of a package for people.
pub fn humanize_package_name(name: &str, names: &NameMap) -> (out: String)
    ensures
        out@ == human_name(name@, names@),
{
    let lower = to_lower(name);
    if let Some(human) = names.get(lower.as_str()) {
        return own(human);
    }
    let chars = to_chars(name);
    let parts = split_char(chars.as_slice(), '-');
    let ghost all = pieces(parts@);
    let ghost f = |w: Seq<char>| capitalized(w);
    let mut list: Vec<Vec<char>> = Vec::new();
    for i in 0..parts.len()
        invariant
            all == pieces(parts@),
            f == (|w: Seq<char>| capitalized(w)),
            list@.len() == i,
            forall|j: int| 0 <= j < i ==> (#[trigger] list@[j])@ == f(all[j]),
    {
        list.push(capitalize(parts[i].as_slice()));
    }
    proof {
        assert(pieces(list@) =~= all.map_values(f));
    }
    let joined_chars = join(list.as_slice(), " ");
    from_chars(joined_chars.as_slice())
}

// ---------------------------------------------------------------------------
// Desktop entries

/// A desktop entry: the name of its file without the extension, where that is text, and what is in
/// it.
#[derive(Debug, Clone)]
pub struct DesktopFile {
    pub stem: Option<String>,
    pub content: String,
}

/// What is read of a desktop entry.
pub struct EntryModel {
    pub name: Seq<char>,
    pub program: Seq<char>,
    pub hidden: bool,
}

/// The program of a command line: the last part of the path that is its first word.
pub open spec fn program_of(command: Seq<char>) -> Seq<char> {
    if words_of(command).len() > 0 {
        split_on(words_of(command)[0], '/').last()
    } else {
        seq![]
    }
}

/// After a line of a desktop entry.
pub open spec fn entry_after(m: EntryModel, line: Seq<char>) -> EntryModel {
    if begins(line, "Name="@) && !(holds(line, "["@)) {
        EntryModel { name: line.skip(5), ..m }
    } else if begins(line, "Exec="@) {
        EntryModel { program: program_of(line.skip(5)), ..m }
    } else if begins(line, "NoDisplay=true"@) {
        EntryModel { hidden: true, ..m }
    } else {
        m
    }
}

/// After the lines of a desktop entry.
pub open spec fn entry_after_lines(list: Seq<Seq<char>>) -> EntryModel
    decreases list.len(),
{
    if list.len() == 0 {
        EntryModel { name: seq![], program: seq![], hidden: false }
    } else {
        entry_after(entry_after_lines(list.drop_last()), list.last())
    }
}

/// The names with those of a desktop entry: for its file, and for its program where that has none
/// yet. An entry without a name or hidden from menus does not count.
pub open spec fn with_entry(
    names: Map<Seq<char>, Seq<char>>,
    stem: Option<Seq<char>>,
    e: EntryModel,
) -> Map<Seq<char>, Seq<char>> {
    if e.name.len() == 0 || e.hidden {
        names
    } else {
        let first = match stem {
            Some(s) => names.insert(lowered(s), e.name),
            None => names,
        };
        if e.program.len() > 0 && !first.contains_key(lowered(e.program)) {
            first.insert(lowered(e.program), e.name)
        } else {
            first
        }
    }
}

/// The names of a list of desktop entries.
pub open spec fn desktop_names(files: Seq<DesktopFile>) -> Map<Seq<char>, Seq<char>>
    decreases files.len(),
{
    if files.len() == 0 {
        Map::empty()
    } else {
        with_entry(
            desktop_names(files.drop_last()),
            crate::text::opt_text(files.last().stem),
            entry_after_lines(lines_of(files.last().content@)),
        )
    }
}

fn program_in(command: &[char]) -> (out: String)
    ensures
        out@ == program_of(command@),
{
    let w = words(command);
    if w.len() == 0 {
        return String::new();
    }
    proof {
        assert(pieces(w@)[0] == w@[0]@);
    }
    let parts = split_char(w[0].as_slice(), '/');
    proof {
        assert(pieces(parts@).last() == parts@.last()@);
        crate::text::split_is_not_empty(w@[0]@, '/');
    }
    from_chars(parts[parts.len() - 1].as_slice())
}

fn read_entry(content: &str) -> (r: (String, String, bool))
    ensures
        ({
            let e = entry_after_lines(lines_of(content@));
            r.0@ == e.name && r.1@ == e.program && r.2 == e.hidden
        }),
{
    let chars = to_chars(content);
    let list = lines(chars.as_slice());
    let ghost all = pieces(list@);
    let mut name = String::new();
    let mut program = String::new();
    let mut hidden = false;
    proof {
        reveal_strlit("Name=");
        reveal_strlit("Exec=");
    }
    for i in 0..list.len()
        invariant
            all == pieces(list@),
            "Name="@.len() == 5,
            "Exec="@.len() == 5,
            ({
                let e = entry_after_lines(all.take(i as int));
                name@ == e.name && program@ == e.program && hidden == e.hidden
            }),
    {
        let line = list[i].as_slice();
        proof {
            assert(all.take(i + 1).last() == line@);
            assert(all.take(i + 1).drop_last() =~= all.take(i as int));
        }
        if starts_with_word(line, "Name=") && !has_word(line, "[") {
            let rest = slice_subrange(line, 5, line.len());
            proof {
                assert(rest@ =~= line@.skip(5));
            }
            name = from_chars(rest);
        } else if starts_with_word(line, "Exec=") {
            let rest = slice_subrange(line, 5, line.len());
            proof {
                assert(rest@ =~= line@.skip(5));
            }
            program = program_in(rest);
        } else if starts_with_word(line, "NoDisplay=true") {
            hidden = true;
        }
    }
    proof {
        assert(all.take(all.len() as int) =~= all);
    }
    (name, program, hidden)
}

/// The names of the desktop entries, by the names of their files and of their programs.
pub fn build_desktop_name_map(files: &[DesktopFile]) -> (names: NameMap)
    ensures
        names@ == desktop_names(files@),
{
    let mut names = NameMap::new();
    for i in 0..files.len()
        invariant
            names@ == desktop_names(files@.take(i as int)),
    {
        proof {
            assert(files@.take(i + 1).last() == files@[i as int]);
            assert(files@.take(i + 1).drop_last() =~= files@.take(i as int));
        }
        let (name, program, hidden) = read_entry(files[i].content.as_str());
        if filled(name.as_str()) && !hidden {
            if let Some(stem) = &files[i].stem {
                names.insert(to_lower(stem.as_str()), own(name.as_str()));
            }
            if filled(program.as_str()) {
                let key = to_lower(program.as_str());
                if !names.contains(key.as_str()) {
                    names.insert(key, name);
                }
            }
        }
    }
    proof {
        assert(files@.take(files@.len() as int) =~= files@);
    }
    names
}

// ---------------------------------------------------------------------------
// Packages and updates

/// The number that stands for a backend in a list.
pub open spec fn backend_number(b: PackageBackend) -> i32 {
    match b {
        PackageBackend::Pacman => 0,
        PackageBackend::Flatpak => 1,
    }
}

fn number_of(b: PackageBackend) -> (n: i32)
    ensures
        n == backend_number(b),
{
    match b {
        PackageBackend::Pacman => 0,
        PackageBackend::Flatpak => 1,
    }
}

/// Whether a package in that state is installed.
pub open spec fn counts_as_installed(s: PackageStatus) -> bool {
    s == PackageStatus::Installed || s == PackageStatus::Orphan
}

/// An installed package as a list shows it.
pub open spec fn package_data(
    p: PackageModel,
    has_update: bool,
    names: Map<Seq<char>, Seq<char>>,
) -> DataModel {
    DataModel {
        name: p.name,
        display_name: human_name(p.name, names),
        version: p.version.full,
        description: p.description,
        repository: p.repository,
        backend: backend_number(p.backend),
        installed: counts_as_installed(p.status),
        has_update,
        explicit: p.explicit,
        ..blank_data()
    }
}

/// An installed package as a list shows it.
pub fn package_to_ui(p: &Package, has_update: bool, names: &NameMap) -> (d: PackageData)
    ensures
        d@ == package_data(p@, has_update, names@),
{
    PackageData {
        name: own(p.name.as_str()),
        display_name: humanize_package_name(p.name.as_str(), names),
        version: p.version.to_string(),
        description: own(p.description.as_str()),
        repository: own(p.repository.as_str()),
        backend: number_of(p.backend),
        installed: p.status == PackageStatus::Installed || p.status == PackageStatus::Orphan,
        has_update,
        explicit: p.explicit,
        ..PackageData::blank()
    }
}

/// The old and the new version of an update.
pub open spec fn version_step(current: Seq<char>, new: Seq<char>) -> Seq<char> {
    current + " → "@ + new
}

/// The old and the new version of an update.
pub fn version_change(current: &str, new: &str) -> (out: String)
    ensures
        out@ == version_step(current@, new@),
{
    let mut out = own(current);
    out.append(" → ");
    out.append(new);
    out
}

/// An update as a list shows it.
pub open spec fn update_data(u: UpdateInfo) -> DataModel {
    let versions = version_step(u.current_version.full@, u.new_version.full@);
    DataModel {
        name: u.name@,
        display_name: u.name@,
        version: versions,
        description: versions,
        repository: u.repository@,
        backend: backend_number(u.backend),
        installed: true,
        has_update: true,
        installed_size: bytes_text(u.download_size as nat, 1),
        ..blank_data()
    }
}

/// An update as a list shows it.
pub fn update_to_ui(u: &UpdateInfo) -> (d: PackageData)
    ensures
        d@ == update_data(*u),
{
    let versions = version_change(u.current_version.full.as_str(), u.new_version.full.as_str());
    PackageData {
        name: own(u.name.as_str()),
        display_name: own(u.name.as_str()),
        description: own(versions.as_str()),
        version: versions,
        repository: own(u.repository.as_str()),
        backend: number_of(u.backend),
        installed: true,
        has_update: true,
        installed_size: format_size(u.download_size),
        ..PackageData::blank()
    }
}

// ---------------------------------------------------------------------------
// Package files

/// The endings of package files.
pub open spec fn has_package_ending(path: Seq<char>) -> bool {
    ends(path, ".pkg.tar.zst"@) || ends(path, ".pkg.tar.xz"@) || ends(path, ".pkg.tar.gz"@) || ends(
        path,
        ".pkg.tar"@,
    )
}

/// Whether a path is that of a package file.
pub fn is_arch_package(path: &str) -> (r: bool)
    ensures
        r == has_package_ending(path@),
{
    let chars = to_chars(path);
    let s = chars.as_slice();
    ends_with_word(s, ".pkg.tar.zst") || ends_with_word(s, ".pkg.tar.xz") || ends_with_word(
        s,
        ".pkg.tar.gz",
    ) || ends_with_word(s, ".pkg.tar")
}

/// `s` without `ending` at its end.
pub open spec fn without_ending(s: Seq<char>, ending: Seq<char>) -> Option<Seq<char>> {
    if ends(s, ending) {
        Some(s.take(s.len() - ending.len()))
    } else {
        None
    }
}

/// The name of a package file without its ending.
pub open spec fn file_base(name: Seq<char>) -> Option<Seq<char>> {
    match without_ending(name, ".pkg.tar.zst"@) {
        Some(b) => Some(b),
        None => match without_ending(name, ".pkg.tar.xz"@) {
            Some(b) => Some(b),
            None => match without_ending(name, ".pkg.tar.gz"@) {
                Some(b) => Some(b),
                None => without_ending(name, ".pkg.tar"@),
            },
        },
    }
}

/// The name and the version in the base of a package file's name, which is made of the name, the
/// version, the release and the architecture; a base with fewer than two hyphens is the name.
pub open spec fn name_and_version_of(base: Seq<char>) -> (Seq<char>, Seq<char>) {
    match last_index_of(base, '-') {
        Some(a) => {
            let head = base.take(a);
            match last_index_of(head, '-') {
                Some(b) => {
                    let release = head.skip(b + 1);
                    let rest = head.take(b);
                    match last_index_of(rest, '-') {
                        Some(c) => (rest.take(c), rest.skip(c + 1) + "-"@ + release),
                        None => (seq![], rest + "-"@ + release),
                    }
                },
                None => (base, "unknown"@),
            }
        },
        None => (base, "unknown"@),
    }
}

/// The base of the name of a package file gives its parts back, whatever hyphens the name of the
/// package has in it.
pub proof fn file_names_give_their_parts(
    name: Seq<char>,
    version: Seq<char>,
    release: Seq<char>,
    arch: Seq<char>,
)
    requires
        !version.contains('-'),
        !release.contains('-'),
        !arch.contains('-'),
    ensures
        name_and_version_of(
            name.push('-') + version.push('-') + release.push('-') + arch,
        ) == (name, version + "-"@ + release),
{
    let rest = name.push('-') + version;
    let head = rest.push('-') + release;
    let base = head.push('-') + arch;
    assert(name.push('-') + version.push('-') + release.push('-') + arch =~= base);
    last_index_is(head, '-', arch);
    last_index_is(rest, '-', release);
    last_index_is(name, '-', version);
    assert(base.take(head.len() as int) =~= head);
    assert(head.take(rest.len() as int) =~= rest);
    assert(head.skip(rest.len() as int + 1) =~= release);
    assert(rest.take(name.len() as int) =~= name);
    assert(rest.skip(name.len() as int + 1) =~= version);
}

/// A package file as a list shows it: none where its name is not that of one.
pub open spec fn local_data(file_name: Seq<char>, size: Option<u64>) -> Option<DataModel> {
    match file_base(file_name) {
        Some(base) => {
            let (name, version) = name_and_version_of(base);
            Some(
                DataModel {
                    name,
                    display_name: name,
                    version,
                    description: "Local package: "@ + file_name,
                    repository: "local"@,
                    backend: 2,
                    installed_size: match size {
                        Some(n) => bytes_text(n as nat, 1),
                        None => "Unknown"@,
                    },
                    ..blank_data()
                },
            )
        },
        None => None,
    }
}

fn strip_ending<'a>(s: &'a [char], ending: &str) -> (r: Option<&'a [char]>)
    ensures
        match r {
            Some(b) => without_ending(s@, ending@) == Some(b@),
            None => without_ending(s@, ending@) is None,
        },
{
    if ends_with_word(s, ending) {
        let e = to_chars(ending);
        let out = slice_subrange(s, 0, s.len() - e.len());
        proof {
            assert(out@ =~= s@.take(s@.len() - e@.len()));
        }
        Some(out)
    } else {
        None
    }
}

fn base_of<'a>(s: &'a [char]) -> (r: Option<&'a [char]>)
    ensures
        match r {
            Some(b) => file_base(s@) == Some(b@),
            None => file_base(s@) is None,
        },
{
    if let Some(b) = strip_ending(s, ".pkg.tar.zst") {
        return Some(b);
    }
    if let Some(b) = strip_ending(s, ".pkg.tar.xz") {
        return Some(b);
    }
    if let Some(b) = strip_ending(s, ".pkg.tar.gz") {
        return Some(b);
    }
    strip_ending(s, ".pkg.tar")
}

fn before_and_after<'a>(s: &'a [char], k: usize) -> (r: (&'a [char], &'a [char]))
    requires
        k < s@.len(),
    ensures
        r.0@ == s@.take(k as int),
        r.1@ == s@.skip(k + 1),
{
    let n: usize = s.len();
    let a = slice_subrange(s, 0, k);
    let b = slice_subrange(s, k + 1, n);
    proof {
        assert(a@ =~= s@.take(k as int));
        assert(b@ =~= s@.skip(k + 1));
    }
    (a, b)
}

fn split_base(base: &[char]) -> (r: (String, String))
    ensures
        (r.0@, r.1@) == name_and_version_of(base@),
{
    if let Some(a) = find_last_char(base, '-') {
        let (head, _) = before_and_after(base, a);
        if let Some(b) = find_last_char(head, '-') {
            let (rest, release) = before_and_after(head, b);
            let (name, number) = match find_last_char(rest, '-') {
                Some(c) => {
                    let (x, y) = before_and_after(rest, c);
                    (from_chars(x), from_chars(y))
                },
                None => (String::new(), from_chars(rest)),
            };
            let mut version = number;
            version.append("-");
            version.append(from_chars(release).as_str());
            return (name, version);
        }
    }
    (from_chars(base), own("unknown"))
}

/// A package file as a list shows it, given the name of the file and, where it could be read, its
/// size.
pub fn get_local_package_info(file_name: &str, size: Option<u64>) -> (r: Option<PackageData>)
    ensures
        match r {
            Some(d) => local_data(file_name@, size) == Some(d@),
            None => local_data(file_name@, size) is None,
        },
{
    let chars = to_chars(file_name);
    match base_of(chars.as_slice()) {
        Some(base) => {
            let (name, version) = split_base(base);
            let mut description = own("Local package: ");
            description.append(file_name);
            Some(
                PackageData {
                    display_name: own(name.as_str()),
                    name,
                    version,
                    description,
                    repository: own("local"),
                    backend: 2,
                    installed_size: match size {
                        Some(n) => format_size(n),
                        None => own("Unknown"),
                    },
                    ..PackageData::blank()
                },
            )
        },
        None => None,
    }
}

// ---------------------------------------------------------------------------
// Selecting and finding

/// Whether a row is that of a package.
pub open spec fn is_row(d: DataModel, name: Seq<char>, backend: i32) -> bool {
    d.name == name && d.backend == backend
}

/// The list with the first row of a package selected or not.
pub open spec fn with_selection(
    list: Seq<DataModel>,
    name: Seq<char>,
    backend: i32,
    selected: bool,
) -> Seq<DataModel>
    decreases list.len(),
{
    if list.len() == 0 {
        list
    } else if is_row(list[0], name, backend) {
        seq![DataModel { selected, ..list[0] }] + list.skip(1)
    } else {
        seq![list[0]] + with_selection(list.skip(1), name, backend, selected)
    }
}

/// Selects the first row of a package, or takes its selection back.
pub fn update_selection_in_model(
    list: &mut Vec<PackageData>,
    name: &str,
    backend: i32,
    selected: bool,
)
    ensures
        data_models(final(list)@) == with_selection(
            data_models(old(list)@),
            name@,
            backend,
            selected,
        ),
{
    let ghost all = data_models(list@);
    let n: usize = list.len();
    let mut i: usize = 0;
    proof {
        assert(all.skip(0) =~= all);
        assert(all.take(0) + with_selection(all, name@, backend, selected) =~= with_selection(
            all,
            name@,
            backend,
            selected,
        ));
    }
    while i < n
        invariant
            i <= n,
            n == list@.len(),
            all == data_models(list@),
            all == data_models(old(list)@),
            all.take(i as int) + with_selection(all.skip(i as int), name@, backend, selected)
                == with_selection(all, name@, backend, selected),
        decreases n - i,
    {
        proof {
            assert(all.skip(i as int)[0] == list@[i as int]@);
            assert(all.skip(i as int).skip(1) =~= all.skip(i + 1));
        }
        if list[i].backend == backend && same_text(list[i].name.as_str(), name) {
            let mut row = list[i].copied();
            row.selected = selected;
            let ghost changed = row@;
            list.set(i, row);
            proof {
                assert(data_models(list@) =~= all.take(i as int) + (seq![changed] + all.skip(
                    i + 1,
                )));
            }
            return;
        }
        proof {
            assert(all.take(i as int) + with_selection(
                all.skip(i as int),
                name@,
                backend,
                selected,
            ) =~= all.take(i + 1) + with_selection(all.skip(i + 1), name@, backend, selected));
        }
        i = i + 1;
    }
    proof {
        assert(all.skip(i as int) =~= Seq::<DataModel>::empty());
        assert(all.take(i as int) + with_selection(all.skip(i as int), name@, backend, selected)
            =~= all);
    }
}

/// Whether a package is installed according to its first row in a list.
pub open spec fn row_installed(list: Seq<DataModel>, name: Seq<char>, backend: i32) -> Option<bool>
    decreases list.len(),
{
    if list.len() == 0 {
        None
    } else if is_row(list[0], name, backend) {
        Some(list[0].installed)
    } else {
        row_installed(list.skip(1), name, backend)
    }
}

/// Whether a package is installed according to its first row in a list.
pub fn installed_row(list: &Vec<PackageData>, name: &str, backend: i32) -> (r: Option<bool>)
    ensures
        r == row_installed(data_models(list@), name@, backend),
{
    let ghost all = data_models(list@);
    proof {
        assert(all.skip(0) =~= all);
    }
    for i in 0..list.len()
        invariant
            all == data_models(list@),
            row_installed(all, name@, backend) == row_installed(
                all.skip(i as int),
                name@,
                backend,
            ),
    {
        proof {
            assert(all.skip(i as int)[0] == list@[i as int]@);
            assert(all.skip(i as int).skip(1) =~= all.skip(i + 1));
        }
        if list[i].backend == backend && same_text(list[i].name.as_str(), name) {
            return Some(list[i].installed);
        }
    }
    None
}

/// Whether an update of a package takes effect only after a restart: kernels, firmware, microcode,
/// systemd, glibc and boot loaders.
pub open spec fn needs_reboot(name: Seq<char>) -> bool {
    ||| name == "linux"@
    ||| name == "intel-ucode"@
    ||| name == "amd-ucode"@
    ||| name == "systemd"@
    ||| name == "systemd-libs"@
    ||| name == "glibc"@
    ||| name == "grub"@
    ||| name == "refind-efi"@
    ||| name == "efibootmgr"@
    ||| name == "syslinux"@
    ||| name == "mkinitcpio"@
    ||| begins(name, "linux-"@) && !(begins(name, "linux-docs"@)) && !(begins(
        name,
        "linux-headers"@,
    ))
}

fn reboot_needed(name: &str) -> (r: bool)
    ensures
        r == needs_reboot(name@),
{
    let chars = to_chars(name);
    let s = chars.as_slice();
    is_word(s, "linux") || is_word(s, "intel-ucode") || is_word(s, "amd-ucode") || is_word(
        s,
        "systemd",
    ) || is_word(s, "systemd-libs") || is_word(s, "glibc") || is_word(s, "grub") || is_word(
        s,
        "refind-efi",
    ) || is_word(s, "efibootmgr") || is_word(s, "syslinux") || is_word(s, "mkinitcpio") || (
    starts_with_word(s, "linux-") && !starts_with_word(s, "linux-docs") && !starts_with_word(
        s,
        "linux-headers",
    ))
}

/// Whether any update takes effect only after a restart.
pub fn native_updates_need_reboot(updates: &[PackageData]) -> (r: bool)
    ensures
        r == exists|i: int| 0 <= i < updates@.len() && needs_reboot((#[trigger] updates@[i]).name@),
{
    for i in 0..updates.len()
        invariant
            forall|j: int| 0 <= j < i ==> !needs_reboot((#[trigger] updates@[j]).name@),
    {
        if reboot_needed(updates[i].name.as_str()) {
            return true;
        }
    }
    false
}

// ---------------------------------------------------------------------------
// Laws

/// Selecting a package changes no other row and nothing else of its row.
pub proof fn selection_changes_one_row(
    list: Seq<DataModel>,
    name: Seq<char>,
    backend: i32,
    selected: bool,
)
    ensures
        with_selection(list, name, backend, selected).len() == list.len(),
        forall|i: int|
            0 <= i < list.len() ==> {
                let new = #[trigger] with_selection(list, name, backend, selected)[i];
                new == list[i] || (is_row(list[i], name, backend) && new == DataModel {
                    selected,
                    ..list[i]
                })
            },
    decreases list.len(),
{
    if list.len() > 0 && !is_row(list[0], name, backend) {
        selection_changes_one_row(list.skip(1), name, backend, selected);
        let rest = with_selection(list.skip(1), name, backend, selected);
        assert forall|i: int| 0 <= i < list.len() implies {
            let new = #[trigger] with_selection(list, name, backend, selected)[i];
            new == list[i] || (is_row(list[i], name, backend) && new == DataModel {
                selected,
                ..list[i]
            })
        } by {
            if i > 0 {
                assert(with_selection(list, name, backend, selected)[i] == rest[i - 1]);
                assert(list.skip(1)[i - 1] == list[i]);
            }
        }
    }
}

/// Selecting a package and taking the selection back leaves the list as it was, where the package
/// was not selected.
pub proof fn deselecting_undoes_selecting(list: Seq<DataModel>, name: Seq<char>, backend: i32)
    requires
        forall|i: int|
            0 <= i < list.len() && is_row(#[trigger] list[i], name, backend) ==> !list[i].selected,
    ensures
        with_selection(with_selection(list, name, backend, true), name, backend, false) == list,
    decreases list.len(),
{
    if list.len() > 0 {
        let once = with_selection(list, name, backend, true);
        if is_row(list[0], name, backend) {
            assert(once.skip(1) =~= list.skip(1));
            assert(with_selection(once, name, backend, false) =~= list);
        } else {
            assert forall|i: int|
                0 <= i < list.skip(1).len() && is_row(
                    #[trigger] list.skip(1)[i],
                    name,
                    backend,
                ) implies !list.skip(1)[i].selected by {
                assert(list.skip(1)[i] == list[i + 1]);
            }
            deselecting_undoes_selecting(list.skip(1), name, backend);
            assert(once.skip(1) =~= with_selection(list.skip(1), name, backend, true));
            assert(with_selection(once, name, backend, false) =~= list);
        }
    }
}

/// The words of a name between hyphens stand in its title with blanks between them.
pub proof fn titles_follow_names(word: Seq<char>, rest: Seq<char>)
    requires
        !word.contains('-'),
    ensures
        titled(word.push('-') + rest) == capitalized(word).push(' ') + titled(rest),
        titled(word) == capitalized(word),
{
    pieces_follow(word, '-', rest);
    reveal_strlit(" ");
    assert(" "@ =~= seq![' ']);
    let f = |w: Seq<char>| capitalized(w);
    let more = split_on(rest, '-');
    split_is_not_empty(rest, '-');
    let all = split_on(word.push('-') + rest, '-').map_values(f);
    assert(all =~= seq![capitalized(word)] + more.map_values(f));
    assert(all.skip(1) =~= more.map_values(f));
    joined_front(all, " "@);
    assert(capitalized(word) + " "@ + titled(rest) =~= capitalized(word).push(' ') + titled(rest));
    assert(split_on(word, '-').map_values(f) =~= seq![capitalized(word)]);
}

/// Only the first letter of a word is changed, into a capital.
pub proof fn capitals_stand_first(word: Seq<char>)
    requires
        word.len() > 0,
        (word[0] as u32) < 0x80,
    ensures
        capitalized(word).len() == word.len(),
        capitalized(word).skip(1) == word.skip(1),
        'a' <= word[0] <= 'z' ==> 'A' <= capitalized(word)[0] <= 'Z' && capitalized(word)[0] as u32
            + 32 == word[0] as u32,
        !('a' <= word[0] <= 'z') ==> capitalized(word)[0] == word[0],
{
    let one = seq![word[0]];
    assert(is_ascii_text(one));
    assert(uppered(one) =~= seq![ascii_upper(word[0])]);
    assert(capitalized(word).skip(1) =~= word.skip(1));
}

/// A name from a desktop entry goes before the title of a package.
pub proof fn entries_name_packages(name: Seq<char>, names: Map<Seq<char>, Seq<char>>)
    ensures
        names.contains_key(lowered(name)) ==> human_name(name, names) == names[lowered(name)],
        !names.contains_key(lowered(name)) ==> human_name(name, names) == titled(name),
{
}

/// A desktop entry names the package of its file, in any case, and the package of its program where
/// that has no name yet; no other name changes. A hidden entry, or one without a name, changes none.
pub proof fn entries_give_names(
    names: Map<Seq<char>, Seq<char>>,
    stem: Seq<char>,
    e: EntryModel,
    other: Seq<char>,
)
    ensures
        e.name.len() > 0 && !e.hidden ==> with_entry(names, Some(stem), e).contains_key(
            lowered(stem),
        ) && with_entry(names, Some(stem), e)[lowered(stem)] == e.name,
        e.name.len() > 0 && !e.hidden && e.program.len() > 0 ==> with_entry(
            names,
            Some(stem),
            e,
        ).contains_key(lowered(e.program)),
        names.contains_key(other) && other != lowered(stem) ==> with_entry(
            names,
            Some(stem),
            e,
        ).contains_key(other) && with_entry(names, Some(stem), e)[other] == names[other],
        e.hidden || e.name.len() == 0 ==> with_entry(names, Some(stem), e) == names,
{
}

/// The lines of a desktop entry give its name, its program and whether it is hidden; the last line of
/// a kind counts.
pub proof fn entry_lines_are_read(list: Seq<Seq<char>>, value: Seq<char>)
    ensures
        !holds("Name="@ + value, "["@) ==> entry_after_lines(list.push("Name="@ + value)).name
            == value,
        entry_after_lines(list.push("Exec="@ + value)).program == program_of(value),
        entry_after_lines(list.push("Exec="@ + value)).name == entry_after_lines(list).name,
        entry_after_lines(list.push("NoDisplay=true"@)).hidden,
        entry_after_lines(list.push("Exec="@ + value)).hidden == entry_after_lines(list).hidden,
{
    reveal_strlit("Name=");
    reveal_strlit("Exec=");
    reveal_strlit("NoDisplay=true");
    let (a, b, c) = ("Name="@ + value, "Exec="@ + value, "NoDisplay=true"@);
    assert(list.push(a).drop_last() =~= list);
    assert(list.push(b).drop_last() =~= list);
    assert(list.push(c).drop_last() =~= list);
    assert(a.take(5) =~= "Name="@);
    assert(a.skip(5) =~= value);
    assert(b.take(5) =~= "Exec="@);
    assert(b.skip(5) =~= value);
    assert(c.take(14) =~= c);
    assert(b[0] == 'E' && "Name="@[0] == 'N');
    assert(b.take(5)[0] != "Name="@[0]);
    assert(c[1] == 'o' && "Name="@[1] == 'a');
    assert(c.take(5)[1] != "Name="@[1]);
    assert("Exec="@[0] == 'E');
    assert(c.take(5)[0] != "Exec="@[0]);
}

/// The program of a command is the last part of the path in front of its arguments.
pub proof fn programs_are_found(dir: Seq<char>, program: Seq<char>, rest: Seq<char>)
    requires
        is_one_word(dir.push('/') + program),
        !program.contains('/'),
    ensures
        program_of((dir.push('/') + program).push(' ') + rest) == program,
{
    let path = dir.push('/') + program;
    words_on_both_sides(path, ' ', rest);
    single_word(path);
    last_piece(dir, '/', program);
    assert(words_of(path.push(' ') + rest)[0] == path);
}

/// A row shows its package: its name, version, description and repository as they are, whether it is
/// installed, and whether it has an update.
pub proof fn rows_show_their_packages(
    p: PackageModel,
    has_update: bool,
    names: Map<Seq<char>, Seq<char>>,
)
    ensures
        ({
            let d = package_data(p, has_update, names);
            &&& d.name == p.name && d.version == p.version.full && d.description == p.description
                && d.repository == p.repository
            &&& d.has_update == has_update
            &&& d.explicit == p.explicit
            &&& p.status == PackageStatus::Installed ==> d.installed
            &&& p.status == PackageStatus::Orphan ==> d.installed
            &&& p.status == PackageStatus::Available ==> !d.installed
            &&& p.backend == PackageBackend::Pacman ==> d.backend == 0
            &&& p.backend == PackageBackend::Flatpak ==> d.backend == 1
            &&& !d.selected
        }),
{
}

/// An update shows the installed version before the new one.
pub proof fn updates_show_both_versions(u: UpdateInfo)
    ensures
        ({
            let d = update_data(u);
            &&& d.name == u.name@ && d.installed && d.has_update
            &&& begins(d.version, u.current_version.full@)
            &&& ends(d.version, u.new_version.full@)
            &&& d.version.len() == u.current_version.full@.len() + 3 + u.new_version.full@.len()
        }),
{
    reveal_strlit(" → ");
    let (a, b) = (u.current_version.full@, u.new_version.full@);
    let v = version_step(a, b);
    assert(v.take(a.len() as int) =~= a);
    assert(v.skip(v.len() - b.len()) =~= b);
}

/// A file is a package file exactly where its name has one of the four endings.
pub proof fn package_files_are_known(base: Seq<char>)
    ensures
        has_package_ending(base + ".pkg.tar.zst"@),
        has_package_ending(base + ".pkg.tar.xz"@),
        has_package_ending(base + ".pkg.tar.gz"@),
        has_package_ending(base + ".pkg.tar"@),
        file_base(base + ".pkg.tar.zst"@) == Some(base),
        has_package_ending(base) == file_base(base) is Some,
{
    let (a, b, c, d) = (".pkg.tar.zst"@, ".pkg.tar.xz"@, ".pkg.tar.gz"@, ".pkg.tar"@);
    assert((base + a).skip(base.len() as int) =~= a);
    assert((base + b).skip(base.len() as int) =~= b);
    assert((base + c).skip(base.len() as int) =~= c);
    assert((base + d).skip(base.len() as int) =~= d);
    assert((base + a).take(base.len() as int) =~= base);
}

/// Whether a package is installed is what its first row says.
pub proof fn first_row_tells(list: Seq<DataModel>, name: Seq<char>, backend: i32, i: int)
    requires
        0 <= i < list.len(),
        list[i].name == name && list[i].backend == backend,
        forall|j: int|
            0 <= j < i ==> !((#[trigger] list[j]).name == name && list[j].backend == backend),
    ensures
        row_installed(list, name, backend) == Some(list[i].installed),
    decreases i,
{
    if i > 0 {
        assert(!(list[0].name == name && list[0].backend == backend));
        let rest = list.skip(1);
        assert forall|j: int| 0 <= j < i - 1 implies !((#[trigger] rest[j]).name == name
            && rest[j].backend == backend) by {
            assert(rest[j] == list[j + 1]);
        }
        first_row_tells(rest, name, backend, i - 1);
    }
}

/// A kernel needs a restart, whatever its flavour; its documentation and its headers do not.
pub proof fn kernels_need_a_restart(flavour: Seq<char>)
    ensures
        needs_reboot("linux"@),
        !begins(flavour, "docs"@) && !begins(flavour, "headers"@) ==> needs_reboot(
            "linux-"@ + flavour,
        ),
        begins(flavour, "docs"@) ==> !needs_reboot("linux-"@ + flavour),
        begins(flavour, "headers"@) ==> !needs_reboot("linux-"@ + flavour),
{
    reveal_strlit("linux-");
    reveal_strlit("linux");
    reveal_strlit("linux-docs");
    reveal_strlit("linux-headers");
    reveal_strlit("docs");
    reveal_strlit("headers");
    reveal_strlit("intel-ucode");
    reveal_strlit("amd-ucode");
    reveal_strlit("systemd");
    reveal_strlit("systemd-libs");
    reveal_strlit("glibc");
    reveal_strlit("grub");
    reveal_strlit("refind-efi");
    reveal_strlit("efibootmgr");
    reveal_strlit("syslinux");
    reveal_strlit("mkinitcpio");
    let s = "linux-"@ + flavour;
    assert(s.take(6) =~= "linux-"@);
    assert(s[0] == 'l' && s[5] == '-');
    assert("linux"@.len() == 5);
    assert("linux-docs"@ =~= "linux-"@ + "docs"@);
    assert("linux-headers"@ =~= "linux-"@ + "headers"@);
    assert(begins(s, "linux-docs"@) == begins(flavour, "docs"@)) by {
        if flavour.len() >= 4 {
            assert(s.take(10) =~= "linux-"@ + flavour.take(4));
            if begins(s, "linux-docs"@) {
                assert(flavour.take(4) =~= s.take(10).skip(6));
                assert("docs"@ =~= "linux-docs"@.skip(6));
            }
        }
    }
    assert(begins(s, "linux-headers"@) == begins(flavour, "headers"@)) by {
        if flavour.len() >= 7 {
            assert(s.take(13) =~= "linux-"@ + flavour.take(7));
            if begins(s, "linux-headers"@) {
                assert(flavour.take(7) =~= s.take(13).skip(6));
                assert("headers"@ =~= "linux-headers"@.skip(6));
            }
        }
    }
    assert("intel-ucode"@[0] == 'i' && "amd-ucode"@[0] == 'a' && "systemd"@[0] == 's'
        && "systemd-libs"@[0] == 's' && "glibc"@[0] == 'g' && "grub"@[0] == 'g'
        && "refind-efi"@[0] == 'r' && "efibootmgr"@[0] == 'e' && "syslinux"@[0] == 's'
        && "mkinitcpio"@[0] == 'm');
}

/// Nothing but what the machine starts and runs with needs a restart: no package whose name begins
/// with another letter does.
pub proof fn other_packages_need_no_restart(name: Seq<char>)
    requires
        name.len() > 0,
        name[0] != 'l' && name[0] != 'i' && name[0] != 'a' && name[0] != 's' && name[0] != 'g'
            && name[0] != 'r' && name[0] != 'e' && name[0] != 'm',
    ensures
        !needs_reboot(name),
{
    reveal_strlit("linux");
    reveal_strlit("linux-");
    reveal_strlit("intel-ucode");
    reveal_strlit("amd-ucode");
    reveal_strlit("systemd");
    reveal_strlit("systemd-libs");
    reveal_strlit("glibc");
    reveal_strlit("grub");
    reveal_strlit("refind-efi");
    reveal_strlit("efibootmgr");
    reveal_strlit("syslinux");
    reveal_strlit("mkinitcpio");
    assert("intel-ucode"@[0] == 'i' && "amd-ucode"@[0] == 'a' && "systemd"@[0] == 's'
        && "systemd-libs"@[0] == 's' && "glibc"@[0] == 'g' && "grub"@[0] == 'g'
        && "refind-efi"@[0] == 'r' && "efibootmgr"@[0] == 'e' && "syslinux"@[0] == 's'
        && "mkinitcpio"@[0] == 'm' && "linux"@[0] == 'l' && "linux-"@[0] == 'l');
    if begins(name, "linux-"@) {
        assert(name.take(6)[0] == 'l');
    }
}

/// The first row of a package is selected or taken out, and no row before or behind it changes.
pub proof fn first_row_is_marked(
    list: Seq<DataModel>,
    name: Seq<char>,
    backend: i32,
    selected: bool,
    i: int,
)
    requires
        0 <= i < list.len(),
        list[i].name == name && list[i].backend == backend,
        forall|j: int|
            0 <= j < i ==> !((#[trigger] list[j]).name == name && list[j].backend == backend),
    ensures
        with_selection(list, name, backend, selected) == list.update(
            i,
            DataModel { selected, ..list[i] },
        ),
    decreases i,
{
    if i > 0 {
        assert(!(list[0].name == name && list[0].backend == backend));
        let rest = list.skip(1);
        assert forall|j: int| 0 <= j < i - 1 implies !((#[trigger] rest[j]).name == name
            && rest[j].backend == backend) by {
            assert(rest[j] == list[j + 1]);
        }
        first_row_is_marked(rest, name, backend, selected, i - 1);
    }
    assert(with_selection(list, name, backend, selected) =~= list.update(
        i,
        DataModel { selected, ..list[i] },
    ));
}

/// Where no row is that of a package, selecting it changes nothing, and nothing is known of it.
pub proof fn missing_rows_change_nothing(
    list: Seq<DataModel>,
    name: Seq<char>,
    backend: i32,
    selected: bool,
)
    requires
        forall|j: int|
            0 <= j < list.len() ==> !((#[trigger] list[j]).name == name && list[j].backend
                == backend),
    ensures
        with_selection(list, name, backend, selected) == list,
        row_installed(list, name, backend) is None,
    decreases list.len(),
{
    if list.len() > 0 {
        assert(!(list[0].name == name && list[0].backend == backend));
        let rest = list.skip(1);
        assert forall|j: int| 0 <= j < rest.len() implies !((#[trigger] rest[j]).name == name
            && rest[j].backend == backend) by {
            assert(rest[j] == list[j + 1]);
        }
        missing_rows_change_nothing(rest, name, backend, selected);
        assert(seq![list[0]] + rest =~= list);
    }
}

/// A package file is listed with the name and the version in its name; any other file is not.
pub proof fn package_files_are_listed(file: Seq<char>, size: Option<u64>)
    ensures
        local_data(file, size) is Some == has_package_ending(file),
        local_data(file, size) matches Some(d) ==> {
            &&& (d.name, d.version) == name_and_version_of(file_base(file)->0)
            &&& d.display_name == d.name
            &&& d.backend == 2
            &&& !d.installed
            &&& size is None ==> d.installed_size == "Unknown"@
        },
{
    package_files_are_known(file);
}

/// An update shows what is to be downloaded for it, and where it comes from.
pub proof fn updates_show_their_size(u: UpdateInfo)
    ensures
        update_data(u).installed_size == bytes_text(u.download_size as nat, 1),
        update_data(u).repository == u.repository@,
        update_data(u).display_name == u.name@,
        update_data(u).description == update_data(u).version,
        u.backend == PackageBackend::Pacman ==> update_data(u).backend == 0,
        u.backend == PackageBackend::Flatpak ==> update_data(u).backend == 1,
{
}

/// A package is shown under its name for people, whatever else is known of it.
pub proof fn packages_are_named_for_people(
    p: PackageModel,
    has_update: bool,
    names: Map<Seq<char>, Seq<char>>,
)
    ensures
        package_data(p, has_update, names).display_name == human_name(p.name, names),
        package_data(p, has_update, names).name == p.name,
        package_data(p, has_update, names).description == p.description,
        package_data(p, has_update, names).has_update == has_update,
        package_data(p, has_update, names).explicit == p.explicit,
{
}

} // verus!
