//! Putting together what the lists of packages show.
use vstd::prelude::*;

use crate::deps::NameMap;
use crate::error::Error;
use crate::listing::{blank_data, counts_as_installed, data_models, package_data, package_to_ui,
    push_data, update_to_ui, version_change, version_step, DataModel, PackageData};
use crate::number::{decimal, decimal_is_one_word, decimal_parses, parse_u64, parsed_u64,
    shown_count, to_count};
use crate::package::{Package, PackageBackend, PackageStatus, UpdateInfo};
use crate::progress::{bytes_text, format_size};
use crate::sysinfo::{first_word, word_at};
use crate::text::{begins, characters_are_replaced, ends, filled, from_chars, is_one_word,
    last_piece, lines, lines_of, own, pieces, replace, replaced, same_text, single_word, split_char,
    split_is_not_empty, split_on, to_chars, words, words_of, words_on_both_sides};
use crate::version::{version_of, Version};

verus! {

/// The numbers on the home page.
#[derive(Debug, Clone)]
pub struct StatsData {
    pub pacman_count: i32,
    pub flatpak_count: i32,
    pub orphan_count: i32,
    pub update_count: i32,
    pub cache_size: String,
}

/// What was asked for the lists. An update check may have been left out; then nothing was asked of
/// it.
#[derive(Debug)]
pub struct LoadAnswers {
    pub installed: Result<Vec<Package>, Error>,
    pub orphans: Result<Vec<Package>, Error>,
    pub flatpak: Result<Vec<Package>, Error>,
    pub flatpak_updates: Option<Result<Vec<UpdateInfo>, Error>>,
    /// What the check for updates printed, where it succeeded.
    pub checkupdates: Option<String>,
    pub plasmoid_updates: Vec<PackageData>,
    /// What was printed as the size of the cache.
    pub cache_usage: Option<String>,
    /// What was printed as the list of Flatpaks.
    pub flatpak_list: Option<Vec<u8>>,
}

/// What the lists show.
#[derive(Debug)]
pub struct LoadedPackages {
    pub installed: Vec<PackageData>,
    pub updates: Vec<PackageData>,
    pub flatpak_updates: Vec<PackageData>,
    pub flatpak: Vec<PackageData>,
    pub stats: StatsData,
    pub flatpak_update_count: i32,
}

// ---------------------------------------------------------------------------
// Updates

/// An update: its name, the installed and the new version.
pub struct CheckedModel {
    pub name: Seq<char>,
    pub current: Seq<char>,
    pub new: Seq<char>,
}

/// The update on a line such as `pkg 1.0-1 -> 1.1-1`, or only with the new version.
pub open spec fn checked_in(line: Seq<char>) -> Option<CheckedModel> {
    let w = words_of(line);
    if w.len() >= 4 {
        Some(CheckedModel { name: w[0], current: w[1], new: w[3] })
    } else if w.len() >= 2 {
        Some(CheckedModel { name: w[0], current: ""@, new: w[1] })
    } else {
        None
    }
}

/// The updates on lines.
pub open spec fn checked_lines(list: Seq<Seq<char>>) -> Seq<CheckedModel>
    decreases list.len(),
{
    if list.len() == 0 {
        seq![]
    } else {
        match checked_in(list.last()) {
            Some(u) => checked_lines(list.drop_last()).push(u),
            None => checked_lines(list.drop_last()),
        }
    }
}

/// The updates that a check printed.
pub open spec fn checked_updates(output: Option<Seq<char>>) -> Seq<CheckedModel> {
    match output {
        Some(text) => checked_lines(lines_of(text)),
        None => seq![],
    }
}

/// Whether an update is that of a line: without a repository and a size.
pub open spec fn is_checked(u: UpdateInfo, m: CheckedModel) -> bool {
    &&& u.name@ == m.name
    &&& u.current_version@ == version_of(m.current)
    &&& u.new_version@ == version_of(m.new)
    &&& u.backend == PackageBackend::Pacman
    &&& u.repository@ == Seq::<char>::empty()
    &&& u.download_size == 0
}

/// Whether updates are those of lines.
pub open spec fn are_checked(list: Seq<UpdateInfo>, models: Seq<CheckedModel>) -> bool {
    &&& list.len() == models.len()
    &&& forall|i: int| 0 <= i < list.len() ==> is_checked(#[trigger] list[i], models[i])
}

fn checked(line: &[char]) -> (r: Option<UpdateInfo>)
    ensures
        match r {
            Some(u) => checked_in(line@) matches Some(m) && is_checked(u, m),
            None => checked_in(line@) is None,
        },
{
    let w = words(line);
    let ghost all = pieces(w@);
    if w.len() < 2 {
        return None;
    }
    proof {
        assert(all[0] == w@[0]@ && all[1] == w@[1]@);
        if w@.len() >= 4 {
            assert(all[3] == w@[3]@);
        }
    }
    let (current, new) = if w.len() >= 4 {
        (from_chars(w[1].as_slice()), from_chars(w[3].as_slice()))
    } else {
        (own(""), from_chars(w[1].as_slice()))
    };
    Some(
        UpdateInfo {
            name: from_chars(w[0].as_slice()),
            current_version: Version::new(current.as_str()),
            new_version: Version::new(new.as_str()),
            backend: PackageBackend::Pacman,
            repository: String::new(),
            download_size: 0,
        },
    )
}

/// Reads the updates that a check printed.
pub fn parse_checkupdates(output: &str) -> (out: Vec<UpdateInfo>)
    ensures
        are_checked(out@, checked_lines(lines_of(output@))),
{
    let chars = to_chars(output);
    let list = lines(chars.as_slice());
    let ghost all = pieces(list@);
    let mut out: Vec<UpdateInfo> = Vec::new();
    for i in 0..list.len()
        invariant
            all == pieces(list@),
            are_checked(out@, checked_lines(all.take(i as int))),
    {
        proof {
            assert(all.take(i + 1).last() == list@[i as int]@);
            assert(all.take(i + 1).drop_last() =~= all.take(i as int));
        }
        if let Some(u) = checked(list[i].as_slice()) {
            out.push(u);
        }
    }
    proof {
        assert(all.take(all.len() as int) =~= all);
    }
    out
}

/// Whether there is an update of a name.
pub open spec fn updates_name(list: Seq<UpdateInfo>, name: Seq<char>) -> bool {
    exists|i: int| 0 <= i < list.len() && (#[trigger] list[i]).name@ == name
}

fn has_update_of(list: &Vec<UpdateInfo>, name: &str) -> (r: bool)
    ensures
        r == updates_name(list@, name@),
{
    for i in 0..list.len()
        invariant
            forall|j: int| 0 <= j < i ==> (#[trigger] list@[j]).name@ != name@,
    {
        if same_text(list[i].name.as_str(), name) {
            return true;
        }
    }
    false
}

// ---------------------------------------------------------------------------
// Flatpaks

/// The last part of an identifier in words.
pub open spec fn id_title(id: Seq<char>) -> Seq<char> {
    replaced(replaced(split_on(id, '.').last(), "_"@, " "@), "-"@, " "@)
}

/// The name that is shown for an installed Flatpak: its description, which holds the name that the
/// application gives itself, or else the last part of its identifier.
pub open spec fn flatpak_title(p: Package) -> Seq<char> {
    if p.description@.len() > 0 {
        p.description@
    } else {
        id_title(p.name@)
    }
}

/// An installed Flatpak as the list shows it.
pub open spec fn flatpak_data(p: Package, has_update: bool) -> DataModel {
    DataModel {
        name: p.name@,
        display_name: flatpak_title(p),
        version: p.version.full@,
        repository: p.repository@,
        backend: 1,
        installed: counts_as_installed(p.status),
        has_update,
        ..blank_data()
    }
}

/// The name that is shown for an installed Flatpak of an identifier; the last one counts.
pub open spec fn title_in(list: Seq<Package>, id: Seq<char>) -> Seq<char>
    decreases list.len(),
{
    if list.len() == 0 {
        id_title(id)
    } else if list.last().name@ == id {
        flatpak_title(list.last())
    } else {
        title_in(list.drop_last(), id)
    }
}

/// An update of a Flatpak as the list shows it.
pub open spec fn flatpak_update_data(u: UpdateInfo, flatpaks: Seq<Package>) -> DataModel {
    let versions = version_step(u.current_version.full@, u.new_version.full@);
    DataModel {
        name: u.name@,
        display_name: title_in(flatpaks, u.name@),
        version: versions,
        description: versions,
        repository: "flatpak"@,
        backend: 1,
        installed: true,
        has_update: true,
        ..blank_data()
    }
}

fn title_of_id(id: &str) -> (out: String)
    ensures
        out@ == id_title(id@),
{
    let chars = to_chars(id);
    let parts = split_char(chars.as_slice(), '.');
    proof {
        assert(pieces(parts@).last() == parts@.last()@);
        split_is_not_empty(id@, '.');
    }
    let a = replace(parts[parts.len() - 1].as_slice(), "_", " ");
    let b = replace(a.as_slice(), "-", " ");
    from_chars(b.as_slice())
}

fn title_of(p: &Package) -> (out: String)
    ensures
        out@ == flatpak_title(*p),
{
    if filled(p.description.as_str()) {
        own(p.description.as_str())
    } else {
        title_of_id(p.name.as_str())
    }
}

fn title_for(list: &Vec<Package>, id: &str) -> (out: String)
    ensures
        out@ == title_in(list@, id@),
{
    let mut k: usize = list.len();
    proof {
        assert(list@.take(k as int) =~= list@);
    }
    while k > 0
        invariant
            k <= list@.len(),
            title_in(list@, id@) == title_in(list@.take(k as int), id@),
        decreases k,
    {
        proof {
            assert(list@.take(k as int).last() == list@[k - 1]);
            assert(list@.take(k as int).drop_last() =~= list@.take(k - 1));
        }
        if same_text(list[k - 1].name.as_str(), id) {
            return title_of(&list[k - 1]);
        }
        k = k - 1;
    }
    title_of_id(id)
}

// ---------------------------------------------------------------------------
// Numbers

/// How many line feeds are among bytes.
pub open spec fn newlines(bytes: Seq<u8>) -> nat {
    bytes.filter(|b: u8| b == 10).len()
}

fn count_newlines(bytes: &[u8]) -> (n: usize)
    ensures
        n == newlines(bytes@),
{
    let ghost keep = |b: u8| b == 10;
    let mut n: usize = 0;
    proof {
        assert(bytes@.take(0).filter(keep).len() == 0) by {
            reveal(Seq::filter);
        }
    }
    for i in 0..bytes.len()
        invariant
            keep == (|b: u8| b == 10),
            n == bytes@.take(i as int).filter(keep).len(),
            n <= i,
    {
        proof {
            assert(bytes@.take(i + 1) =~= bytes@.take(i as int).push(bytes@[i as int]));
            bytes@.take(i as int).lemma_filter_push(bytes@[i as int], keep);
        }
        if bytes[i] == 10 {
            n = n + 1;
        }
    }
    proof {
        assert(bytes@.take(bytes@.len() as int) =~= bytes@);
    }
    n
}

/// The first number that was printed, none where there is none.
pub open spec fn printed_size(output: Option<Seq<char>>) -> u64 {
    match output {
        Some(text) => match word_at(text, 0) {
            Some(w) => match parsed_u64(w) {
                Some(n) => n,
                None => 0,
            },
            None => 0,
        },
        None => 0,
    }
}

fn size_in(output: &Option<String>) -> (n: u64)
    ensures
        n == printed_size(crate::text::opt_text(*output)),
{
    match output {
        Some(text) => match first_word(text.as_str()) {
            Some(w) => {
                let chars = to_chars(w.as_str());
                match parse_u64(chars.as_slice()) {
                    Some(n) => n,
                    None => 0,
                }
            },
            None => 0,
        },
        None => 0,
    }
}

/// What a backend lists: nothing where it fails.
pub open spec fn listed_packages(r: Result<Vec<Package>, Error>) -> Seq<Package> {
    match r {
        Ok(list) => list@,
        Err(_) => Seq::empty(),
    }
}

/// The updates that a backend lists: none where it fails or was not asked.
pub open spec fn listed_updates(r: Option<Result<Vec<UpdateInfo>, Error>>) -> Seq<UpdateInfo> {
    match r {
        Some(Ok(list)) => list@,
        _ => Seq::empty(),
    }
}

fn packages_of(r: Result<Vec<Package>, Error>) -> (out: Vec<Package>)
    ensures
        out@ == listed_packages(r),
{
    match r {
        Ok(list) => list,
        Err(_) => Vec::new(),
    }
}

fn updates_of(r: Option<Result<Vec<UpdateInfo>, Error>>) -> (out: Vec<UpdateInfo>)
    ensures
        out@ == listed_updates(r),
{
    match r {
        Some(Ok(list)) => list,
        _ => Vec::new(),
    }
}

// ---------------------------------------------------------------------------
// The lists

/// An update of the native packages as the list shows it.
pub open spec fn checked_data(m: CheckedModel) -> DataModel {
    let versions = version_step(m.current, m.new);
    DataModel {
        name: m.name,
        display_name: m.name,
        version: versions,
        description: versions,
        installed: true,
        has_update: true,
        installed_size: bytes_text(0, 1),
        ..blank_data()
    }
}

/// The updates of the native packages as the list shows them.
pub open spec fn checked_list(list: Seq<CheckedModel>) -> Seq<DataModel> {
    list.map_values(|m: CheckedModel| checked_data(m))
}

/// Whether there is a checked update of a name.
pub open spec fn checks_name(list: Seq<CheckedModel>, name: Seq<char>) -> bool {
    exists|i: int| 0 <= i < list.len() && (#[trigger] list[i]).name == name
}

fn native_updates(updates: &Vec<UpdateInfo>, Ghost(models): Ghost<Seq<CheckedModel>>) -> (out: Vec<
    PackageData,
>)
    requires
        are_checked(updates@, models),
    ensures
        data_models(out@) == checked_list(models),
{
    let ghost f = |m: CheckedModel| checked_data(m);
    let mut out: Vec<PackageData> = Vec::new();
    for i in 0..updates.len()
        invariant
            are_checked(updates@, models),
            f == (|m: CheckedModel| checked_data(m)),
            data_models(out@) == models.take(i as int).map_values(f),
    {
        let d = update_to_ui(&updates[i]);
        proof {
            assert(is_checked(updates@[i as int], models[i as int]));
            assert(d@ == f(models[i as int]));
            assert(models.take(i + 1).map_values(f) =~= models.take(i as int).map_values(f).push(
                f(models[i as int]),
            ));
        }
        push_data(&mut out, d);
    }
    proof {
        assert(models.take(models.len() as int) =~= models);
    }
    out
}

fn installed_list(packages: &Vec<Package>, updates: &Vec<UpdateInfo>, names: &NameMap) -> (out: Vec<
    PackageData,
>)
    ensures
        data_models(out@) == packages@.map_values(
            |p: Package| package_data(p@, updates_name(updates@, p.name@), names@),
        ),
{
    let ghost f = |p: Package| package_data(p@, updates_name(updates@, p.name@), names@);
    let mut out: Vec<PackageData> = Vec::new();
    for i in 0..packages.len()
        invariant
            f == (|p: Package| package_data(p@, updates_name(updates@, p.name@), names@)),
            data_models(out@) == packages@.take(i as int).map_values(f),
    {
        let p = &packages[i];
        push_data(
            &mut out,
            package_to_ui(p, has_update_of(updates, p.name.as_str()), names),
        );
        proof {
            assert(packages@.take(i + 1).map_values(f) =~= packages@.take(i as int).map_values(
                f,
            ).push(f(*p)));
        }
    }
    proof {
        assert(packages@.take(packages@.len() as int) =~= packages@);
    }
    out
}

fn flatpak_list(packages: &Vec<Package>, updates: &Vec<UpdateInfo>) -> (out: Vec<PackageData>)
    ensures
        data_models(out@) == packages@.map_values(
            |p: Package| flatpak_data(p, updates_name(updates@, p.name@)),
        ),
{
    let ghost f = |p: Package| flatpak_data(p, updates_name(updates@, p.name@));
    let mut out: Vec<PackageData> = Vec::new();
    for i in 0..packages.len()
        invariant
            f == (|p: Package| flatpak_data(p, updates_name(updates@, p.name@))),
            data_models(out@) == packages@.take(i as int).map_values(f),
    {
        let p = &packages[i];
        push_data(
            &mut out,
            PackageData {
                name: own(p.name.as_str()),
                display_name: title_of(p),
                version: own(p.version.full.as_str()),
                repository: own(p.repository.as_str()),
                backend: 1,
                installed: p.status == PackageStatus::Installed || p.status
                    == PackageStatus::Orphan,
                has_update: has_update_of(updates, p.name.as_str()),
                ..PackageData::blank()
            },
        );
        proof {
            assert(packages@.take(i + 1).map_values(f) =~= packages@.take(i as int).map_values(
                f,
            ).push(f(*p)));
        }
    }
    proof {
        assert(packages@.take(packages@.len() as int) =~= packages@);
    }
    out
}

fn flatpak_update_list(updates: &Vec<UpdateInfo>, packages: &Vec<Package>) -> (out: Vec<
    PackageData,
>)
    ensures
        data_models(out@) == updates@.map_values(
            |u: UpdateInfo| flatpak_update_data(u, packages@),
        ),
{
    let ghost f = |u: UpdateInfo| flatpak_update_data(u, packages@);
    let mut out: Vec<PackageData> = Vec::new();
    for i in 0..updates.len()
        invariant
            f == (|u: UpdateInfo| flatpak_update_data(u, packages@)),
            data_models(out@) == updates@.take(i as int).map_values(f),
    {
        let u = &updates[i];
        let versions = version_change(
            u.current_version.full.as_str(),
            u.new_version.full.as_str(),
        );
        push_data(
            &mut out,
            PackageData {
                name: own(u.name.as_str()),
                display_name: title_for(packages, u.name.as_str()),
                description: own(versions.as_str()),
                version: versions,
                repository: own("flatpak"),
                backend: 1,
                installed: true,
                has_update: true,
                ..PackageData::blank()
            },
        );
        proof {
            assert(updates@.take(i + 1).map_values(f) =~= updates@.take(i as int).map_values(
                f,
            ).push(f(*u)));
        }
    }
    proof {
        assert(updates@.take(updates@.len() as int) =~= updates@);
    }
    out
}

/// Puts the lists together. The native updates are those of pacman, then those of the plasmoids;
/// the number of updates counts those of Flatpak too.
pub fn load_packages(answers: LoadAnswers, names: &NameMap) -> (out: LoadedPackages)
    ensures
        ({
            let installed = listed_packages(answers.installed);
            let flatpak = listed_packages(answers.flatpak);
            let flatpak_updates = listed_updates(answers.flatpak_updates);
            let checked = checked_updates(crate::text::opt_text(answers.checkupdates));
            &&& data_models(out.installed@) == installed.map_values(
                |p: Package| package_data(p@, checks_name(checked, p.name@), names@),
            )
            &&& data_models(out.updates@) == checked_list(checked) + data_models(
                answers.plasmoid_updates@,
            )
            &&& data_models(out.flatpak_updates@) == flatpak_updates.map_values(
                |u: UpdateInfo| flatpak_update_data(u, flatpak),
            )
            &&& data_models(out.flatpak@) == flatpak.map_values(
                |p: Package| flatpak_data(p, updates_name(flatpak_updates, p.name@)),
            )
            &&& out.flatpak_update_count == shown_count(flatpak_updates.len())
            &&& out.stats.pacman_count == shown_count(installed.len())
            &&& out.stats.flatpak_count == (match answers.flatpak_list {
                Some(bytes) => shown_count(newlines(bytes@)),
                None => shown_count(flatpak.len()),
            })
            &&& out.stats.orphan_count == shown_count(listed_packages(answers.orphans).len())
            &&& out.stats.update_count == shown_count(
                checked.len() + flatpak_updates.len() + answers.plasmoid_updates@.len(),
            )
            &&& out.stats.cache_size@ == bytes_text(
                printed_size(crate::text::opt_text(answers.cache_usage)) as nat,
                1,
            )
        }),
{
    let ghost plasmoids = answers.plasmoid_updates@;
    let ghost checked = checked_updates(crate::text::opt_text(answers.checkupdates));
    let installed = packages_of(answers.installed);
    let orphans = packages_of(answers.orphans);
    let flatpak = packages_of(answers.flatpak);
    let flatpak_updates = updates_of(answers.flatpak_updates);
    let updates = match &answers.checkupdates {
        Some(text) => parse_checkupdates(text.as_str()),
        None => Vec::new(),
    };
    let cache_size: u64 = size_in(&answers.cache_usage);
    let installed_ui = installed_list(&installed, &updates, names);
    proof {
        let f = |p: Package| package_data(p@, updates_name(updates@, p.name@), names@);
        let g = |p: Package| package_data(p@, checks_name(checked, p.name@), names@);
        assert forall|p: Package| #[trigger] f(p) == g(p) by {
            names_agree(updates@, checked, p.name@);
        }
        assert(installed@.map_values(f) =~= installed@.map_values(g));
    }
    let mut native = native_updates(&updates, Ghost(checked));
    let update_count: i32 = to_count(
        updates.len() as u128 + flatpak_updates.len() as u128 + answers.plasmoid_updates.len()
            as u128,
    );
    let mut extra = answers.plasmoid_updates;
    let ghost first = native@;
    native.append(&mut extra);
    proof {
        assert(data_models(native@) =~= data_models(first) + data_models(plasmoids));
    }
    let flatpak_ui = flatpak_list(&flatpak, &flatpak_updates);
    let flatpak_updates_ui = flatpak_update_list(&flatpak_updates, &flatpak);
    let flatpak_count: i32 = match &answers.flatpak_list {
        Some(bytes) => to_count(count_newlines(bytes.as_slice()) as u128),
        None => to_count(flatpak.len() as u128),
    };
    LoadedPackages {
        installed: installed_ui,
        updates: native,
        flatpak_updates: flatpak_updates_ui,
        flatpak: flatpak_ui,
        stats: StatsData {
            pacman_count: to_count(installed.len() as u128),
            flatpak_count,
            orphan_count: to_count(orphans.len() as u128),
            update_count,
            cache_size: format_size(cache_size),
        },
        flatpak_update_count: to_count(flatpak_updates.len() as u128),
    }
}

proof fn names_agree(list: Seq<UpdateInfo>, models: Seq<CheckedModel>, name: Seq<char>)
    requires
        are_checked(list, models),
    ensures
        updates_name(list, name) == checks_name(models, name),
{
    if updates_name(list, name) {
        let i = choose|i: int| 0 <= i < list.len() && (#[trigger] list[i]).name@ == name;
        assert(is_checked(list[i], models[i]));
        assert(models[i].name == name);
    }
    if checks_name(models, name) {
        let i = choose|i: int| 0 <= i < models.len() && (#[trigger] models[i]).name == name;
        assert(is_checked(list[i], models[i]));
    }
}

/// A package is marked as having an update exactly where the list of updates has its name.
pub proof fn marks_and_updates_agree(checked: Seq<CheckedModel>, name: Seq<char>)
    ensures
        checks_name(checked, name) == exists|i: int|
            0 <= i < checked.len() && (#[trigger] checked_list(checked)[i]).name == name,
{
    let shown = checked_list(checked);
    if checks_name(checked, name) {
        let i = choose|i: int| 0 <= i < checked.len() && (#[trigger] checked[i]).name == name;
        assert(shown[i].name == name);
    }
    if exists|i: int| 0 <= i < checked.len() && (#[trigger] shown[i]).name == name {
        let i = choose|i: int| 0 <= i < checked.len() && (#[trigger] shown[i]).name == name;
        assert(checked[i].name == name);
    }
}

/// The updates of lines are those of the first lines, then those of the others.
pub proof fn updates_follow_the_lines(a: Seq<Seq<char>>, b: Seq<Seq<char>>)
    ensures
        checked_lines(a + b) == checked_lines(a) + checked_lines(b),
    decreases b.len(),
{
    if b.len() == 0 {
        assert(a + b =~= a);
        assert(checked_lines(a) + checked_lines(b) =~= checked_lines(a));
    } else {
        updates_follow_the_lines(a, b.drop_last());
        assert((a + b).drop_last() =~= a + b.drop_last());
        assert((a + b).last() == b.last());
        assert(checked_lines(a + b) =~= checked_lines(a) + checked_lines(b));
    }
}

/// Lines with two words or more.
pub open spec fn with_two_words() -> spec_fn(Seq<char>) -> bool {
    |line: Seq<char>| words_of(line).len() >= 2
}

/// There are as many updates as lines with two words or more.
pub proof fn every_line_counts_once(list: Seq<Seq<char>>)
    ensures
        checked_lines(list).len() == list.filter(with_two_words()).len(),
    decreases list.len(),
{
    reveal(Seq::filter);
    if list.len() > 0 {
        every_line_counts_once(list.drop_last());
    }
}

/// A line gives the update of its first word; the new version is the fourth word, or the second where
/// there are fewer.
pub proof fn updates_are_read(list: Seq<UpdateInfo>, line: Seq<char>)
    requires
        are_checked(list, checked_lines(seq![line])),
    ensures
        words_of(line).len() < 2 ==> list.len() == 0,
        words_of(line).len() >= 2 ==> list.len() == 1 && list[0].name@ == words_of(line)[0]
            && list[0].backend == PackageBackend::Pacman,
        words_of(line).len() >= 4 ==> list[0].current_version.full@ == words_of(line)[1]
            && list[0].new_version.full@ == words_of(line)[3],
        2 <= words_of(line).len() < 4 ==> list[0].current_version.full@.len() == 0
            && list[0].new_version.full@ == words_of(line)[1],
{
    let one = seq![line];
    assert(one.drop_last() =~= Seq::<Seq<char>>::empty());
    assert(checked_lines(one.drop_last()) =~= Seq::<CheckedModel>::empty());
    if checked_in(line) is Some {
        assert(checked_lines(one) =~= seq![checked_in(line)->0]);
        assert(is_checked(list[0], checked_lines(one)[0]));
        let u = list[0];
        assert(u.current_version@.full == u.current_version.full@);
        assert(u.new_version@.full == u.new_version.full@);
        reveal_strlit("");
    } else {
        assert(checked_lines(one) =~= Seq::<CheckedModel>::empty());
    }
}

/// An update in the notation of the check is read back: the name, the installed and the new version.
pub proof fn written_updates_are_read(name: Seq<char>, current: Seq<char>, new: Seq<char>)
    requires
        is_one_word(name),
        is_one_word(current),
        is_one_word(new),
    ensures
        checked_in(name.push(' ') + (current.push(' ') + ("->"@.push(' ') + new))) == Some(
            CheckedModel { name, current, new },
        ),
{
    reveal_strlit("->");
    let arrow = "->"@;
    assert(arrow[0] == '-' && arrow[1] == '>' && arrow.len() == 2);
    assert(is_one_word(arrow));
    words_on_both_sides(name, ' ', current.push(' ') + (arrow.push(' ') + new));
    words_on_both_sides(current, ' ', arrow.push(' ') + new);
    words_on_both_sides(arrow, ' ', new);
    single_word(name);
    single_word(current);
    single_word(arrow);
    single_word(new);
    let w = words_of(name.push(' ') + (current.push(' ') + (arrow.push(' ') + new)));
    assert(w =~= seq![name, current, arrow, new]);
}

/// The name that is shown for an update of a Flatpak is that of the installed Flatpak with its
/// identifier, where only one has it.
pub proof fn updates_show_installed_titles(list: Seq<Package>, i: int)
    requires
        0 <= i < list.len(),
        forall|j: int| i < j < list.len() ==> (#[trigger] list[j]).name@ != list[i].name@,
    ensures
        title_in(list, list[i].name@) == (if list[i].description@.len() > 0 {
            list[i].description@
        } else {
            id_title(list[i].name@)
        }),
    decreases list.len(),
{
    if i < list.len() - 1 {
        assert(list[list.len() - 1].name@ != list[i].name@);
        let front = list.drop_last();
        assert forall|j: int| i < j < front.len() implies (#[trigger] front[j]).name@
            != front[i].name@ by {
            assert(front[j] == list[j]);
        }
        updates_show_installed_titles(front, i);
    }
}

/// The name in an identifier is what stands behind its last dot, with blanks for lines and hyphens.
pub proof fn identifiers_end_with_their_title(front: Seq<char>, last: Seq<char>)
    requires
        !last.contains('.'),
    ensures
        id_title(front.push('.') + last) == last.map_values(
            |c: char|
                if c == '_' || c == '-' {
                    ' '
                } else {
                    c
                },
        ),
{
    last_piece(front, '.', last);
    reveal_strlit("_");
    reveal_strlit("-");
    reveal_strlit(" ");
    assert("_"@ =~= seq!['_']);
    assert("-"@ =~= seq!['-']);
    assert(" "@ =~= seq![' ']);
    characters_are_replaced(last, '_', ' ');
    let once = replaced(last, "_"@, " "@);
    characters_are_replaced(once, '-', ' ');
    assert(id_title(front.push('.') + last) =~= last.map_values(
        |c: char|
            if c == '_' || c == '-' {
                ' '
            } else {
                c
            },
    ));
}

/// Every line feed counts once, and nothing else does.
pub proof fn line_feeds_are_counted(a: Seq<u8>, b: u8)
    ensures
        newlines(a.push(b)) == newlines(a) + (if b == 10 {
            1nat
        } else {
            0nat
        }),
        newlines(Seq::<u8>::empty()) == 0,
{
    a.lemma_filter_push(b, |x: u8| x == 10);
    reveal(Seq::filter);
}

/// A size at the front of output is read.
pub proof fn sizes_are_read(n: nat, rest: Seq<char>)
    requires
        n <= u64::MAX,
    ensures
        printed_size(Some(decimal(n).push('\t') + rest)) == n,
        printed_size(None) == 0,
{
    decimal_is_one_word(n);
    words_on_both_sides(decimal(n), '\t', rest);
    single_word(decimal(n));
    decimal_parses(n, u64::MAX as int);
    let w = words_of(decimal(n).push('\t') + rest);
    assert(w[0] == decimal(n));
}

/// An installed Flatpak is shown under the name that it gives itself, or else under the last part of
/// its identifier, and an update of one with both versions.
pub proof fn flatpaks_are_shown(
    p: Package,
    has_update: bool,
    u: UpdateInfo,
    flatpaks: Seq<Package>,
)
    ensures
        ({
            let d = flatpak_data(p, has_update);
            &&& d.name == p.name@
            &&& d.version == p.version.full@
            &&& d.repository == p.repository@
            &&& d.backend == 1
            &&& d.has_update == has_update
            &&& p.description@.len() > 0 ==> d.display_name == p.description@
            &&& p.description@.len() == 0 ==> d.display_name == id_title(p.name@)
        }),
        ({
            let d = flatpak_update_data(u, flatpaks);
            &&& d.name == u.name@
            &&& d.backend == 1
            &&& d.installed && d.has_update
            &&& begins(d.version, u.current_version.full@)
            &&& ends(d.version, u.new_version.full@)
        }),
{
    let (a, b) = (u.current_version.full@, u.new_version.full@);
    let v = version_step(a, b);
    assert(v.take(a.len() as int) =~= a);
    assert(v.skip(v.len() - b.len()) =~= b);
}

/// An update that a check has found is shown under the name of its package, with both versions.
pub proof fn checked_updates_are_shown(m: CheckedModel)
    ensures
        ({
            let d = checked_data(m);
            &&& d.name == m.name && d.display_name == m.name
            &&& d.installed && d.has_update
            &&& begins(d.version, m.current)
            &&& ends(d.version, m.new)
            &&& d.description == d.version
        }),
{
    let v = version_step(m.current, m.new);
    assert(v.take(m.current.len() as int) =~= m.current);
    assert(v.skip(v.len() - m.new.len()) =~= m.new);
}

} // verus!
