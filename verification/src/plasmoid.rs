//! Plasma widgets: what they say of themselves, and whether the store has newer ones.
use serde_json::Value;
use vstd::prelude::*;
use vstd::slice::slice_subrange;

use crate::json::{as_list, json_member, json_parsed, json_string, json_tree, json_trees, member,
    parse_json, text_member, JsonTree};
use crate::listing::{blank_data, data_models, push_data, version_change, version_step, DataModel,
    PackageData};
use crate::number::{decimal, decimal_parses, decimal_reads_back, parse_u32, parsed_u32};
use crate::text::{begins, filled, from_chars, has_word, holds, lines, lines_of, opt_str, opt_text,
    own, pieces, replace, replaced, run_len, run_len_is, same_text, starts_with_word, to_chars};
use crate::version::{digit, digits, is_digit};

verus! {

// ---------------------------------------------------------------------------
// Versions

/// The numbers in a version: the runs of digits that fit into 32 bits.
pub open spec fn numbers_in(s: Seq<char>) -> Seq<u32>
    decreases s.len(),
{
    let k = run_len(s, digits());
    let first = match parsed_u32(s.take(k as int)) {
        Some(n) => seq![n],
        None => seq![],
    };
    if k < s.len() {
        first + numbers_in(s.skip(k as int + 1))
    } else {
        first
    }
}

/// The `i`-th number, or zero behind the last one.
pub open spec fn number_at(list: Seq<u32>, i: int) -> u32 {
    if 0 <= i < list.len() {
        list[i]
    } else {
        0
    }
}

/// Whether the first numbers that differ, from the `i`-th on, are greater on the left.
pub open spec fn newer_from(a: Seq<u32>, b: Seq<u32>, i: int) -> bool
    decreases a.len() + b.len() - i,
{
    if i < 0 || (i >= a.len() && i >= b.len()) {
        false
    } else if number_at(a, i) == number_at(b, i) {
        newer_from(a, b, i + 1)
    } else {
        number_at(a, i) > number_at(b, i)
    }
}

fn read_numbers(text: &str) -> (out: Vec<u32>)
    ensures
        out@ == numbers_in(text@),
{
    let chars = to_chars(text);
    let s = chars.as_slice();
    let n: usize = s.len();
    let mut out: Vec<u32> = Vec::new();
    let mut start: usize = 0;
    proof {
        assert(s@.skip(0) =~= s@);
        assert(out@ + numbers_in(s@) =~= numbers_in(s@));
    }
    loop
        invariant
            start <= n,
            n == s@.len(),
            out@ + numbers_in(s@.skip(start as int)) == numbers_in(s@),
            s@ == text@,
        decreases n - start,
    {
        let ghost rest = s@.skip(start as int);
        let ghost before = out@;
        let mut k: usize = start;
        while k < n && digit(s[k])
            invariant
                start <= k <= n,
                n == s@.len(),
                forall|j: int| start <= j < k ==> is_digit(#[trigger] s@[j]),
            ensures
                k < n ==> !is_digit(s@[k as int]),
            decreases n - k,
        {
            k = k + 1;
        }
        let piece = slice_subrange(s, start, k);
        proof {
            run_len_is(rest, digits(), (k - start) as nat);
            assert(piece@ =~= rest.take(k - start));
        }
        if let Some(v) = parse_u32(piece) {
            out.push(v);
        }
        if k == n {
            proof {
                assert(out@ =~= before + numbers_in(rest));
            }
            return out;
        }
        proof {
            assert(rest.skip(k - start + 1) =~= s@.skip(k + 1));
            assert(out@ + numbers_in(s@.skip(k + 1)) =~= before + numbers_in(rest));
        }
        start = k + 1;
    }
}

/// Whether the version in the store is newer than the installed one.
pub fn version_is_newer(store_version: &str, current_version: &str) -> (r: bool)
    ensures
        r == newer_from(numbers_in(store_version@), numbers_in(current_version@), 0),
{
    let a = read_numbers(store_version);
    let b = read_numbers(current_version);
    let mut i: usize = 0;
    while i < a.len() || i < b.len()
        invariant
            i <= a@.len() || i <= b@.len(),
            newer_from(a@, b@, 0) == newer_from(a@, b@, i as int),
            a@ == numbers_in(store_version@),
            b@ == numbers_in(current_version@),
        decreases a@.len() + b@.len() - i,
    {
        let x: u32 = if i < a.len() {
            a[i]
        } else {
            0
        };
        let y: u32 = if i < b.len() {
            b[i]
        } else {
            0
        };
        if x != y {
            return x > y;
        }
        i = i + 1;
    }
    false
}

/// Of two versions at most one is newer than the other, and none is newer than itself.
pub proof fn newer_is_asymmetric(a: Seq<u32>, b: Seq<u32>, i: int)
    ensures
        !(newer_from(a, b, i) && newer_from(b, a, i)),
        !newer_from(a, a, i),
    decreases a.len() + b.len() + a.len() - i,
{
    if 0 <= i && (i < a.len() || i < b.len()) {
        newer_is_asymmetric(a, b, i + 1);
    }
}

// ---------------------------------------------------------------------------
// The store

/// A widget in the store.
#[derive(Debug, Clone)]
pub struct StoreVersion {
    pub name: String,
    pub version: String,
}

/// A widget in the store.
pub struct StoreModel {
    pub name: Seq<char>,
    pub version: Seq<char>,
}

impl View for StoreVersion {
    type V = StoreModel;

    open spec fn view(&self) -> StoreModel {
        StoreModel { name: self.name@, version: self.version@ }
    }
}

/// The contents of a list of widgets in the store.
pub open spec fn store_models(list: Seq<StoreVersion>) -> Seq<StoreModel> {
    list.map_values(|v: StoreVersion| v@)
}

/// A text that may be missing.
pub open spec fn text_or(text: Option<Seq<char>>, default: Seq<char>) -> Seq<char> {
    match text {
        Some(s) => s,
        None => default,
    }
}

/// An item of an answer of the store: the texts of its name and its version, where it has them.
#[derive(Debug, Clone)]
pub struct StoreItem {
    pub name: Option<String>,
    pub version: Option<String>,
}

/// An item of an answer of the store.
pub struct ItemModel {
    pub name: Option<Seq<char>>,
    pub version: Option<Seq<char>>,
}

impl View for StoreItem {
    type V = ItemModel;

    open spec fn view(&self) -> ItemModel {
        ItemModel { name: opt_text(self.name), version: opt_text(self.version) }
    }
}

/// The contents of a list of items.
pub open spec fn item_models(list: Seq<StoreItem>) -> Seq<ItemModel> {
    list.map_values(|i: StoreItem| i@)
}

/// The item in an answer of the store.
pub open spec fn item_of(tree: JsonTree) -> ItemModel {
    ItemModel {
        name: json_string(json_member(tree, "name"@)),
        version: json_string(json_member(tree, "version"@)),
    }
}

/// The widgets among the items of an answer of the store: those with a name and a version.
pub open spec fn store_items(list: Seq<ItemModel>) -> Seq<StoreModel>
    decreases list.len(),
{
    if list.len() == 0 {
        seq![]
    } else {
        let front = store_items(list.drop_last());
        let name = text_or(list.last().name, ""@);
        let version = text_or(list.last().version, ""@);
        if name.len() > 0 && version.len() > 0 {
            front.push(StoreModel { name, version })
        } else {
            front
        }
    }
}

/// The member of a member.
pub open spec fn inner_member(tree: JsonTree, outer: Seq<char>, inner: Seq<char>) -> Option<
    JsonTree,
> {
    match json_member(tree, outer) {
        Some(t) => json_member(t, inner),
        None => None,
    }
}

/// The widgets that an answer of the store lists.
pub open spec fn store_of(answer: Option<JsonTree>) -> Seq<StoreModel> {
    match answer {
        Some(tree) => match inner_member(tree, "ocs"@, "data"@) {
            Some(JsonTree::List(items)) => store_items(items.map_values(|t: JsonTree| item_of(t))),
            _ => seq![],
        },
        None => seq![],
    }
}

fn or_default(text: &Option<String>, default: &str) -> (out: String)
    ensures
        out@ == text_or(opt_text(*text), default@),
{
    match text {
        Some(s) => own(s.as_str()),
        None => own(default),
    }
}

fn owned(text: Option<&str>) -> (out: Option<String>)
    ensures
        opt_text(out) == opt_str(text),
{
    match text {
        Some(s) => Some(own(s)),
        None => None,
    }
}

/// The widgets among the items of an answer of the store.
pub fn store_versions(items: &[StoreItem]) -> (out: Vec<StoreVersion>)
    ensures
        store_models(out@) == store_items(item_models(items@)),
{
    let mut out: Vec<StoreVersion> = Vec::new();
    let ghost all = item_models(items@);
    proof {
        assert(store_models(out@) =~= store_items(all.take(0)));
    }
    for i in 0..items.len()
        invariant
            all == item_models(items@),
            store_models(out@) == store_items(all.take(i as int)),
    {
        let ghost had = out@;
        proof {
            assert(all.take(i + 1).last() == items@[i as int]@);
            assert(all.take(i + 1).drop_last() =~= all.take(i as int));
        }
        let name = or_default(&items[i].name, "");
        let version = or_default(&items[i].version, "");
        if filled(name.as_str()) && filled(version.as_str()) {
            let v = StoreVersion { name, version };
            out.push(v);
            proof {
                assert(store_models(out@) =~= store_models(had).push(v@));
            }
        }
    }
    proof {
        assert(all.take(all.len() as int) =~= all);
    }
    out
}

fn read_items(list: &Vec<Value>) -> (out: Vec<StoreItem>)
    ensures
        item_models(out@) == json_trees(list@).map_values(|t: JsonTree| item_of(t)),
{
    let mut out: Vec<StoreItem> = Vec::new();
    for i in 0..list.len()
        invariant
            out@.len() == i,
            forall|j: int| 0 <= j < i ==> (#[trigger] out@[j])@ == item_of(json_tree(list@[j])),
    {
        let name = text_member(&list[i], "name");
        let version = text_member(&list[i], "version");
        out.push(StoreItem { name: owned(name), version: owned(version) });
    }
    proof {
        assert(item_models(out@) =~= json_trees(list@).map_values(|t: JsonTree| item_of(t)));
    }
    out
}

/// Reads the widgets that an answer of the store lists.
pub fn fetch_store_versions(response: &str) -> (out: Vec<StoreVersion>)
    ensures
        store_models(out@) == store_of(json_parsed(response@)),
{
    if let Some(json) = parse_json(response) {
        if let Some(ocs) = member(&json, "ocs") {
            if let Some(data) = member(ocs, "data") {
                if let Some(list) = as_list(data) {
                    let items = read_items(list);
                    proof {
                        assert(json_tree(*data) matches JsonTree::List(members) && members
                            =~= json_trees(list@));
                    }
                    return store_versions(items.as_slice());
                }
            }
        }
    }
    let out: Vec<StoreVersion> = Vec::new();
    proof {
        assert(store_models(out@) =~= seq![]);
    }
    out
}

// ---------------------------------------------------------------------------
// What a widget says of itself

/// What a widget says of itself.
#[derive(Debug, Clone)]
pub struct PlasmoidInfo {
    pub id: String,
    pub name: String,
    pub version: String,
    pub description: String,
}

/// What a widget says of itself.
pub struct PlasmoidModel {
    pub id: Seq<char>,
    pub name: Seq<char>,
    pub version: Seq<char>,
    pub description: Seq<char>,
}

impl View for PlasmoidInfo {
    type V = PlasmoidModel;

    open spec fn view(&self) -> PlasmoidModel {
        PlasmoidModel {
            id: self.id@,
            name: self.name@,
            version: self.version@,
            description: self.description@,
        }
    }
}

/// A widget of which nothing is known.
pub open spec fn unknown_plasmoid() -> PlasmoidModel {
    PlasmoidModel { id: ""@, name: "Unknown"@, version: "unknown"@, description: ""@ }
}

fn unknown() -> (p: PlasmoidInfo)
    ensures
        p@ == unknown_plasmoid(),
{
    PlasmoidInfo {
        id: own(""),
        name: own("Unknown"),
        version: own("unknown"),
        description: own(""),
    }
}

/// The texts in the metadata of a widget, where it has them.
#[derive(Debug, Clone)]
pub struct PluginFields {
    pub id: Option<String>,
    pub name: Option<String>,
    pub version: Option<String>,
    pub description: Option<String>,
}

/// The texts in the metadata of a widget.
pub struct FieldsModel {
    pub id: Option<Seq<char>>,
    pub name: Option<Seq<char>>,
    pub version: Option<Seq<char>>,
    pub description: Option<Seq<char>>,
}

impl View for PluginFields {
    type V = FieldsModel;

    open spec fn view(&self) -> FieldsModel {
        FieldsModel {
            id: opt_text(self.id),
            name: opt_text(self.name),
            version: opt_text(self.version),
            description: opt_text(self.description),
        }
    }
}

/// The texts in the metadata of a widget in JSON.
pub open spec fn fields_of(metadata: Option<JsonTree>) -> Option<FieldsModel> {
    match metadata {
        Some(tree) => match json_member(tree, "KPlugin"@) {
            Some(k) => Some(
                FieldsModel {
                    id: json_string(json_member(k, "Id"@)),
                    name: json_string(json_member(k, "Name"@)),
                    version: json_string(json_member(k, "Version"@)),
                    description: json_string(json_member(k, "Description"@)),
                },
            ),
            None => None,
        },
        None => None,
    }
}

/// What the texts in its metadata say of a widget.
pub open spec fn plasmoid_of(fields: Option<FieldsModel>) -> PlasmoidModel {
    match fields {
        Some(f) => PlasmoidModel {
            id: text_or(f.id, ""@),
            name: text_or(f.name, "Unknown"@),
            version: text_or(f.version, "unknown"@),
            description: text_or(f.description, ""@),
        },
        None => unknown_plasmoid(),
    }
}

/// What the texts in its metadata say of a widget.
pub fn plasmoid_from_fields(fields: Option<PluginFields>) -> (p: PlasmoidInfo)
    ensures
        p@ == plasmoid_of(
            match fields {
                Some(f) => Some(f@),
                None => None,
            },
        ),
{
    match fields {
        Some(f) => PlasmoidInfo {
            id: or_default(&f.id, ""),
            name: or_default(&f.name, "Unknown"),
            version: or_default(&f.version, "unknown"),
            description: or_default(&f.description, ""),
        },
        None => unknown(),
    }
}

/// Reads the metadata of a widget in JSON, where they could be read.
pub fn parse_plasmoid_json(content: Option<&str>) -> (p: PlasmoidInfo)
    ensures
        p@ == (match content {
            Some(text) => plasmoid_of(fields_of(json_parsed(text@))),
            None => unknown_plasmoid(),
        }),
{
    if let Some(text) = content {
        if let Some(json) = parse_json(text) {
            if let Some(k) = member(&json, "KPlugin") {
                return plasmoid_from_fields(
                    Some(
                        PluginFields {
                            id: owned(text_member(k, "Id")),
                            name: owned(text_member(k, "Name")),
                            version: owned(text_member(k, "Version")),
                            description: owned(text_member(k, "Description")),
                        },
                    ),
                );
            }
        }
    }
    plasmoid_from_fields(None)
}

/// After a line of the metadata of a widget in a desktop entry.
pub open spec fn plasmoid_after(m: PlasmoidModel, line: Seq<char>) -> PlasmoidModel {
    if begins(line, "Name="@) && !(holds(line, "["@)) {
        PlasmoidModel { name: line.skip("Name="@.len() as int), ..m }
    } else if begins(line, "X-KDE-PluginInfo-Version="@) {
        PlasmoidModel { version: line.skip("X-KDE-PluginInfo-Version="@.len() as int), ..m }
    } else if begins(line, "X-KDE-PluginInfo-Name="@) {
        PlasmoidModel { id: line.skip("X-KDE-PluginInfo-Name="@.len() as int), ..m }
    } else if begins(line, "Comment="@) && !(holds(line, "["@)) {
        PlasmoidModel { description: line.skip("Comment="@.len() as int), ..m }
    } else {
        m
    }
}

/// What the metadata of a widget in a desktop entry say.
pub open spec fn plasmoid_in(list: Seq<Seq<char>>) -> PlasmoidModel
    decreases list.len(),
{
    if list.len() == 0 {
        unknown_plasmoid()
    } else {
        plasmoid_after(plasmoid_in(list.drop_last()), list.last())
    }
}

fn after_key(line: &[char], key: &str) -> (out: String)
    requires
        begins(line@, key@),
    ensures
        out@ == line@.skip(key@.len() as int),
{
    let k = to_chars(key);
    let rest = slice_subrange(line, k.len(), line.len());
    proof {
        assert(rest@ =~= line@.skip(key@.len() as int));
    }
    from_chars(rest)
}

/// Reads the metadata of a widget in a desktop entry, where they could be read.
pub fn parse_plasmoid_desktop(content: Option<&str>) -> (p: PlasmoidInfo)
    ensures
        p@ == (match content {
            Some(text) => plasmoid_in(lines_of(text@)),
            None => unknown_plasmoid(),
        }),
{
    let text = match content {
        Some(text) => text,
        None => {
            return unknown();
        },
    };
    let chars = to_chars(text);
    let list = lines(chars.as_slice());
    let ghost all = pieces(list@);
    let mut p = unknown();
    for i in 0..list.len()
        invariant
            all == pieces(list@),
            p@ == plasmoid_in(all.take(i as int)),
    {
        let line = list[i].as_slice();
        proof {
            assert(all.take(i + 1).last() == line@);
            assert(all.take(i + 1).drop_last() =~= all.take(i as int));
        }
        if starts_with_word(line, "Name=") && !has_word(line, "[") {
            p.name = after_key(line, "Name=");
        } else if starts_with_word(line, "X-KDE-PluginInfo-Version=") {
            p.version = after_key(line, "X-KDE-PluginInfo-Version=");
        } else if starts_with_word(line, "X-KDE-PluginInfo-Name=") {
            p.id = after_key(line, "X-KDE-PluginInfo-Name=");
        } else if starts_with_word(line, "Comment=") && !has_word(line, "[") {
            p.description = after_key(line, "Comment=");
        }
    }
    proof {
        assert(all.take(all.len() as int) =~= all);
    }
    p
}

// ---------------------------------------------------------------------------
// Installed widgets

/// The metadata of a widget as they were found in its directory.
#[derive(Debug)]
pub enum PlasmoidMetadata {
    Json(Option<String>),
    Desktop(Option<String>),
    Missing,
}

/// An installed widget: the name of its directory, whether that is the user's, and its metadata.
#[derive(Debug)]
pub struct PlasmoidDir {
    pub name: String,
    pub is_user: bool,
    pub metadata: PlasmoidMetadata,
}

/// What a widget says of itself; without metadata, only the name of its directory.
pub open spec fn info_of(dir: PlasmoidDir) -> PlasmoidModel {
    match dir.metadata {
        PlasmoidMetadata::Json(content) => match content {
            Some(text) => plasmoid_of(fields_of(json_parsed(text@))),
            None => unknown_plasmoid(),
        },
        PlasmoidMetadata::Desktop(content) => match content {
            Some(text) => plasmoid_in(lines_of(text@)),
            None => unknown_plasmoid(),
        },
        PlasmoidMetadata::Missing => PlasmoidModel {
            id: dir.name@,
            name: dir.name@,
            version: "unknown"@,
            description: ""@,
        },
    }
}

/// The version of the first widget of a name in the store.
pub open spec fn store_version(store: Seq<StoreModel>, name: Seq<char>) -> Option<Seq<char>>
    decreases store.len(),
{
    if store.len() == 0 {
        None
    } else if store[0].name == name {
        Some(store[0].version)
    } else {
        store_version(store.skip(1), name)
    }
}

/// The newer version of a widget in the store. Only the user's widgets are looked up.
pub open spec fn newer_version(
    is_user: bool,
    p: PlasmoidModel,
    store: Seq<StoreModel>,
) -> Option<Seq<char>> {
    if is_user && p.name.len() > 0 {
        match store_version(store, p.name) {
            Some(v) => if newer_from(numbers_in(v), numbers_in(p.version), 0) {
                Some(v)
            } else {
                None
            },
            None => None,
        }
    } else {
        None
    }
}

/// A widget as the list shows it.
pub open spec fn plasmoid_data(is_user: bool, p: PlasmoidModel, has_update: bool) -> DataModel {
    DataModel {
        name: p.id,
        display_name: p.name,
        version: p.version,
        description: p.description,
        repository: if is_user {
            "kde-store"@
        } else {
            "system"@
        },
        backend: 3,
        installed: true,
        has_update,
        url: "https://store.kde.org/search?search="@ + replaced(p.name, " "@, "+"@),
        ..blank_data()
    }
}

/// The installed widgets, given what they say of themselves, as the list shows them.
pub open spec fn plasmoid_list(dirs: Seq<(bool, PlasmoidModel)>, store: Seq<StoreModel>) -> Seq<
    DataModel,
> {
    dirs.map_values(
        |d: (bool, PlasmoidModel)|
            plasmoid_data(d.0, d.1, newer_version(d.0, d.1, store) is Some),
    )
}

/// The updates of widgets as the list shows them.
pub open spec fn plasmoid_updates(dirs: Seq<(bool, PlasmoidModel)>, store: Seq<StoreModel>) -> Seq<
    DataModel,
>
    decreases dirs.len(),
{
    if dirs.len() == 0 {
        seq![]
    } else {
        let front = plasmoid_updates(dirs.drop_last(), store);
        let (is_user, p) = dirs.last();
        match newer_version(is_user, p, store) {
            Some(v) => front.push(
                DataModel {
                    version: version_step(p.version, v),
                    ..plasmoid_data(is_user, p, true)
                },
            ),
            None => front,
        }
    }
}

fn read_info(dir: &PlasmoidDir) -> (p: PlasmoidInfo)
    ensures
        p@ == info_of(*dir),
{
    match &dir.metadata {
        PlasmoidMetadata::Json(content) => match content {
            Some(text) => parse_plasmoid_json(Some(text.as_str())),
            None => parse_plasmoid_json(None),
        },
        PlasmoidMetadata::Desktop(content) => match content {
            Some(text) => parse_plasmoid_desktop(Some(text.as_str())),
            None => parse_plasmoid_desktop(None),
        },
        PlasmoidMetadata::Missing => PlasmoidInfo {
            id: own(dir.name.as_str()),
            name: own(dir.name.as_str()),
            version: own("unknown"),
            description: own(""),
        },
    }
}

fn find_newer(is_user: bool, p: &PlasmoidInfo, store: &[StoreVersion]) -> (r: Option<String>)
    ensures
        opt_text(r) == newer_version(is_user, p@, store_models(store@)),
{
    if !is_user || !filled(p.name.as_str()) {
        return None;
    }
    let ghost all = store_models(store@);
    proof {
        assert(all.skip(0) =~= all);
    }
    for i in 0..store.len()
        invariant
            all == store_models(store@),
            is_user && p@.name.len() > 0,
            store_version(all, p@.name) == store_version(all.skip(i as int), p@.name),
    {
        proof {
            assert(all.skip(i as int)[0] == store@[i as int]@);
            assert(all.skip(i as int).skip(1) =~= all.skip(i + 1));
        }
        if same_text(store[i].name.as_str(), p.name.as_str()) {
            return if version_is_newer(store[i].version.as_str(), p.version.as_str()) {
                Some(own(store[i].version.as_str()))
            } else {
                None
            };
        }
    }
    None
}

/// The installed widgets and their updates as the lists show them, given what the widgets say of
/// themselves.
pub fn plasmoid_rows(infos: &[(bool, PlasmoidInfo)], store: &[StoreVersion]) -> (r: (
    Vec<PackageData>,
    Vec<PackageData>,
))
    ensures
        data_models(r.0@) == plasmoid_list(info_models(infos@), store_models(store@)),
        data_models(r.1@) == plasmoid_updates(info_models(infos@), store_models(store@)),
{
    let ghost dirs = info_models(infos@);
    let ghost known = store_models(store@);
    let ghost f = |d: (bool, PlasmoidModel)|
        plasmoid_data(d.0, d.1, newer_version(d.0, d.1, known) is Some);
    let mut rows: Vec<PackageData> = Vec::new();
    let mut updates: Vec<PackageData> = Vec::new();
    proof {
        assert(data_models(updates@) =~= plasmoid_updates(dirs.take(0), known));
    }
    for i in 0..infos.len()
        invariant
            dirs == info_models(infos@),
            known == store_models(store@),
            f == (|d: (bool, PlasmoidModel)|
                plasmoid_data(d.0, d.1, newer_version(d.0, d.1, known) is Some)),
            data_models(rows@) == dirs.take(i as int).map_values(f),
            data_models(updates@) == plasmoid_updates(dirs.take(i as int), known),
    {
        let is_user = infos[i].0;
        let p = &infos[i].1;
        proof {
            assert(dirs.take(i + 1).last() == (is_user, p@));
            assert(dirs.take(i + 1).drop_last() =~= dirs.take(i as int));
            assert(dirs.take(i + 1).map_values(f) =~= dirs.take(i as int).map_values(f).push(
                f((is_user, p@)),
            ));
        }
        let newer = find_newer(is_user, p, store);
        let name_chars = to_chars(p.name.as_str());
        let query = replace(name_chars.as_slice(), " ", "+");
        let mut url = own("https://store.kde.org/search?search=");
        url.append(from_chars(query.as_slice()).as_str());
        let row = PackageData {
            name: own(p.id.as_str()),
            display_name: own(p.name.as_str()),
            version: own(p.version.as_str()),
            description: own(p.description.as_str()),
            repository: own(
                if is_user {
                    "kde-store"
                } else {
                    "system"
                },
            ),
            backend: 3,
            installed: true,
            has_update: newer.is_some(),
            url,
            ..PackageData::blank()
        };
        if let Some(v) = newer {
            let mut update = row.copied();
            update.version = version_change(p.version.as_str(), v.as_str());
            push_data(&mut updates, update);
        }
        push_data(&mut rows, row);
    }
    proof {
        assert(dirs.take(dirs.len() as int) =~= dirs);
    }
    (rows, updates)
}

/// The contents of a list of widgets.
pub open spec fn info_models(list: Seq<(bool, PlasmoidInfo)>) -> Seq<(bool, PlasmoidModel)> {
    list.map_values(|d: (bool, PlasmoidInfo)| (d.0, d.1@))
}

/// What the widgets in directories say of themselves.
pub open spec fn infos_of(dirs: Seq<PlasmoidDir>) -> Seq<(bool, PlasmoidModel)> {
    dirs.map_values(|d: PlasmoidDir| (d.is_user, info_of(d)))
}

/// The installed widgets and their updates as the lists show them.
pub fn list_plasmoids_with_updates(dirs: &[PlasmoidDir], store: &[StoreVersion]) -> (r: (
    Vec<PackageData>,
    Vec<PackageData>,
))
    ensures
        data_models(r.0@) == plasmoid_list(infos_of(dirs@), store_models(store@)),
        data_models(r.1@) == plasmoid_updates(infos_of(dirs@), store_models(store@)),
{
    let mut infos: Vec<(bool, PlasmoidInfo)> = Vec::new();
    for i in 0..dirs.len()
        invariant
            infos@.len() == i,
            forall|j: int|
                0 <= j < i ==> (#[trigger] infos@[j]).0 == dirs@[j].is_user && infos@[j].1@
                    == info_of(dirs@[j]),
    {
        infos.push((dirs[i].is_user, read_info(&dirs[i])));
    }
    proof {
        assert(info_models(infos@) =~= infos_of(dirs@));
    }
    plasmoid_rows(infos.as_slice(), store)
}

// ---------------------------------------------------------------------------
// Laws

/// The numbers of a version are read one after the other.
pub proof fn numbers_follow(n: nat, c: char, rest: Seq<char>)
    requires
        n <= u32::MAX,
        !is_digit(c),
    ensures
        numbers_in(decimal(n).push(c) + rest) == seq![n as u32] + numbers_in(rest),
        numbers_in(decimal(n)) == seq![n as u32],
{
    let d = decimal(n);
    let s = d.push(c) + rest;
    decimal_reads_back(n);
    decimal_parses(n, u32::MAX as int);
    assert forall|i: int| 0 <= i < d.len() implies digits()(#[trigger] s[i]) by {
        assert(s[i] == d[i]);
        assert('0' <= d[i] <= '9');
    }
    assert(s[d.len() as int] == c);
    run_len_is(s, digits(), d.len());
    assert(s.take(d.len() as int) =~= d);
    assert(s.skip(d.len() as int + 1) =~= rest);
    assert forall|i: int| 0 <= i < d.len() implies digits()(#[trigger] d[i]) by {
        assert('0' <= d[i] <= '9');
    }
    run_len_is(d, digits(), d.len());
    assert(d.take(d.len() as int) =~= d);
}

/// The first numbers in which two versions differ decide, whatever follows.
pub proof fn first_difference_is_newer(
    front: Seq<u32>,
    x: u32,
    y: u32,
    a: Seq<u32>,
    b: Seq<u32>,
    i: int,
)
    requires
        x != y,
        0 <= i <= front.len(),
    ensures
        newer_from(front.push(x) + a, front.push(y) + b, i) == (x > y),
    decreases front.len() - i,
{
    let (p, q) = (front.push(x) + a, front.push(y) + b);
    if i < front.len() {
        assert(p[i] == front[i] && q[i] == front[i]);
        first_difference_is_newer(front, x, y, a, b, i + 1);
    } else {
        assert(p[i] == x && q[i] == y);
    }
}

/// No version is newer than itself, and one more number makes a version newer unless it is zero.
pub proof fn longer_versions_are_newer(list: Seq<u32>, n: u32, i: int)
    requires
        0 <= i <= list.len(),
    ensures
        !newer_from(list, list, i),
        newer_from(list.push(n), list, i) == (n > 0),
        !newer_from(list, list.push(n), i),
    decreases list.len() - i,
{
    let more = list.push(n);
    if i < list.len() {
        assert(more[i] == list[i]);
        longer_versions_are_newer(list, n, i + 1);
    } else {
        assert(number_at(more, i) == n && number_at(list, i) == 0);
        assert(!newer_from(more, list, i + 1));
        assert(!newer_from(list, more, i + 1));
    }
}

/// A widget of the store counts where it has a name and a version, and the order is kept.
pub proof fn store_items_follow(list: Seq<ItemModel>, item: ItemModel)
    ensures
        item.name is Some && item.version is Some && item.name->0.len() > 0 && item.version->0.len()
            > 0 ==> store_items(list.push(item)) == store_items(list).push(
            StoreModel { name: item.name->0, version: item.version->0 },
        ),
        item.name is None || item.version is None || item.name->0.len() == 0
            || item.version->0.len() == 0 ==> store_items(list.push(item)) == store_items(list),
{
    reveal_strlit("");
    assert(list.push(item).drop_last() =~= list);
}

/// The version of a widget in the store is that of the first one of its name.
pub proof fn first_in_store_counts(store: Seq<StoreModel>, i: int, name: Seq<char>)
    ensures
        0 <= i < store.len() && (forall|j: int|
            0 <= j < i ==> (#[trigger] store[j]).name != store[i].name) ==> store_version(
            store,
            store[i].name,
        ) == Some(store[i].version),
        (forall|j: int| 0 <= j < store.len() ==> (#[trigger] store[j]).name != name)
            ==> store_version(store, name) is None,
    decreases store.len(),
{
    if store.len() > 0 {
        let rest = store.skip(1);
        first_in_store_counts(rest, i - 1, name);
        if 0 < i < store.len() && (forall|j: int|
            0 <= j < i ==> (#[trigger] store[j]).name != store[i].name) {
            assert(store[0].name != store[i].name);
            assert(rest[i - 1] == store[i]);
            assert forall|j: int| 0 <= j < i - 1 implies (#[trigger] rest[j]).name
                != rest[i - 1].name by {
                assert(rest[j] == store[j + 1]);
            }
        }
        if forall|j: int| 0 <= j < store.len() ==> (#[trigger] store[j]).name != name {
            assert(store[0].name != name);
            assert forall|j: int| 0 <= j < rest.len() implies (#[trigger] rest[j]).name != name by {
                assert(rest[j] == store[j + 1]);
            }
        }
    }
}

/// A widget has an update exactly where it is the user's and the store has a newer version of its name;
/// the list of updates and the marks in the list of widgets agree.
pub proof fn widget_updates_follow(
    dirs: Seq<(bool, PlasmoidModel)>,
    is_user: bool,
    p: PlasmoidModel,
    store: Seq<StoreModel>,
)
    ensures
        ({
            let out = plasmoid_updates(dirs.push((is_user, p)), store);
            let rows = plasmoid_list(dirs.push((is_user, p)), store);
            let found = store_version(store, p.name);
            let newer = is_user && p.name.len() > 0 && found is Some && newer_from(
                numbers_in(found->0),
                numbers_in(p.version),
                0,
            );
            &&& newer ==> out.len() == plasmoid_updates(dirs, store).len() + 1
                && plasmoid_updates(dirs, store).is_prefix_of(out) && out.last().name == p.id
                && out.last().display_name == p.name && out.last().version == version_step(
                p.version,
                found->0,
            ) && out.last().has_update && rows.last().has_update
            &&& !newer ==> out == plasmoid_updates(dirs, store) && !rows.last().has_update
            &&& rows.len() == dirs.len() + 1
            &&& rows.last().name == p.id && rows.last().display_name == p.name
                && rows.last().version == p.version && rows.last().installed
                && rows.last().backend == 3
        }),
{
    assert(dirs.push((is_user, p)).drop_last() =~= dirs);
}

/// The lines of a desktop entry give the name, the version, the identifier and the description of a
/// widget; the last line of a kind counts, and translations do not.
pub proof fn widget_lines_are_read(list: Seq<Seq<char>>, value: Seq<char>)
    requires
        !holds("Name="@ + value, "["@),
        !holds("Comment="@ + value, "["@),
    ensures
        plasmoid_in(list.push("Name="@ + value)) == (PlasmoidModel {
            name: value,
            ..plasmoid_in(list)
        }),
        plasmoid_in(list.push("X-KDE-PluginInfo-Version="@ + value)) == (PlasmoidModel {
            version: value,
            ..plasmoid_in(list)
        }),
        plasmoid_in(list.push("X-KDE-PluginInfo-Name="@ + value)) == (PlasmoidModel {
            id: value,
            ..plasmoid_in(list)
        }),
        plasmoid_in(list.push("Comment="@ + value)) == (PlasmoidModel {
            description: value,
            ..plasmoid_in(list)
        }),
{
    reveal_strlit("Name=");
    reveal_strlit("X-KDE-PluginInfo-Version=");
    reveal_strlit("X-KDE-PluginInfo-Name=");
    reveal_strlit("Comment=");
    let (a, b, c, d) = (
        "Name="@,
        "X-KDE-PluginInfo-Version="@,
        "X-KDE-PluginInfo-Name="@,
        "Comment="@,
    );
    assert(list.push(a + value).drop_last() =~= list);
    assert(list.push(b + value).drop_last() =~= list);
    assert(list.push(c + value).drop_last() =~= list);
    assert(list.push(d + value).drop_last() =~= list);
    assert(a[0] == 'N' && b[0] == 'X' && c[0] == 'X' && d[0] == 'C');
    assert(b[17] == 'V' && c[17] == 'N');
    assert((a + value).take(a.len() as int) =~= a && (a + value).skip(a.len() as int) =~= value);
    assert((b + value).take(b.len() as int) =~= b && (b + value).skip(b.len() as int) =~= value);
    assert((c + value).take(c.len() as int) =~= c && (c + value).skip(c.len() as int) =~= value);
    assert((d + value).take(d.len() as int) =~= d && (d + value).skip(d.len() as int) =~= value);
    assert(!begins(b + value, a)) by {
        assert((b + value).take(5)[0] == 'X');
    }
    assert(!begins(c + value, a)) by {
        assert((c + value).take(5)[0] == 'X');
    }
    assert(!begins(c + value, b)) by {
        if begins(c + value, b) {
            assert((c + value).take(b.len() as int)[17] == 'N');
        }
    }
    assert(!begins(d + value, a)) by {
        assert((d + value).take(5)[0] == 'C');
    }
    assert(!begins(d + value, b)) by {
        if begins(d + value, b) {
            assert((d + value).take(b.len() as int)[0] == 'C');
        }
    }
    assert(!begins(d + value, c)) by {
        if begins(d + value, c) {
            assert((d + value).take(c.len() as int)[0] == 'C');
        }
    }
}

/// Without metadata a widget has the name of its directory; with metadata that cannot be read it has
/// none.
pub proof fn widgets_without_metadata(dir: PlasmoidDir)
    ensures
        dir.metadata is Missing ==> info_of(dir).id == dir.name@ && info_of(dir).name == dir.name@
            && info_of(dir).version == "unknown"@,
        dir.metadata == PlasmoidMetadata::Json(None) ==> info_of(dir).name == "Unknown"@
            && info_of(dir).id.len() == 0,
{
    reveal_strlit("");
}

} // verus!
