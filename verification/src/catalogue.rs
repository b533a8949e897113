//! The catalogue of a Flatpak remote, read from its appstream data.
use flate2::read::GzDecoder;
use std::io::Read;
use vstd::prelude::*;

use crate::html::{description_text, strip_inline_tags};
use crate::text::{filled, from_chars, has_word, holds, own, push_all, push_str, same_text, texts,
    to_chars, trim, trimmed};
use crate::xml::{attribute_model, is_last, lossy, lossy_text, name_is, named, names_are_single,
    nodes, read_events, xml_events, AttributeModel, XmlAttribute, XmlEvent, XmlNode};

verus! {

// ---------------------------------------------------------------------------
// Applications

/// An application of a remote.
#[derive(Debug, Clone)]
pub struct CachedRemoteApp {
    pub app_id: String,
    pub name: String,
    pub summary: String,
    pub description: String,
    pub categories: Vec<String>,
    pub developer: String,
    pub screenshot_url: String,
    pub icon_name: String,
    pub extends: String,
    pub url_homepage: String,
    pub url_bugtracker: String,
    pub url_translate: String,
    pub url_vcs: String,
    pub version: String,
    pub version_date: String,
    pub changelog: String,
}

/// The contents of an application of a remote.
pub struct RemoteAppModel {
    pub app_id: Seq<char>,
    pub name: Seq<char>,
    pub summary: Seq<char>,
    pub description: Seq<char>,
    pub categories: Seq<Seq<char>>,
    pub developer: Seq<char>,
    pub screenshot_url: Seq<char>,
    pub icon_name: Seq<char>,
    pub extends: Seq<char>,
    pub url_homepage: Seq<char>,
    pub url_bugtracker: Seq<char>,
    pub url_translate: Seq<char>,
    pub url_vcs: Seq<char>,
    pub version: Seq<char>,
    pub version_date: Seq<char>,
    pub changelog: Seq<char>,
}

impl View for CachedRemoteApp {
    type V = RemoteAppModel;

    open spec fn view(&self) -> RemoteAppModel {
        RemoteAppModel {
            app_id: self.app_id@,
            name: self.name@,
            summary: self.summary@,
            description: self.description@,
            categories: texts(self.categories@),
            developer: self.developer@,
            screenshot_url: self.screenshot_url@,
            icon_name: self.icon_name@,
            extends: self.extends@,
            url_homepage: self.url_homepage@,
            url_bugtracker: self.url_bugtracker@,
            url_translate: self.url_translate@,
            url_vcs: self.url_vcs@,
            version: self.version@,
            version_date: self.version_date@,
            changelog: self.changelog@,
        }
    }
}

/// The contents of a list of applications.
pub open spec fn app_models(apps: Seq<CachedRemoteApp>) -> Seq<RemoteAppModel> {
    apps.map_values(|a: CachedRemoteApp| a@)
}

/// A component while it is being read.
#[derive(Debug)]
pub struct Draft {
    pub app_id: String,
    pub name: String,
    pub summary: String,
    pub description: Vec<char>,
    pub categories: Vec<String>,
    pub developer: String,
    pub screenshot_url: String,
    pub icon_name: String,
    pub extends: String,
    pub url_homepage: String,
    pub url_bugtracker: String,
    pub url_translate: String,
    pub url_vcs: String,
    pub version: String,
    pub version_date: String,
    pub changelog: Vec<char>,
    pub screenshot_source_url: String,
}

/// The contents of a component while it is being read.
pub struct DraftModel {
    pub app_id: Seq<char>,
    pub name: Seq<char>,
    pub summary: Seq<char>,
    pub description: Seq<char>,
    pub categories: Seq<Seq<char>>,
    pub developer: Seq<char>,
    pub screenshot_url: Seq<char>,
    pub icon_name: Seq<char>,
    pub extends: Seq<char>,
    pub url_homepage: Seq<char>,
    pub url_bugtracker: Seq<char>,
    pub url_translate: Seq<char>,
    pub url_vcs: Seq<char>,
    pub version: Seq<char>,
    pub version_date: Seq<char>,
    pub changelog: Seq<char>,
    pub screenshot_source_url: Seq<char>,
}

impl View for Draft {
    type V = DraftModel;

    open spec fn view(&self) -> DraftModel {
        DraftModel {
            app_id: self.app_id@,
            name: self.name@,
            summary: self.summary@,
            description: self.description@,
            categories: texts(self.categories@),
            developer: self.developer@,
            screenshot_url: self.screenshot_url@,
            icon_name: self.icon_name@,
            extends: self.extends@,
            url_homepage: self.url_homepage@,
            url_bugtracker: self.url_bugtracker@,
            url_translate: self.url_translate@,
            url_vcs: self.url_vcs@,
            version: self.version@,
            version_date: self.version_date@,
            changelog: self.changelog@,
            screenshot_source_url: self.screenshot_source_url@,
        }
    }
}

/// A component of which nothing has been read.
pub open spec fn empty_draft() -> DraftModel {
    DraftModel {
        app_id: seq![],
        name: seq![],
        summary: seq![],
        description: seq![],
        categories: seq![],
        developer: seq![],
        screenshot_url: seq![],
        icon_name: seq![],
        extends: seq![],
        url_homepage: seq![],
        url_bugtracker: seq![],
        url_translate: seq![],
        url_vcs: seq![],
        version: seq![],
        version_date: seq![],
        changelog: seq![],
        screenshot_source_url: seq![],
    }
}

/// The application that a component describes. A thumbnail is preferred to a full-size picture.
pub open spec fn app_of(d: DraftModel) -> RemoteAppModel {
    RemoteAppModel {
        app_id: d.app_id,
        name: d.name,
        summary: d.summary,
        description: description_text(d.description),
        categories: d.categories,
        developer: d.developer,
        screenshot_url: if d.screenshot_url.len() > 0 {
            d.screenshot_url
        } else {
            d.screenshot_source_url
        },
        icon_name: d.icon_name,
        extends: d.extends,
        url_homepage: d.url_homepage,
        url_bugtracker: d.url_bugtracker,
        url_translate: d.url_translate,
        url_vcs: d.url_vcs,
        version: d.version,
        version_date: d.version_date,
        changelog: description_text(d.changelog),
    }
}

impl Draft {
    fn new() -> (d: Draft)
        ensures
            d@ == empty_draft(),
    {
        let d = Draft {
            app_id: String::new(),
            name: String::new(),
            summary: String::new(),
            description: Vec::new(),
            categories: Vec::new(),
            developer: String::new(),
            screenshot_url: String::new(),
            icon_name: String::new(),
            extends: String::new(),
            url_homepage: String::new(),
            url_bugtracker: String::new(),
            url_translate: String::new(),
            url_vcs: String::new(),
            version: String::new(),
            version_date: String::new(),
            changelog: Vec::new(),
            screenshot_source_url: String::new(),
        };
        proof {
            assert(d@.categories =~= seq![]);
            assert(d@ == empty_draft());
        }
        d
    }

    fn finish(self) -> (app: CachedRemoteApp)
        ensures
            app@ == app_of(self@),
    {
        let description = from_chars(self.description.as_slice());
        let changelog = from_chars(self.changelog.as_slice());
        CachedRemoteApp {
            app_id: self.app_id,
            name: self.name,
            summary: self.summary,
            description: strip_inline_tags(description.as_str()),
            categories: self.categories,
            developer: self.developer,
            screenshot_url: if filled(self.screenshot_url.as_str()) {
                self.screenshot_url
            } else {
                self.screenshot_source_url
            },
            icon_name: self.icon_name,
            extends: self.extends,
            url_homepage: self.url_homepage,
            url_bugtracker: self.url_bugtracker,
            url_translate: self.url_translate,
            url_vcs: self.url_vcs,
            version: self.version,
            version_date: self.version_date,
            changelog: strip_inline_tags(changelog.as_str()),
        }
    }
}

// ---------------------------------------------------------------------------
// Running text

/// Whether a text ends with a line feed.
pub open spec fn at_line_start(s: Seq<char>) -> bool {
    s.len() > 0 && s.last() == '\n'
}

/// The text with the mark of a list item on a line of its own.
pub open spec fn with_bullet(s: Seq<char>) -> Seq<char> {
    (if s.len() > 0 && !at_line_start(s) {
        s.push('\n')
    } else {
        s
    }) + "• "@
}

/// The text with its last line ended.
pub open spec fn with_line_end(s: Seq<char>) -> Seq<char> {
    if at_line_start(s) {
        s
    } else {
        s.push('\n')
    }
}

/// The text with a blank line after a paragraph.
pub open spec fn with_paragraph_end(s: Seq<char>) -> Seq<char> {
    if s.len() == 0 {
        s
    } else {
        with_line_end(s).push('\n')
    }
}

/// The text with a blank line after a list.
pub open spec fn with_list_end(s: Seq<char>) -> Seq<char> {
    if s.len() >= 2 && s.last() == '\n' && s[s.len() - 2] == '\n' {
        s
    } else {
        with_line_end(s).push('\n')
    }
}

/// The text continued with `t`, after a space where it does not end with white space already.
pub open spec fn with_words(s: Seq<char>, t: Seq<char>) -> Seq<char> {
    if t.len() == 0 {
        s
    } else if s.len() > 0 && s.last() != '\n' && s.last() != ' ' {
        s.push(' ') + t
    } else {
        s + t
    }
}

fn ends_line(s: &Vec<char>) -> (r: bool)
    ensures
        r == at_line_start(s@),
{
    s.len() > 0 && s[s.len() - 1] == '\n'
}

fn add_bullet(s: &mut Vec<char>)
    ensures
        final(s)@ == with_bullet(old(s)@),
{
    if s.len() > 0 && !ends_line(s) {
        s.push('\n');
    }
    push_str(s, "• ");
}

fn end_line(s: &mut Vec<char>)
    ensures
        final(s)@ == with_line_end(old(s)@),
{
    if !ends_line(s) {
        s.push('\n');
    }
}

fn end_paragraph(s: &mut Vec<char>)
    ensures
        final(s)@ == with_paragraph_end(old(s)@),
{
    if s.len() > 0 {
        end_line(s);
        s.push('\n');
    }
}

fn end_list(s: &mut Vec<char>)
    ensures
        final(s)@ == with_list_end(old(s)@),
{
    if !(s.len() >= 2 && s[s.len() - 1] == '\n' && s[s.len() - 2] == '\n') {
        end_line(s);
        s.push('\n');
    }
}

fn add_words(s: &mut Vec<char>, t: &[char])
    ensures
        final(s)@ == with_words(old(s)@, t@),
{
    if t.len() > 0 {
        if s.len() > 0 && s[s.len() - 1] != '\n' && s[s.len() - 1] != ' ' {
            s.push(' ');
        }
        push_all(s, t);
    }
}

// ---------------------------------------------------------------------------
// Attributes

/// The value of the last well-formed attribute with the name `word`.
pub open spec fn attribute(list: Seq<Option<AttributeModel>>, word: Seq<char>) -> Option<Seq<u8>>
    decreases list.len(),
{
    if list.len() == 0 {
        None
    } else {
        match list.last() {
            Some(a) => if named(a.key, word) {
                Some(a.value)
            } else {
                attribute(list.drop_last(), word)
            },
            None => attribute(list.drop_last(), word),
        }
    }
}

/// The text of an attribute, or `default` where it is missing.
#[verifier::opaque]
pub open spec fn attribute_text(
    list: Seq<Option<AttributeModel>>,
    word: Seq<char>,
    default: Seq<char>,
) -> Seq<char> {
    match attribute(list, word) {
        Some(value) => lossy_text(value),
        None => default,
    }
}

/// Whether an attribute has the value `value`.
#[verifier::opaque]
pub open spec fn attribute_named(
    list: Seq<Option<AttributeModel>>,
    word: Seq<char>,
    value: Seq<char>,
) -> bool {
    match attribute(list, word) {
        Some(bytes) => named(bytes, value),
        None => false,
    }
}

/// The contents of a list of attributes.
pub open spec fn attribute_models(list: Seq<Option<XmlAttribute>>) -> Seq<Option<AttributeModel>> {
    list.map_values(|a: Option<XmlAttribute>| attribute_model(a))
}

fn find_attribute<'a>(list: &'a Vec<Option<XmlAttribute>>, word: &str) -> (r: Option<&'a Vec<u8>>)
    ensures
        match r {
            Some(value) => attribute(attribute_models(list@), word@) == Some(value@),
            None => attribute(attribute_models(list@), word@) is None,
        },
{
    let mut k: usize = list.len();
    let ghost all = attribute_models(list@);
    proof {
        assert(all.take(k as int) =~= all);
    }
    while k > 0
        invariant
            k <= list@.len(),
            all == attribute_models(list@),
            attribute(all, word@) == attribute(all.take(k as int), word@),
        decreases k,
    {
        proof {
            assert(all.take(k as int).drop_last() =~= all.take(k - 1));
        }
        if let Some(a) = &list[k - 1] {
            if name_is(a.key.as_slice(), word) {
                return Some(&a.value);
            }
        }
        k = k - 1;
    }
    None
}

fn attribute_or(list: &Vec<Option<XmlAttribute>>, word: &str, default: String) -> (r: String)
    ensures
        r@ == attribute_text(attribute_models(list@), word@, default@),
{
    reveal(attribute_text);
    match find_attribute(list, word) {
        Some(value) => lossy(value.as_slice()),
        None => default,
    }
}

fn attribute_is(list: &Vec<Option<XmlAttribute>>, word: &str, value: &str) -> (r: bool)
    ensures
        r == attribute_named(attribute_models(list@), word@, value@),
{
    reveal(attribute_named);
    match find_attribute(list, word) {
        Some(bytes) => name_is(bytes.as_slice(), value),
        None => false,
    }
}

// ---------------------------------------------------------------------------
// Reading

/// The elements that are open at a place of the document, as far as they matter.
#[derive(Debug, Clone, Copy)]
pub struct Place {
    pub component: bool,
    pub id: bool,
    pub name: bool,
    pub summary: bool,
    pub description: bool,
    pub description_depth: i32,
    pub developer: bool,
    pub developer_name: bool,
    pub categories: bool,
    pub category: bool,
    pub screenshots: bool,
    pub screenshot: bool,
    pub image: bool,
    pub extends: bool,
    pub icon: bool,
    pub url: bool,
    pub releases: bool,
    pub release: bool,
    pub first_release_read: bool,
    pub release_notes: bool,
    pub release_notes_depth: i32,
}

/// Where reading starts: no element is open.
pub open spec fn outermost() -> Place {
    Place {
        component: false,
        id: false,
        name: false,
        summary: false,
        description: false,
        description_depth: 0,
        developer: false,
        developer_name: false,
        categories: false,
        category: false,
        screenshots: false,
        screenshot: false,
        image: false,
        extends: false,
        icon: false,
        url: false,
        releases: false,
        release: false,
        first_release_read: false,
        release_notes: false,
        release_notes_depth: 0,
    }
}

/// The contents of a component that may be missing.
pub open spec fn draft_model(draft: Option<Draft>) -> Option<DraftModel> {
    match draft {
        Some(d) => Some(d@),
        None => None,
    }
}

/// What has been read of a catalogue.
#[derive(Debug)]
pub struct Catalogue {
    pub place: Place,
    pub image_type: String,
    pub url_type: String,
    pub draft: Option<Draft>,
    pub apps: Vec<CachedRemoteApp>,
}

/// What has been read of a catalogue.
pub struct CatalogueModel {
    pub place: Place,
    pub image_type: Seq<char>,
    pub url_type: Seq<char>,
    pub draft: Option<DraftModel>,
    pub apps: Seq<RemoteAppModel>,
}

impl View for Catalogue {
    type V = CatalogueModel;

    open spec fn view(&self) -> CatalogueModel {
        CatalogueModel {
            place: self.place,
            image_type: self.image_type@,
            url_type: self.url_type@,
            draft: draft_model(self.draft),
            apps: app_models(self.apps@),
        }
    }
}

/// Before anything has been read.
pub open spec fn unread() -> CatalogueModel {
    CatalogueModel {
        place: outermost(),
        image_type: seq![],
        url_type: seq![],
        draft: None,
        apps: seq![],
    }
}

/// What an opening tag means at a place.
#[derive(Debug, Clone, Copy)]
pub enum Opening {
    /// A component begins.
    Component,
    /// Reading goes on at another place.
    Enter(Place),
    /// A link begins.
    Url,
    /// The release of which the notes are kept begins.
    Release,
    /// An element within the notes of a release begins; whether it is a list item.
    Notes(bool),
    /// A picture of a screenshot begins.
    Image,
    /// An icon begins.
    Icon,
    /// An element within a description begins; whether it is a list item.
    Description(bool),
}

/// What a closing tag means at a place.
#[derive(Debug, Clone, Copy)]
pub enum Closing {
    /// A component ends.
    Component,
    /// Reading goes on at another place.
    Leave(Place),
    /// A link ends.
    Url,
    /// An element within the notes of a release ends.
    Notes(Block),
    /// An element within a description ends.
    Description(Block),
}

/// The elements of running text.
#[derive(Debug, Clone, Copy)]
pub enum Block {
    Paragraph,
    Item,
    List,
    Other,
}

/// What an opening tag means.
#[verifier::opaque]
pub open spec fn opening_of(p: Place, tag: Seq<u8>) -> Opening {
    if named(tag, "component"@) {
        Opening::Component
    } else if named(tag, "id"@) && p.component && !p.developer && !p.description && !p.categories
        && !p.screenshots {
        Opening::Enter(Place { id: true, ..p })
    } else if named(tag, "name"@) && p.component && !p.developer && !p.description
        && !p.categories {
        Opening::Enter(Place { name: true, ..p })
    } else if named(tag, "summary"@) && p.component && !p.developer && !p.description {
        Opening::Enter(Place { summary: true, ..p })
    } else if named(tag, "description"@) && p.component && !p.screenshots && !p.releases {
        Opening::Enter(Place { description: true, description_depth: 1, ..p })
    } else if named(tag, "url"@) && p.component && !p.description && !p.screenshots
        && !p.releases {
        Opening::Url
    } else if named(tag, "releases"@) && p.component {
        Opening::Enter(Place { releases: true, ..p })
    } else if named(tag, "release"@) && p.releases && !p.first_release_read {
        Opening::Release
    } else if named(tag, "description"@) && p.release && !p.release_notes {
        Opening::Enter(Place { release_notes: true, release_notes_depth: 1, ..p })
    } else if p.release_notes {
        Opening::Notes(named(tag, "li"@))
    } else if named(tag, "developer"@) && p.component {
        Opening::Enter(Place { developer: true, ..p })
    } else if named(tag, "name"@) && p.developer {
        Opening::Enter(Place { developer_name: true, ..p })
    } else if named(tag, "categories"@) && p.component {
        Opening::Enter(Place { categories: true, ..p })
    } else if named(tag, "category"@) && p.categories {
        Opening::Enter(Place { category: true, ..p })
    } else if named(tag, "extends"@) && p.component && !p.description {
        Opening::Enter(Place { extends: true, ..p })
    } else if named(tag, "screenshots"@) && p.component {
        Opening::Enter(Place { screenshots: true, ..p })
    } else if named(tag, "screenshot"@) && p.screenshots {
        Opening::Enter(Place { screenshot: true, ..p })
    } else if named(tag, "image"@) && p.screenshot {
        Opening::Image
    } else if named(tag, "icon"@) && p.component && !p.screenshots && !p.description {
        Opening::Icon
    } else if p.description {
        Opening::Description(named(tag, "li"@))
    } else {
        Opening::Enter(p)
    }
}

/// The element of running text that a tag stands for.
pub open spec fn block_of(tag: Seq<u8>) -> Block {
    if named(tag, "p"@) {
        Block::Paragraph
    } else if named(tag, "li"@) {
        Block::Item
    } else if named(tag, "ul"@) || named(tag, "ol"@) {
        Block::List
    } else {
        Block::Other
    }
}

/// What a closing tag means.
#[verifier::opaque]
pub open spec fn closing_of(p: Place, tag: Seq<u8>) -> Closing {
    if named(tag, "component"@) {
        Closing::Component
    } else if named(tag, "id"@) {
        Closing::Leave(Place { id: false, ..p })
    } else if named(tag, "extends"@) {
        Closing::Leave(Place { extends: false, ..p })
    } else if named(tag, "name"@) {
        if p.developer {
            Closing::Leave(Place { developer_name: false, ..p })
        } else {
            Closing::Leave(Place { name: false, ..p })
        }
    } else if named(tag, "summary"@) {
        Closing::Leave(Place { summary: false, ..p })
    } else if named(tag, "description"@) && p.description_depth == 1 {
        Closing::Leave(Place { description: false, description_depth: 0, ..p })
    } else if named(tag, "developer"@) {
        Closing::Leave(Place { developer: false, developer_name: false, ..p })
    } else if named(tag, "categories"@) {
        Closing::Leave(Place { categories: false, ..p })
    } else if named(tag, "category"@) {
        Closing::Leave(Place { category: false, ..p })
    } else if named(tag, "screenshots"@) {
        Closing::Leave(Place { screenshots: false, ..p })
    } else if named(tag, "screenshot"@) {
        Closing::Leave(Place { screenshot: false, ..p })
    } else if named(tag, "image"@) {
        Closing::Leave(Place { image: false, ..p })
    } else if named(tag, "icon"@) {
        Closing::Leave(Place { icon: false, ..p })
    } else if named(tag, "url"@) {
        Closing::Url
    } else if named(tag, "releases"@) {
        Closing::Leave(Place { releases: false, ..p })
    } else if named(tag, "release"@) && p.release {
        Closing::Leave(Place { release: false, first_release_read: true, ..p })
    } else if named(tag, "description"@) && p.release_notes && p.release_notes_depth == 1 {
        Closing::Leave(Place { release_notes: false, release_notes_depth: 0, ..p })
    } else if p.release_notes {
        Closing::Notes(block_of(tag))
    } else if p.description {
        Closing::Description(block_of(tag))
    } else {
        Closing::Leave(p)
    }
}

/// The component with the version and the date of a release.
pub open spec fn released(
    draft: Option<DraftModel>,
    list: Seq<Option<AttributeModel>>,
) -> Option<DraftModel> {
    match draft {
        Some(d) => Some(
            DraftModel {
                version: attribute_text(list, "version"@, d.version),
                version_date: attribute_text(list, "date"@, d.version_date),
                ..d
            },
        ),
        None => None,
    }
}

/// The component with other release notes.
pub open spec fn noted(draft: Option<DraftModel>, f: spec_fn(Seq<char>) -> Seq<char>) -> Option<
    DraftModel,
> {
    match draft {
        Some(d) => Some(DraftModel { changelog: f(d.changelog), ..d }),
        None => None,
    }
}

/// The component with another description.
pub open spec fn described(draft: Option<DraftModel>, f: spec_fn(Seq<char>) -> Seq<char>) -> Option<
    DraftModel,
> {
    match draft {
        Some(d) => Some(DraftModel { description: f(d.description), ..d }),
        None => None,
    }
}

/// Running text when an element of it begins.
pub open spec fn text_before(s: Seq<char>, item: bool) -> Seq<char> {
    if item {
        with_bullet(s)
    } else {
        s
    }
}

/// Whether an icon is the one that is kept: the cached one of 128 pixels.
pub open spec fn icon_wanted(list: Seq<Option<AttributeModel>>) -> bool {
    attribute_named(list, "type"@, "cached"@) && attribute_named(list, "width"@, "128"@)
}

/// The place after an opening tag; `wanted` says whether an icon is the one that is kept.
pub open spec fn place_within(p: Place, opening: Opening, wanted: bool) -> Place {
    match opening {
        Opening::Component => Place { component: true, first_release_read: false, ..p },
        Opening::Enter(q) => q,
        Opening::Url => Place { url: true, ..p },
        Opening::Release => Place { release: true, ..p },
        Opening::Notes(_) => Place {
            release_notes_depth: p.release_notes_depth.wrapping_add(1),
            ..p
        },
        Opening::Image => Place { image: true, ..p },
        Opening::Icon => if wanted {
            Place { icon: true, ..p }
        } else {
            p
        },
        Opening::Description(_) => Place {
            description_depth: p.description_depth.wrapping_add(1),
            ..p
        },
    }
}

/// The component after an opening tag.
pub open spec fn draft_within(
    draft: Option<DraftModel>,
    opening: Opening,
    list: Seq<Option<AttributeModel>>,
) -> Option<DraftModel> {
    match opening {
        Opening::Component => Some(empty_draft()),
        Opening::Release => released(draft, list),
        Opening::Notes(item) => noted(draft, |s: Seq<char>| text_before(s, item)),
        Opening::Description(item) => described(draft, |s: Seq<char>| text_before(s, item)),
        _ => draft,
    }
}

/// After an opening tag.
pub open spec fn after_start(
    m: CatalogueModel,
    tag: Seq<u8>,
    list: Seq<Option<AttributeModel>>,
) -> CatalogueModel {
    let opening = opening_of(m.place, tag);
    CatalogueModel {
        place: place_within(m.place, opening, icon_wanted(list)),
        image_type: if opening is Image {
            attribute_text(list, "type"@, seq![])
        } else {
            m.image_type
        },
        url_type: if opening is Url {
            attribute_text(list, "type"@, seq![])
        } else {
            m.url_type
        },
        draft: draft_within(m.draft, opening, list),
        apps: m.apps,
    }
}

/// The notes of a release after an element of them.
pub open spec fn notes_after(s: Seq<char>, block: Block) -> Seq<char> {
    match block {
        Block::Paragraph => with_paragraph_end(s),
        Block::Item => with_line_end(s),
        _ => s,
    }
}

/// A description after an element of it.
pub open spec fn description_after(s: Seq<char>, block: Block) -> Seq<char> {
    match block {
        Block::Paragraph => with_paragraph_end(s),
        Block::Item => with_line_end(s),
        Block::List => with_list_end(s),
        Block::Other => s,
    }
}

/// The applications after a component, which counts where it has an identifier.
pub open spec fn completed(apps: Seq<RemoteAppModel>, draft: Option<DraftModel>) -> Seq<
    RemoteAppModel,
> {
    match draft {
        Some(d) => if d.app_id.len() > 0 {
            apps.push(app_of(d))
        } else {
            apps
        },
        None => apps,
    }
}

/// After a closing tag.
pub open spec fn after_end(m: CatalogueModel, tag: Seq<u8>) -> CatalogueModel {
    let p = m.place;
    match closing_of(p, tag) {
        Closing::Component => CatalogueModel {
            place: Place { component: false, ..p },
            draft: None,
            apps: completed(m.apps, m.draft),
            ..m
        },
        Closing::Leave(q) => CatalogueModel { place: q, ..m },
        Closing::Url => CatalogueModel {
            place: Place { url: false, ..p },
            url_type: seq![],
            ..m
        },
        Closing::Notes(block) => CatalogueModel {
            place: Place { release_notes_depth: p.release_notes_depth.wrapping_sub(1), ..p },
            draft: noted(m.draft, |s: Seq<char>| notes_after(s, block)),
            ..m
        },
        Closing::Description(block) => CatalogueModel {
            place: Place { description_depth: p.description_depth.wrapping_sub(1), ..p },
            draft: described(m.draft, |s: Seq<char>| description_after(s, block)),
            ..m
        },
    }
}

/// A value that is kept once it is there.
pub open spec fn first_of(old_value: Seq<char>, new_value: Seq<char>) -> Seq<char> {
    if old_value.len() == 0 {
        new_value
    } else {
        old_value
    }
}

/// A component after the text of a link.
pub open spec fn draft_with_url(d: DraftModel, url_type: Seq<char>, t: Seq<char>) -> DraftModel {
    if url_type == "homepage"@ {
        DraftModel { url_homepage: first_of(d.url_homepage, t), ..d }
    } else if url_type == "bugtracker"@ {
        DraftModel { url_bugtracker: first_of(d.url_bugtracker, t), ..d }
    } else if url_type == "translate"@ {
        DraftModel { url_translate: first_of(d.url_translate, t), ..d }
    } else if url_type == "vcs-browser"@ {
        DraftModel { url_vcs: first_of(d.url_vcs, t), ..d }
    } else {
        d
    }
}

/// A component after the address of a picture.
pub open spec fn draft_with_picture(
    d: DraftModel,
    image_type: Seq<char>,
    t: Seq<char>,
) -> DraftModel {
    if image_type == "thumbnail"@ && d.screenshot_url.len() == 0 && holds(t, "624x351"@) {
        DraftModel { screenshot_url: t, ..d }
    } else if image_type == "source"@ && d.screenshot_source_url.len() == 0 {
        DraftModel { screenshot_source_url: t, ..d }
    } else {
        d
    }
}

/// A component after a piece of text, given without the white space around it.
pub open spec fn draft_with_text(
    d: DraftModel,
    p: Place,
    image_type: Seq<char>,
    url_type: Seq<char>,
    t: Seq<char>,
) -> DraftModel {
    if p.id {
        DraftModel { app_id: t, ..d }
    } else if p.extends && d.extends.len() == 0 {
        DraftModel { extends: t, ..d }
    } else if p.name && d.name.len() == 0 {
        DraftModel { name: t, ..d }
    } else if p.summary && d.summary.len() == 0 {
        DraftModel { summary: t, ..d }
    } else if p.description {
        DraftModel { description: with_words(d.description, t), ..d }
    } else if p.url {
        draft_with_url(d, url_type, t)
    } else if p.release_notes {
        DraftModel { changelog: with_words(d.changelog, t), ..d }
    } else if p.developer_name && d.developer.len() == 0 {
        DraftModel { developer: t, ..d }
    } else if p.category {
        DraftModel { categories: d.categories.push(t), ..d }
    } else if p.icon && d.icon_name.len() == 0 {
        DraftModel { icon_name: t, ..d }
    } else if p.image && p.screenshot {
        draft_with_picture(d, image_type, t)
    } else {
        d
    }
}

/// After an event.
pub open spec fn after_event(m: CatalogueModel, node: XmlNode) -> CatalogueModel {
    match node {
        XmlNode::Start(tag, list) => after_start(m, tag, list),
        XmlNode::End(tag) => after_end(m, tag),
        XmlNode::Text(Some(text)) => match m.draft {
            Some(d) => CatalogueModel {
                draft: Some(draft_with_text(d, m.place, m.image_type, m.url_type, trimmed(text))),
                ..m
            },
            None => m,
        },
        _ => m,
    }
}

/// After the events up to the end of the document or an error.
pub open spec fn after_events(m: CatalogueModel, events: Seq<XmlNode>) -> CatalogueModel
    decreases events.len(),
{
    if events.len() == 0 || is_last(events[0]) {
        m
    } else {
        after_events(after_event(m, events[0]), events.skip(1))
    }
}

/// The applications that the events of a document describe.
pub open spec fn catalogue_of(events: Seq<XmlNode>) -> Seq<RemoteAppModel> {
    after_events(unread(), events).apps
}

fn opening(p: Place, tag: &[u8]) -> (r: Opening)
    ensures
        r == opening_of(p, tag@),
{
    reveal(opening_of);
    if name_is(tag, "component") {
        Opening::Component
    } else if name_is(tag, "id") && p.component && !p.developer && !p.description && !p.categories
        && !p.screenshots {
        Opening::Enter(Place { id: true, ..p })
    } else if name_is(tag, "name") && p.component && !p.developer && !p.description
        && !p.categories {
        Opening::Enter(Place { name: true, ..p })
    } else if name_is(tag, "summary") && p.component && !p.developer && !p.description {
        Opening::Enter(Place { summary: true, ..p })
    } else if name_is(tag, "description") && p.component && !p.screenshots && !p.releases {
        Opening::Enter(Place { description: true, description_depth: 1, ..p })
    } else if name_is(tag, "url") && p.component && !p.description && !p.screenshots
        && !p.releases {
        Opening::Url
    } else if name_is(tag, "releases") && p.component {
        Opening::Enter(Place { releases: true, ..p })
    } else if name_is(tag, "release") && p.releases && !p.first_release_read {
        Opening::Release
    } else if name_is(tag, "description") && p.release && !p.release_notes {
        Opening::Enter(Place { release_notes: true, release_notes_depth: 1, ..p })
    } else if p.release_notes {
        Opening::Notes(name_is(tag, "li"))
    } else if name_is(tag, "developer") && p.component {
        Opening::Enter(Place { developer: true, ..p })
    } else if name_is(tag, "name") && p.developer {
        Opening::Enter(Place { developer_name: true, ..p })
    } else if name_is(tag, "categories") && p.component {
        Opening::Enter(Place { categories: true, ..p })
    } else if name_is(tag, "category") && p.categories {
        Opening::Enter(Place { category: true, ..p })
    } else if name_is(tag, "extends") && p.component && !p.description {
        Opening::Enter(Place { extends: true, ..p })
    } else if name_is(tag, "screenshots") && p.component {
        Opening::Enter(Place { screenshots: true, ..p })
    } else if name_is(tag, "screenshot") && p.screenshots {
        Opening::Enter(Place { screenshot: true, ..p })
    } else if name_is(tag, "image") && p.screenshot {
        Opening::Image
    } else if name_is(tag, "icon") && p.component && !p.screenshots && !p.description {
        Opening::Icon
    } else if p.description {
        Opening::Description(name_is(tag, "li"))
    } else {
        Opening::Enter(p)
    }
}

fn block(tag: &[u8]) -> (r: Block)
    ensures
        r == block_of(tag@),
{
    if name_is(tag, "p") {
        Block::Paragraph
    } else if name_is(tag, "li") {
        Block::Item
    } else if name_is(tag, "ul") || name_is(tag, "ol") {
        Block::List
    } else {
        Block::Other
    }
}

fn closing(p: Place, tag: &[u8]) -> (r: Closing)
    ensures
        r == closing_of(p, tag@),
{
    reveal(closing_of);
    if name_is(tag, "component") {
        Closing::Component
    } else if name_is(tag, "id") {
        Closing::Leave(Place { id: false, ..p })
    } else if name_is(tag, "extends") {
        Closing::Leave(Place { extends: false, ..p })
    } else if name_is(tag, "name") {
        if p.developer {
            Closing::Leave(Place { developer_name: false, ..p })
        } else {
            Closing::Leave(Place { name: false, ..p })
        }
    } else if name_is(tag, "summary") {
        Closing::Leave(Place { summary: false, ..p })
    } else if name_is(tag, "description") && p.description_depth == 1 {
        Closing::Leave(Place { description: false, description_depth: 0, ..p })
    } else if name_is(tag, "developer") {
        Closing::Leave(Place { developer: false, developer_name: false, ..p })
    } else if name_is(tag, "categories") {
        Closing::Leave(Place { categories: false, ..p })
    } else if name_is(tag, "category") {
        Closing::Leave(Place { category: false, ..p })
    } else if name_is(tag, "screenshots") {
        Closing::Leave(Place { screenshots: false, ..p })
    } else if name_is(tag, "screenshot") {
        Closing::Leave(Place { screenshot: false, ..p })
    } else if name_is(tag, "image") {
        Closing::Leave(Place { image: false, ..p })
    } else if name_is(tag, "icon") {
        Closing::Leave(Place { icon: false, ..p })
    } else if name_is(tag, "url") {
        Closing::Url
    } else if name_is(tag, "releases") {
        Closing::Leave(Place { releases: false, ..p })
    } else if name_is(tag, "release") && p.release {
        Closing::Leave(Place { release: false, first_release_read: true, ..p })
    } else if name_is(tag, "description") && p.release_notes && p.release_notes_depth == 1 {
        Closing::Leave(Place { release_notes: false, release_notes_depth: 0, ..p })
    } else if p.release_notes {
        Closing::Notes(block(tag))
    } else if p.description {
        Closing::Description(block(tag))
    } else {
        Closing::Leave(p)
    }
}

fn enter(p: Place, o: Opening, wanted: bool) -> (r: Place)
    ensures
        r == place_within(p, o, wanted),
{
    match o {
        Opening::Component => Place { component: true, first_release_read: false, ..p },
        Opening::Enter(q) => q,
        Opening::Url => Place { url: true, ..p },
        Opening::Release => Place { release: true, ..p },
        Opening::Notes(_) => Place {
            release_notes_depth: p.release_notes_depth.wrapping_add(1),
            ..p
        },
        Opening::Image => Place { image: true, ..p },
        Opening::Icon => if wanted {
            Place { icon: true, ..p }
        } else {
            p
        },
        Opening::Description(_) => Place {
            description_depth: p.description_depth.wrapping_add(1),
            ..p
        },
    }
}

fn open_draft(draft: Option<Draft>, o: Opening, list: &Vec<Option<XmlAttribute>>) -> (r: Option<
    Draft,
>)
    ensures
        draft_model(r) == draft_within(draft_model(draft), o, attribute_models(list@)),
{
    match o {
        Opening::Component => Some(Draft::new()),
        Opening::Release => release(draft, list),
        Opening::Notes(item) => open_notes(draft, item),
        Opening::Description(item) => open_description(draft, item),
        _ => draft,
    }
}

fn release(draft: Option<Draft>, list: &Vec<Option<XmlAttribute>>) -> (r: Option<Draft>)
    ensures
        draft_model(r) == released(draft_model(draft), attribute_models(list@)),
{
    match draft {
        Some(d) => Some(
            Draft {
                version: attribute_or(list, "version", d.version),
                version_date: attribute_or(list, "date", d.version_date),
                ..d
            },
        ),
        None => None,
    }
}

fn open_notes(draft: Option<Draft>, item: bool) -> (r: Option<Draft>)
    ensures
        draft_model(r) == noted(draft_model(draft), |s: Seq<char>| text_before(s, item)),
{
    match draft {
        Some(d) => {
            let mut notes = d.changelog;
            if item {
                add_bullet(&mut notes);
            }
            Some(Draft { changelog: notes, ..d })
        },
        None => None,
    }
}

fn open_description(draft: Option<Draft>, item: bool) -> (r: Option<Draft>)
    ensures
        draft_model(r) == described(draft_model(draft), |s: Seq<char>| text_before(s, item)),
{
    match draft {
        Some(d) => {
            let mut text = d.description;
            if item {
                add_bullet(&mut text);
            }
            Some(Draft { description: text, ..d })
        },
        None => None,
    }
}

fn close_notes(draft: Option<Draft>, element: Block) -> (r: Option<Draft>)
    ensures
        draft_model(r) == noted(draft_model(draft), |s: Seq<char>| notes_after(s, element)),
{
    match draft {
        Some(d) => {
            let mut notes = d.changelog;
            match element {
                Block::Paragraph => end_paragraph(&mut notes),
                Block::Item => end_line(&mut notes),
                _ => {},
            }
            Some(Draft { changelog: notes, ..d })
        },
        None => None,
    }
}

fn close_description(draft: Option<Draft>, element: Block) -> (r: Option<Draft>)
    ensures
        draft_model(r) == described(
            draft_model(draft),
            |s: Seq<char>| description_after(s, element),
        ),
{
    match draft {
        Some(d) => {
            let mut text = d.description;
            match element {
                Block::Paragraph => end_paragraph(&mut text),
                Block::Item => end_line(&mut text),
                Block::List => end_list(&mut text),
                Block::Other => {},
            }
            Some(Draft { description: text, ..d })
        },
        None => None,
    }
}

fn complete(apps: Vec<CachedRemoteApp>, draft: Option<Draft>) -> (r: Vec<CachedRemoteApp>)
    ensures
        app_models(r@) == completed(app_models(apps@), draft_model(draft)),
{
    let mut apps = apps;
    if let Some(d) = draft {
        if filled(d.app_id.as_str()) {
            let ghost before = apps@;
            let app = d.finish();
            apps.push(app);
            proof {
                assert(app_models(apps@) =~= app_models(before).push(app@));
            }
        }
    }
    apps
}

impl Catalogue {
    /// Nothing has been read.
    pub fn new() -> (c: Catalogue)
        ensures
            c@ == unread(),
    {
        let c = Catalogue {
            place: Place {
                component: false,
                id: false,
                name: false,
                summary: false,
                description: false,
                description_depth: 0,
                developer: false,
                developer_name: false,
                categories: false,
                category: false,
                screenshots: false,
                screenshot: false,
                image: false,
                extends: false,
                icon: false,
                url: false,
                releases: false,
                release: false,
                first_release_read: false,
                release_notes: false,
                release_notes_depth: 0,
            },
            image_type: String::new(),
            url_type: String::new(),
            draft: None,
            apps: Vec::new(),
        };
        proof {
            assert(c@.apps =~= seq![]);
            assert(c@ == unread());
        }
        c
    }

    fn start(self, tag: &Vec<u8>, list: &Vec<Option<XmlAttribute>>) -> (c: Catalogue)
        ensures
            c@ == after_start(self@, tag@, attribute_models(list@)),
    {
        let o = opening(self.place, tag.as_slice());
        Catalogue {
            place: enter(
                self.place,
                o,
                attribute_is(list, "type", "cached") && attribute_is(list, "width", "128"),
            ),
            image_type: if matches!(o, Opening::Image) {
                attribute_or(list, "type", String::new())
            } else {
                self.image_type
            },
            url_type: if matches!(o, Opening::Url) {
                attribute_or(list, "type", String::new())
            } else {
                self.url_type
            },
            draft: open_draft(self.draft, o, list),
            apps: self.apps,
        }
    }

    fn end(self, tag: &Vec<u8>) -> (c: Catalogue)
        ensures
            c@ == after_end(self@, tag@),
    {
        let p = self.place;
        match closing(p, tag.as_slice()) {
            Closing::Component => Catalogue {
                place: Place { component: false, ..p },
                apps: complete(self.apps, self.draft),
                draft: None,
                ..self
            },
            Closing::Leave(q) => Catalogue { place: q, ..self },
            Closing::Url => Catalogue {
                place: Place { url: false, ..p },
                url_type: String::new(),
                ..self
            },
            Closing::Notes(element) => Catalogue {
                place: Place { release_notes_depth: p.release_notes_depth.wrapping_sub(1), ..p },
                draft: close_notes(self.draft, element),
                ..self
            },
            Closing::Description(element) => Catalogue {
                place: Place { description_depth: p.description_depth.wrapping_sub(1), ..p },
                draft: close_description(self.draft, element),
                ..self
            },
        }
    }

    fn text(self, text: &str) -> (c: Catalogue)
        ensures
            c@ == after_event(self@, XmlNode::Text(Some(text@))),
    {
        match self.draft {
            Some(d) => {
                let chars = to_chars(text);
                let t = trim(chars.as_slice());
                let draft = add_text(
                    d,
                    self.place,
                    self.image_type.as_str(),
                    self.url_type.as_str(),
                    t,
                );
                Catalogue {
                    place: self.place,
                    image_type: self.image_type,
                    url_type: self.url_type,
                    draft: Some(draft),
                    apps: self.apps,
                }
            },
            None => self,
        }
    }

    /// Takes in one event.
    pub fn event(self, event: &XmlEvent) -> (c: Catalogue)
        ensures
            c@ == after_event(self@, event@),
    {
        match event {
            XmlEvent::Start(tag, list) => self.start(tag, list),
            XmlEvent::End(tag) => self.end(tag),
            XmlEvent::Text(Some(text)) => self.text(text.as_str()),
            _ => self,
        }
    }
}

fn first(old_value: String, new_value: &[char]) -> (r: String)
    ensures
        r@ == first_of(old_value@, new_value@),
{
    if filled(old_value.as_str()) {
        old_value
    } else {
        from_chars(new_value)
    }
}

fn add_url(d: Draft, url_type: &str, t: &[char]) -> (r: Draft)
    ensures
        r@ == draft_with_url(d@, url_type@, t@),
{
    if same_text(url_type, "homepage") {
        Draft { url_homepage: first(d.url_homepage, t), ..d }
    } else if same_text(url_type, "bugtracker") {
        Draft { url_bugtracker: first(d.url_bugtracker, t), ..d }
    } else if same_text(url_type, "translate") {
        Draft { url_translate: first(d.url_translate, t), ..d }
    } else if same_text(url_type, "vcs-browser") {
        Draft { url_vcs: first(d.url_vcs, t), ..d }
    } else {
        d
    }
}

fn add_picture(d: Draft, image_type: &str, t: &[char]) -> (r: Draft)
    ensures
        r@ == draft_with_picture(d@, image_type@, t@),
{
    if same_text(image_type, "thumbnail") && !filled(d.screenshot_url.as_str()) && has_word(
        t,
        "624x351",
    ) {
        Draft { screenshot_url: from_chars(t), ..d }
    } else if same_text(image_type, "source") && !filled(d.screenshot_source_url.as_str()) {
        Draft { screenshot_source_url: from_chars(t), ..d }
    } else {
        d
    }
}

fn add_category(d: Draft, t: &[char]) -> (r: Draft)
    ensures
        r@ == (DraftModel { categories: d@.categories.push(t@), ..d@ }),
{
    let ghost before = d.categories@;
    let mut categories = d.categories;
    categories.push(from_chars(t));
    proof {
        assert(texts(categories@) =~= texts(before).push(t@));
    }
    Draft { categories, ..d }
}

fn add_text(d: Draft, p: Place, image_type: &str, url_type: &str, t: &[char]) -> (r: Draft)
    ensures
        r@ == draft_with_text(d@, p, image_type@, url_type@, t@),
{
    if p.id {
        Draft { app_id: from_chars(t), ..d }
    } else if p.extends && !filled(d.extends.as_str()) {
        Draft { extends: from_chars(t), ..d }
    } else if p.name && !filled(d.name.as_str()) {
        Draft { name: from_chars(t), ..d }
    } else if p.summary && !filled(d.summary.as_str()) {
        Draft { summary: from_chars(t), ..d }
    } else if p.description {
        let mut text = d.description;
        add_words(&mut text, t);
        Draft { description: text, ..d }
    } else if p.url {
        add_url(d, url_type, t)
    } else if p.release_notes {
        let mut notes = d.changelog;
        add_words(&mut notes, t);
        Draft { changelog: notes, ..d }
    } else if p.developer_name && !filled(d.developer.as_str()) {
        Draft { developer: from_chars(t), ..d }
    } else if p.category {
        add_category(d, t)
    } else if p.icon && !filled(d.icon_name.as_str()) {
        Draft { icon_name: from_chars(t), ..d }
    } else if p.image && p.screenshot {
        add_picture(d, image_type, t)
    } else {
        d
    }
}

/// The applications that a list of events describes, up to the end of the document or an error.
pub fn catalogue_from_events(events: &[XmlEvent]) -> (apps: Vec<CachedRemoteApp>)
    ensures
        app_models(apps@) == catalogue_of(nodes(events@)),
{
    let mut c = Catalogue::new();
    let ghost all = nodes(events@);
    let mut i: usize = 0;
    proof {
        assert(all.skip(0) =~= all);
    }
    while i < events.len()
        invariant
            i <= events@.len(),
            all == nodes(events@),
            after_events(c@, all.skip(i as int)) == after_events(unread(), all),
        ensures
            c@ == after_events(unread(), all),
        decreases events@.len() - i,
    {
        proof {
            assert(all.skip(i as int)[0] == events@[i as int]@);
            assert(all.skip(i as int).skip(1) =~= all.skip(i + 1));
        }
        if matches!(events[i], XmlEvent::Eof | XmlEvent::Failure) {
            break;
        }
        c = c.event(&events[i]);
        i = i + 1;
    }
    c.apps
}

/// What gzip data unpacks to; `None` where the data is broken.
pub uninterp spec fn gunzipped(data: Seq<u8>) -> Option<Seq<u8>>;

/// `flate2::read::GzDecoder`, read to its end: the unpacked data, or nothing where reading fails.
#[verifier::external_body]
fn gunzip(data: &[u8]) -> (r: Option<Vec<u8>>)
    ensures
        match r {
            Some(bytes) => gunzipped(data@) == Some(bytes@),
            None => gunzipped(data@) is None,
        },
{
    let mut bytes = Vec::new();
    GzDecoder::new(data).read_to_end(&mut bytes).ok().map(|_| bytes)
}

/// The appstream data of a remote as it was found on disk.
#[derive(Debug)]
pub enum AppstreamData {
    /// The XML document.
    Plain(Vec<u8>),
    /// The XML document, packed with gzip.
    Packed(Vec<u8>),
    /// There is no data, or it could not be read.
    Missing,
}

/// The document in the appstream data; `None` where there is none.
pub open spec fn document_of(data: AppstreamData) -> Option<Seq<u8>> {
    match data {
        AppstreamData::Plain(bytes) => Some(bytes@),
        AppstreamData::Packed(bytes) => gunzipped(bytes@),
        AppstreamData::Missing => None,
    }
}

/// Reads the catalogue of a remote. Without data it is empty.
pub fn parse_appstream_xml(data: &AppstreamData) -> (apps: Vec<CachedRemoteApp>)
    ensures
        match document_of(*data) {
            Some(document) => app_models(apps@) == catalogue_of(xml_events(document)),
            None => apps@.len() == 0,
        },
{
    match data {
        AppstreamData::Plain(bytes) => {
            let events = read_events(bytes.as_slice());
            catalogue_from_events(events.as_slice())
        },
        AppstreamData::Packed(packed) => match gunzip(packed.as_slice()) {
            Some(bytes) => {
                let events = read_events(bytes.as_slice());
                catalogue_from_events(events.as_slice())
            },
            None => Vec::new(),
        },
        AppstreamData::Missing => Vec::new(),
    }
}

/// Where the appstream data of a remote lies.
pub fn appstream_path(remote: &str) -> (path: String)
    ensures
        path@ == "/var/lib/flatpak/appstream/"@ + remote@ + "/x86_64/active/appstream.xml"@,
{
    let mut path = own("/var/lib/flatpak/appstream/");
    path.append(remote);
    path.append("/x86_64/active/appstream.xml");
    path
}

// ---------------------------------------------------------------------------
// Laws

/// Whether every application of a list has an identifier.
pub open spec fn all_identified(apps: Seq<RemoteAppModel>) -> bool {
    forall|i: int| 0 <= i < apps.len() ==> (#[trigger] apps[i]).app_id.len() > 0
}

/// Every component starts afresh: nothing of an earlier one is in it, and its first release is still
/// to be read.
pub proof fn components_start_afresh(
    m: CatalogueModel,
    tag: Seq<u8>,
    list: Seq<Option<AttributeModel>>,
)
    requires
        named(tag, "component"@),
    ensures
        after_start(m, tag, list).draft == Some(empty_draft()),
        after_start(m, tag, list).place.component,
        !after_start(m, tag, list).place.first_release_read,
{
    reveal(opening_of);
}

/// An event never takes an application away, and adds only one with an identifier.
pub proof fn event_keeps_apps(m: CatalogueModel, node: XmlNode)
    requires
        all_identified(m.apps),
    ensures
        all_identified(after_event(m, node).apps),
        m.apps.is_prefix_of(after_event(m, node).apps),
        after_event(m, node).apps.len() <= m.apps.len() + 1,
{
}

/// Reading never takes an application away, and every application of a catalogue has an
/// identifier.
pub proof fn events_keep_apps(m: CatalogueModel, events: Seq<XmlNode>)
    requires
        all_identified(m.apps),
    ensures
        all_identified(after_events(m, events).apps),
        m.apps.is_prefix_of(after_events(m, events).apps),
    decreases events.len(),
{
    if events.len() > 0 && !is_last(events[0]) {
        event_keeps_apps(m, events[0]);
        events_keep_apps(after_event(m, events[0]), events.skip(1));
    }
}

/// Every application of a catalogue has an identifier.
pub proof fn catalogue_is_identified(events: Seq<XmlNode>)
    ensures
        all_identified(catalogue_of(events)),
{
    events_keep_apps(unread(), events);
}

/// What follows an error in the document, or its end, does not matter.
pub proof fn nothing_follows_the_last_event(
    m: CatalogueModel,
    events: Seq<XmlNode>,
    last: XmlNode,
    more: Seq<XmlNode>,
)
    requires
        is_last(last),
    ensures
        after_events(m, events.push(last) + more) == after_events(m, events),
    decreases events.len(),
{
    let all = events.push(last) + more;
    if events.len() > 0 && !is_last(events[0]) {
        nothing_follows_the_last_event(after_event(m, events[0]), events.skip(1), last, more);
        assert(all.skip(1) =~= events.skip(1).push(last) + more);
        assert(all[0] == events[0]);
    } else if events.len() > 0 {
        assert(all[0] == events[0]);
    } else {
        assert(all[0] == last);
    }
}

/// Whether an event begins or ends a component.
pub open spec fn bounds_component(node: XmlNode) -> bool {
    match node {
        XmlNode::Start(tag, _) => named(tag, "component"@),
        XmlNode::End(tag) => named(tag, "component"@),
        _ => false,
    }
}

/// Whether events neither begin nor end a component, nor end the document.
pub open spec fn within_component(events: Seq<XmlNode>) -> bool {
    forall|i: int|
        0 <= i < events.len() ==> !bounds_component(#[trigger] events[i]) && !is_last(events[i])
}

/// Whether a value is kept: once it is there it stays.
pub open spec fn is_kept(before: Seq<char>, after: Seq<char>) -> bool {
    before.len() > 0 ==> after == before
}

/// Whether a component has kept what it had: single values stay as they were, and text and lists are
/// only continued.
pub open spec fn has_kept(d: DraftModel, e: DraftModel) -> bool {
    &&& is_kept(d.name, e.name)
    &&& is_kept(d.summary, e.summary)
    &&& is_kept(d.developer, e.developer)
    &&& is_kept(d.extends, e.extends)
    &&& is_kept(d.icon_name, e.icon_name)
    &&& is_kept(d.url_homepage, e.url_homepage)
    &&& is_kept(d.url_bugtracker, e.url_bugtracker)
    &&& is_kept(d.url_translate, e.url_translate)
    &&& is_kept(d.url_vcs, e.url_vcs)
    &&& is_kept(d.screenshot_url, e.screenshot_url)
    &&& is_kept(d.screenshot_source_url, e.screenshot_source_url)
    &&& d.description.is_prefix_of(e.description)
    &&& d.changelog.is_prefix_of(e.changelog)
    &&& d.categories.is_prefix_of(e.categories)
}

/// Only the tag of a component begins or ends one.
proof fn only_components_bound(p: Place, tag: Seq<u8>)
    requires
        !named(tag, "component"@),
    ensures
        !(opening_of(p, tag) is Component),
        !(closing_of(p, tag) is Component),
{
    reveal(opening_of);
    reveal(closing_of);
}

/// Where the first release has been read, no tag begins another one.
proof fn releases_stay_read(p: Place, tag: Seq<u8>)
    requires
        !named(tag, "component"@),
        p.first_release_read,
        !p.release,
        !p.release_notes,
    ensures
        !(opening_of(p, tag) is Component),
        !(opening_of(p, tag) is Release),
        !(opening_of(p, tag) is Notes),
        opening_of(p, tag) matches Opening::Enter(q) ==> q.first_release_read && !q.release
            && !q.release_notes,
        !(closing_of(p, tag) is Component),
        !(closing_of(p, tag) is Notes),
        closing_of(p, tag) matches Closing::Leave(q) ==> q.first_release_read && !q.release
            && !q.release_notes,
{
    reveal(opening_of);
    reveal(closing_of);
}

/// Text keeps what a component has.
proof fn text_keeps_values(
    d: DraftModel,
    p: Place,
    image_type: Seq<char>,
    url_type: Seq<char>,
    t: Seq<char>,
)
    ensures
        has_kept(d, draft_with_text(d, p, image_type, url_type, t)),
{
    let e = draft_with_text(d, p, image_type, url_type, t);
    assert(d.description.is_prefix_of(with_words(d.description, t)));
    assert(d.changelog.is_prefix_of(with_words(d.changelog, t)));
    assert(d.categories.is_prefix_of(d.categories.push(t)));
    assert(d.description.is_prefix_of(e.description));
    assert(d.changelog.is_prefix_of(e.changelog));
    assert(d.categories.is_prefix_of(e.categories));
}

/// An event within a component keeps what the component has: the first name, summary, developer,
/// icon, address of each kind and so on stay, whatever translations follow.
pub proof fn event_keeps_values(m: CatalogueModel, node: XmlNode)
    requires
        m.draft is Some,
        !bounds_component(node),
    ensures
        after_event(m, node).draft is Some,
        has_kept(m.draft->0, after_event(m, node).draft->0),
{
    let d = m.draft->0;
    match node {
        XmlNode::Start(tag, list) => {
            only_components_bound(m.place, tag);
            running_text_is_laid_out(d.description);
            running_text_is_laid_out(d.changelog);
        },
        XmlNode::End(tag) => {
            only_components_bound(m.place, tag);
            running_text_is_laid_out(d.description);
            running_text_is_laid_out(d.changelog);
        },
        XmlNode::Text(Some(text)) => {
            text_keeps_values(d, m.place, m.image_type, m.url_type, trimmed(text));
        },
        _ => {},
    }
}

/// Within a component the first value of each kind is the one that counts: what has been read stays
/// until the component ends.
pub proof fn first_values_count(m: CatalogueModel, events: Seq<XmlNode>)
    requires
        m.draft is Some,
        within_component(events),
    ensures
        after_events(m, events).draft is Some,
        has_kept(m.draft->0, after_events(m, events).draft->0),
    decreases events.len(),
{
    if events.len() > 0 {
        let node = events[0];
        assert(!bounds_component(node) && !is_last(node));
        event_keeps_values(m, node);
        let rest = events.skip(1);
        assert forall|i: int| 0 <= i < rest.len() implies !bounds_component(#[trigger] rest[i])
            && !is_last(rest[i]) by {
            assert(rest[i] == events[i + 1]);
        }
        let next = after_event(m, node);
        first_values_count(next, rest);
        let (d, e, f) = (m.draft->0, next.draft->0, after_events(m, events).draft->0);
        assert(d.description.is_prefix_of(f.description)) by {
            assert forall|i: int| 0 <= i < d.description.len() implies d.description[i]
                == f.description[i] by {
                assert(e.description[i] == d.description[i]);
            }
        }
        assert(d.changelog.is_prefix_of(f.changelog)) by {
            assert forall|i: int| 0 <= i < d.changelog.len() implies d.changelog[i]
                == f.changelog[i] by {
                assert(e.changelog[i] == d.changelog[i]);
            }
        }
        assert(d.categories.is_prefix_of(f.categories)) by {
            assert forall|i: int| 0 <= i < d.categories.len() implies d.categories[i]
                == f.categories[i] by {
                assert(e.categories[i] == d.categories[i]);
            }
        }
    }
}

/// Where the first release has been read, text leaves it as it is.
proof fn text_keeps_release(
    d: DraftModel,
    p: Place,
    image_type: Seq<char>,
    url_type: Seq<char>,
    t: Seq<char>,
)
    requires
        !p.release_notes,
    ensures
        draft_with_text(d, p, image_type, url_type, t).version == d.version,
        draft_with_text(d, p, image_type, url_type, t).version_date == d.version_date,
        draft_with_text(d, p, image_type, url_type, t).changelog == d.changelog,
{
}

/// Where the first release has been read, an event within the component leaves it as it is.
proof fn event_keeps_release(m: CatalogueModel, node: XmlNode)
    requires
        m.draft is Some,
        m.place.first_release_read,
        !m.place.release,
        !m.place.release_notes,
        !bounds_component(node),
    ensures
        after_event(m, node).draft is Some,
        after_event(m, node).draft->0.version == m.draft->0.version,
        after_event(m, node).draft->0.version_date == m.draft->0.version_date,
        after_event(m, node).draft->0.changelog == m.draft->0.changelog,
        after_event(m, node).place.first_release_read,
        !after_event(m, node).place.release,
        !after_event(m, node).place.release_notes,
{
    match node {
        XmlNode::Start(tag, _) => releases_stay_read(m.place, tag),
        XmlNode::End(tag) => releases_stay_read(m.place, tag),
        XmlNode::Text(Some(text)) => {
            text_keeps_release(m.draft->0, m.place, m.image_type, m.url_type, trimmed(text));
        },
        _ => {},
    }
}

/// The release that counts is the first one: once it has been read, no event within the component
/// changes the version, the date or the notes.
pub proof fn first_release_counts(m: CatalogueModel, events: Seq<XmlNode>)
    requires
        m.draft is Some,
        m.place.first_release_read,
        !m.place.release,
        !m.place.release_notes,
        within_component(events),
    ensures
        after_events(m, events).draft is Some,
        after_events(m, events).draft->0.version == m.draft->0.version,
        after_events(m, events).draft->0.version_date == m.draft->0.version_date,
        after_events(m, events).draft->0.changelog == m.draft->0.changelog,
    decreases events.len(),
{
    if events.len() > 0 {
        let node = events[0];
        assert(!bounds_component(node) && !is_last(node));
        event_keeps_release(m, node);
        let rest = events.skip(1);
        assert forall|i: int| 0 <= i < rest.len() implies !bounds_component(#[trigger] rest[i])
            && !is_last(rest[i]) by {
            assert(rest[i] == events[i + 1]);
        }
        first_release_counts(after_event(m, node), rest);
    }
}

/// The tags that matter are told apart by their length and their first letter.
proof fn tags_differ()
    ensures
        "component"@.len() == 9 && "component"@[0] == 'c',
        "id"@.len() == 2 && "id"@[0] == 'i',
        "name"@.len() == 4 && "name"@[0] == 'n',
        "summary"@.len() == 7 && "summary"@[0] == 's',
        "description"@.len() == 11 && "description"@[0] == 'd',
        "url"@.len() == 3 && "url"@[0] == 'u',
        "releases"@.len() == 8 && "releases"@[0] == 'r',
        "release"@.len() == 7 && "release"@[0] == 'r',
        "li"@.len() == 2 && "li"@[0] == 'l',
        "developer"@.len() == 9 && "developer"@[0] == 'd',
        "categories"@.len() == 10 && "categories"@[0] == 'c',
        "category"@.len() == 8 && "category"@[0] == 'c',
        "extends"@.len() == 7 && "extends"@[0] == 'e',
        "screenshots"@.len() == 11 && "screenshots"@[0] == 's',
        "screenshot"@.len() == 10 && "screenshot"@[0] == 's',
        "image"@.len() == 5 && "image"@[0] == 'i',
        "icon"@.len() == 4 && "icon"@[0] == 'i',
        "p"@.len() == 1 && "p"@[0] == 'p',
        "ul"@.len() == 2 && "ul"@[0] == 'u',
        "ol"@.len() == 2 && "ol"@[0] == 'o',
{
    reveal_strlit("component");
    reveal_strlit("id");
    reveal_strlit("name");
    reveal_strlit("summary");
    reveal_strlit("description");
    reveal_strlit("url");
    reveal_strlit("releases");
    reveal_strlit("release");
    reveal_strlit("li");
    reveal_strlit("developer");
    reveal_strlit("categories");
    reveal_strlit("category");
    reveal_strlit("extends");
    reveal_strlit("screenshots");
    reveal_strlit("screenshot");
    reveal_strlit("image");
    reveal_strlit("icon");
    reveal_strlit("p");
    reveal_strlit("ul");
    reveal_strlit("ol");
}

/// A tag that is one of the words is none of the others.
proof fn tag_is(tag: Seq<u8>, word: Seq<char>)
    requires
        named(tag, word),
    ensures
        named(tag, "component"@) == (word == "component"@),
        named(tag, "id"@) == (word == "id"@),
        named(tag, "name"@) == (word == "name"@),
        named(tag, "summary"@) == (word == "summary"@),
        named(tag, "description"@) == (word == "description"@),
        named(tag, "url"@) == (word == "url"@),
        named(tag, "releases"@) == (word == "releases"@),
        named(tag, "release"@) == (word == "release"@),
        named(tag, "li"@) == (word == "li"@),
        named(tag, "developer"@) == (word == "developer"@),
        named(tag, "categories"@) == (word == "categories"@),
        named(tag, "category"@) == (word == "category"@),
        named(tag, "extends"@) == (word == "extends"@),
        named(tag, "screenshots"@) == (word == "screenshots"@),
        named(tag, "screenshot"@) == (word == "screenshot"@),
        named(tag, "image"@) == (word == "image"@),
        named(tag, "icon"@) == (word == "icon"@),
        named(tag, "p"@) == (word == "p"@),
        named(tag, "ul"@) == (word == "ul"@),
        named(tag, "ol"@) == (word == "ol"@),
{
    if named(tag, "component"@) {
        names_are_single(tag, word, "component"@);
    }
    if named(tag, "id"@) {
        names_are_single(tag, word, "id"@);
    }
    if named(tag, "name"@) {
        names_are_single(tag, word, "name"@);
    }
    if named(tag, "summary"@) {
        names_are_single(tag, word, "summary"@);
    }
    if named(tag, "description"@) {
        names_are_single(tag, word, "description"@);
    }
    if named(tag, "url"@) {
        names_are_single(tag, word, "url"@);
    }
    if named(tag, "releases"@) {
        names_are_single(tag, word, "releases"@);
    }
    if named(tag, "release"@) {
        names_are_single(tag, word, "release"@);
    }
    if named(tag, "li"@) {
        names_are_single(tag, word, "li"@);
    }
    if named(tag, "developer"@) {
        names_are_single(tag, word, "developer"@);
    }
    if named(tag, "categories"@) {
        names_are_single(tag, word, "categories"@);
    }
    if named(tag, "category"@) {
        names_are_single(tag, word, "category"@);
    }
    if named(tag, "extends"@) {
        names_are_single(tag, word, "extends"@);
    }
    if named(tag, "screenshots"@) {
        names_are_single(tag, word, "screenshots"@);
    }
    if named(tag, "screenshot"@) {
        names_are_single(tag, word, "screenshot"@);
    }
    if named(tag, "image"@) {
        names_are_single(tag, word, "image"@);
    }
    if named(tag, "icon"@) {
        names_are_single(tag, word, "icon"@);
    }
    if named(tag, "p"@) {
        names_are_single(tag, word, "p"@);
    }
    if named(tag, "ul"@) {
        names_are_single(tag, word, "ul"@);
    }
    if named(tag, "ol"@) {
        names_are_single(tag, word, "ol"@);
    }
}

/// Whether a place is right within a component, with no other element open.
pub open spec fn right_within(p: Place) -> bool {
    p == (Place { component: true, first_release_read: p.first_release_read, ..outermost() })
}

/// The events of an element that holds only text.
pub open spec fn element(
    tag: Seq<u8>,
    list: Seq<Option<AttributeModel>>,
    text: Seq<char>,
) -> Seq<XmlNode> {
    seq![XmlNode::Start(tag, list), XmlNode::Text(Some(text)), XmlNode::End(tag)]
}

/// The events of an element that holds others.
pub open spec fn surrounded(tag: Seq<u8>, inner: Seq<XmlNode>) -> Seq<XmlNode> {
    seq![XmlNode::Start(tag, seq![])] + inner + seq![XmlNode::End(tag)]
}

/// Events are read one after the other.
pub proof fn events_follow(m: CatalogueModel, a: Seq<XmlNode>, b: Seq<XmlNode>)
    requires
        forall|i: int| 0 <= i < a.len() ==> !is_last(#[trigger] a[i]),
    ensures
        after_events(m, a + b) == after_events(after_events(m, a), b),
    decreases a.len(),
{
    if a.len() == 0 {
        assert(a + b =~= b);
    } else {
        assert(!is_last(a[0]));
        let rest = a.skip(1);
        assert forall|i: int| 0 <= i < rest.len() implies !is_last(#[trigger] rest[i]) by {
            assert(rest[i] == a[i + 1]);
        }
        assert((a + b).skip(1) =~= rest + b);
        assert((a + b)[0] == a[0]);
        events_follow(after_event(m, a[0]), rest, b);
    }
}

proof fn one_event(m: CatalogueModel, node: XmlNode)
    requires
        !is_last(node),
    ensures
        after_events(m, seq![node]) == after_event(m, node),
{
    let one = seq![node];
    assert(one.skip(1) =~= Seq::<XmlNode>::empty());
    assert(after_events(after_event(m, node), one.skip(1)) == after_event(m, node));
}

proof fn element_events(
    m: CatalogueModel,
    tag: Seq<u8>,
    list: Seq<Option<AttributeModel>>,
    text: Seq<char>,
)
    ensures
        after_events(m, element(tag, list, text)) == after_event(
            after_event(after_event(m, XmlNode::Start(tag, list)), XmlNode::Text(Some(text))),
            XmlNode::End(tag),
        ),
{
    let (a, b, c) = (
        XmlNode::Start(tag, list),
        XmlNode::Text(Some(text)),
        XmlNode::End(tag),
    );
    assert(element(tag, list, text) =~= seq![a] + (seq![b] + seq![c]));
    events_follow(m, seq![a], seq![b] + seq![c]);
    one_event(m, a);
    let n = after_event(m, a);
    events_follow(n, seq![b], seq![c]);
    one_event(n, b);
    one_event(after_event(n, b), c);
}

proof fn surrounded_events(m: CatalogueModel, tag: Seq<u8>, inner: Seq<XmlNode>)
    requires
        forall|i: int| 0 <= i < inner.len() ==> !is_last(#[trigger] inner[i]),
    ensures
        after_events(m, surrounded(tag, inner)) == after_event(
            after_events(after_event(m, XmlNode::Start(tag, seq![])), inner),
            XmlNode::End(tag),
        ),
{
    let (a, c) = (XmlNode::Start(tag, seq![]), XmlNode::End(tag));
    assert(surrounded(tag, inner) =~= seq![a] + (inner + seq![c]));
    events_follow(m, seq![a], inner + seq![c]);
    one_event(m, a);
    let n = after_event(m, a);
    events_follow(n, inner, seq![c]);
    one_event(after_events(n, inner), c);
}

/// What a component has from its elements: the identifier, the first name, summary, developer and
/// base application, as trimmed text.
#[verifier::rlimit(40)]
#[verifier::spinoff_prover]
pub proof fn elements_are_read(
    m: CatalogueModel,
    tag: Seq<u8>,
    list: Seq<Option<AttributeModel>>,
    text: Seq<char>,
)
    requires
        right_within(m.place),
        m.draft is Some,
    ensures
        named(tag, "id"@) ==> after_events(m, element(tag, list, text)) == (CatalogueModel {
            draft: Some(DraftModel { app_id: trimmed(text), ..m.draft->0 }),
            ..m
        }),
        named(tag, "name"@) && m.draft->0.name.len() == 0 ==> after_events(
            m,
            element(tag, list, text),
        ) == (CatalogueModel {
            draft: Some(DraftModel { name: trimmed(text), ..m.draft->0 }),
            ..m
        }),
        named(tag, "summary"@) && m.draft->0.summary.len() == 0 ==> after_events(
            m,
            element(tag, list, text),
        ) == (CatalogueModel {
            draft: Some(DraftModel { summary: trimmed(text), ..m.draft->0 }),
            ..m
        }),
        named(tag, "extends"@) && m.draft->0.extends.len() == 0 ==> after_events(
            m,
            element(tag, list, text),
        ) == (CatalogueModel {
            draft: Some(DraftModel { extends: trimmed(text), ..m.draft->0 }),
            ..m
        }),
        named(tag, "icon"@) && icon_wanted(list) && m.draft->0.icon_name.len() == 0
            ==> after_events(m, element(tag, list, text)) == (CatalogueModel {
            draft: Some(DraftModel { icon_name: trimmed(text), ..m.draft->0 }),
            ..m
        }),
        named(tag, "icon"@) && !icon_wanted(list) ==> after_events(m, element(tag, list, text))
            == m,
{
    reveal(opening_of);
    reveal(closing_of);
    element_events(m, tag, list, text);
    tags_differ();
    if named(tag, "id"@) {
        tag_is(tag, "id"@);
    } else if named(tag, "name"@) {
        tag_is(tag, "name"@);
    } else if named(tag, "summary"@) {
        tag_is(tag, "summary"@);
    } else if named(tag, "extends"@) {
        tag_is(tag, "extends"@);
    } else if named(tag, "icon"@) {
        tag_is(tag, "icon"@);
    }
}

/// Every kind of link is kept where it belongs: the first address of the kind, as trimmed text.
#[verifier::rlimit(40)]
#[verifier::spinoff_prover]
pub proof fn links_are_read(
    m: CatalogueModel,
    tag: Seq<u8>,
    list: Seq<Option<AttributeModel>>,
    text: Seq<char>,
)
    requires
        right_within(m.place),
        m.draft is Some,
        named(tag, "url"@),
    ensures
        ({
            let kind = attribute_text(list, "type"@, seq![]);
            let d = m.draft->0;
            let after = after_events(m, element(tag, list, text));
            &&& after.place == m.place
            &&& after.apps == m.apps
            &&& kind == "homepage"@ && d.url_homepage.len() == 0 ==> after.draft == Some(
                DraftModel { url_homepage: trimmed(text), ..d },
            )
            &&& kind == "bugtracker"@ && d.url_bugtracker.len() == 0 ==> after.draft == Some(
                DraftModel { url_bugtracker: trimmed(text), ..d },
            )
            &&& kind == "translate"@ && d.url_translate.len() == 0 ==> after.draft == Some(
                DraftModel { url_translate: trimmed(text), ..d },
            )
            &&& kind == "vcs-browser"@ && d.url_vcs.len() == 0 ==> after.draft == Some(
                DraftModel { url_vcs: trimmed(text), ..d },
            )
        }),
{
    reveal(opening_of);
    reveal(closing_of);
    element_events(m, tag, list, text);
    tags_differ();
    tag_is(tag, "url"@);
    reveal_strlit("homepage");
    reveal_strlit("bugtracker");
    reveal_strlit("translate");
    reveal_strlit("vcs-browser");
    assert("homepage"@.len() == 8 && "bugtracker"@.len() == 10 && "translate"@.len() == 9
        && "vcs-browser"@.len() == 11);
}

/// The developer of a component is the first name within the element of that name, and no name of
/// the component.
#[verifier::rlimit(40)]
#[verifier::spinoff_prover]
pub proof fn developers_are_read(
    m: CatalogueModel,
    outer: Seq<u8>,
    tag: Seq<u8>,
    list: Seq<Option<AttributeModel>>,
    text: Seq<char>,
)
    requires
        right_within(m.place),
        m.draft is Some,
        named(outer, "developer"@),
        named(tag, "name"@),
        m.draft->0.developer.len() == 0,
    ensures
        after_events(m, surrounded(outer, element(tag, list, text))) == (CatalogueModel {
            draft: Some(DraftModel { developer: trimmed(text), ..m.draft->0 }),
            ..m
        }),
{
    reveal(opening_of);
    reveal(closing_of);
    let inner = element(tag, list, text);
    assert forall|i: int| 0 <= i < inner.len() implies !is_last(#[trigger] inner[i]) by {
        assert(i == 0 || i == 1 || i == 2);
    }
    surrounded_events(m, outer, inner);
    tags_differ();
    tag_is(tag, "name"@);
    tag_is(outer, "developer"@);
    element_events(after_event(m, XmlNode::Start(outer, seq![])), tag, list, text);
}

/// Every category of a component is kept, in the order of the document.
#[verifier::rlimit(40)]
#[verifier::spinoff_prover]
pub proof fn categories_are_read(
    m: CatalogueModel,
    outer: Seq<u8>,
    tag: Seq<u8>,
    list: Seq<Option<AttributeModel>>,
    text: Seq<char>,
)
    requires
        right_within(m.place),
        m.draft is Some,
        named(outer, "categories"@),
        named(tag, "category"@),
    ensures
        after_events(m, surrounded(outer, element(tag, list, text))) == (CatalogueModel {
            draft: Some(
                DraftModel { categories: m.draft->0.categories.push(trimmed(text)), ..m.draft->0 },
            ),
            ..m
        }),
{
    reveal(opening_of);
    reveal(closing_of);
    let inner = element(tag, list, text);
    assert forall|i: int| 0 <= i < inner.len() implies !is_last(#[trigger] inner[i]) by {
        assert(i == 0 || i == 1 || i == 2);
    }
    surrounded_events(m, outer, inner);
    tags_differ();
    tag_is(tag, "category"@);
    tag_is(outer, "categories"@);
    element_events(after_event(m, XmlNode::Start(outer, seq![])), tag, list, text);
}

/// A component with an identifier becomes an application with the values that were read; one without
/// is left out.
pub proof fn components_become_applications(m: CatalogueModel, tag: Seq<u8>)
    requires
        named(tag, "component"@),
        m.draft is Some,
    ensures
        ({
            let d = m.draft->0;
            let apps = after_event(m, XmlNode::End(tag)).apps;
            &&& d.app_id.len() == 0 ==> apps == m.apps
            &&& d.app_id.len() > 0 ==> apps.len() == m.apps.len() + 1 && m.apps.is_prefix_of(apps)
            &&& d.app_id.len() > 0 ==> {
                let a = apps.last();
                &&& a.app_id == d.app_id
                &&& a.name == d.name
                &&& a.summary == d.summary
                &&& a.categories == d.categories
                &&& a.developer == d.developer
                &&& a.icon_name == d.icon_name
                &&& a.extends == d.extends
                &&& a.url_homepage == d.url_homepage
                &&& a.url_bugtracker == d.url_bugtracker
                &&& a.url_translate == d.url_translate
                &&& a.url_vcs == d.url_vcs
                &&& a.version == d.version
                &&& a.version_date == d.version_date
                &&& a.description == description_text(d.description)
                &&& a.changelog == description_text(d.changelog)
                &&& d.screenshot_url.len() > 0 ==> a.screenshot_url == d.screenshot_url
                &&& d.screenshot_url.len() == 0 ==> a.screenshot_url == d.screenshot_source_url
            }
        }),
{
    reveal(closing_of);
}

/// Pieces of running text follow one another with white space between them.
pub proof fn words_do_not_run_together(s: Seq<char>, t: Seq<char>)
    requires
        t.len() > 0,
    ensures
        s.is_prefix_of(with_words(s, t)),
        with_words(s, t).skip(with_words(s, t).len() - t.len()) == t,
        with_words(s, t).len() <= s.len() + t.len() + 1,
        s.len() > 0 ==> {
            let before = with_words(s, t)[with_words(s, t).len() - t.len() - 1];
            before == ' ' || before == '\n'
        },
        s.len() == 0 ==> with_words(s, t) == t,
{
    let w = with_words(s, t);
    assert(w.skip(w.len() - t.len()) =~= t);
    assert(s.is_prefix_of(w));
    if s.len() == 0 {
        assert(w =~= t);
    }
}

/// Items of a list stand on lines of their own, behind a mark, and paragraphs end with a blank line.
pub proof fn running_text_is_laid_out(s: Seq<char>)
    ensures
        with_bullet(s).skip(with_bullet(s).len() - 2) == "• "@,
        s.len() > 0 ==> with_bullet(s)[with_bullet(s).len() - 3] == '\n',
        at_line_start(with_line_end(s)),
        s.len() > 0 ==> with_paragraph_end(s).len() >= 2 && with_paragraph_end(s).last() == '\n'
            && with_paragraph_end(s)[with_paragraph_end(s).len() - 2] == '\n',
        with_list_end(s).len() >= 2 && with_list_end(s).last() == '\n' && with_list_end(s)[
            with_list_end(s).len() - 2
        ] == '\n',
        s.is_prefix_of(with_bullet(s)),
        s.is_prefix_of(with_line_end(s)),
        s.is_prefix_of(with_paragraph_end(s)),
        s.is_prefix_of(with_list_end(s)),
{
    reveal_strlit("• ");
    let b = with_bullet(s);
    assert(b.skip(b.len() - 2) =~= "• "@);
}

/// The description of a component is the text of its paragraphs: an element within the description
/// adds its trimmed text.
#[verifier::rlimit(40)]
#[verifier::spinoff_prover]
pub proof fn paragraphs_are_read(
    m: CatalogueModel,
    outer: Seq<u8>,
    tag: Seq<u8>,
    text: Seq<char>,
)
    requires
        right_within(m.place),
        m.draft is Some,
        named(outer, "description"@),
        named(tag, "p"@),
        trimmed(text).len() > 0,
    ensures
        after_events(m, surrounded(outer, element(tag, seq![], text))) == (CatalogueModel {
            draft: Some(
                DraftModel {
                    description: with_paragraph_end(
                        with_words(m.draft->0.description, trimmed(text)),
                    ),
                    ..m.draft->0
                },
            ),
            ..m
        }),
{
    reveal(opening_of);
    reveal(closing_of);
    let inner = element(tag, seq![], text);
    assert forall|i: int| 0 <= i < inner.len() implies !is_last(#[trigger] inner[i]) by {
        assert(i == 0 || i == 1 || i == 2);
    }
    surrounded_events(m, outer, inner);
    tags_differ();
    tag_is(tag, "p"@);
    tag_is(outer, "description"@);
    element_events(after_event(m, XmlNode::Start(outer, seq![])), tag, seq![], text);
}

/// The first release of a component gives its version and its date.
#[verifier::rlimit(40)]
#[verifier::spinoff_prover]
pub proof fn releases_are_read(
    m: CatalogueModel,
    outer: Seq<u8>,
    tag: Seq<u8>,
    list: Seq<Option<AttributeModel>>,
)
    requires
        right_within(m.place),
        m.draft is Some,
        named(outer, "releases"@),
        named(tag, "release"@),
    ensures
        ({
            let open = after_event(m, XmlNode::Start(outer, seq![]));
            let after = after_event(
                after_event(open, XmlNode::Start(tag, list)),
                XmlNode::End(tag),
            );
            &&& m.place.first_release_read ==> after.draft == m.draft
            &&& !m.place.first_release_read ==> after.place.first_release_read && after.draft
                == Some(
                DraftModel {
                    version: attribute_text(list, "version"@, m.draft->0.version),
                    version_date: attribute_text(list, "date"@, m.draft->0.version_date),
                    ..m.draft->0
                },
            )
        }),
{
    reveal(opening_of);
    reveal(closing_of);
    tags_differ();
    tag_is(tag, "release"@);
    tag_is(outer, "releases"@);
}

/// The picture of a component is the first thumbnail of the wanted size; the first full-size picture
/// is kept beside it.
pub proof fn pictures_are_chosen(d: DraftModel, kind: Seq<char>, address: Seq<char>)
    ensures
        kind == "thumbnail"@ && d.screenshot_url.len() == 0 && holds(address, "624x351"@)
            ==> draft_with_picture(d, kind, address) == (DraftModel {
            screenshot_url: address,
            ..d
        }),
        kind == "source"@ && d.screenshot_source_url.len() == 0 ==> draft_with_picture(
            d,
            kind,
            address,
        ) == (DraftModel { screenshot_source_url: address, ..d }),
        kind != "thumbnail"@ && kind != "source"@ ==> draft_with_picture(d, kind, address) == d,
        kind == "thumbnail"@ && !holds(address, "624x351"@) ==> draft_with_picture(d, kind, address)
            == d,
{
    reveal_strlit("thumbnail");
    reveal_strlit("source");
    assert("thumbnail"@.len() == 9 && "source"@.len() == 6);
}

/// Of attributes with one name, the last one counts.
pub proof fn last_attribute_counts(
    list: Seq<Option<AttributeModel>>,
    a: AttributeModel,
    word: Seq<char>,
)
    ensures
        named(a.key, word) ==> attribute(list.push(Some(a)), word) == Some(a.value),
        !named(a.key, word) ==> attribute(list.push(Some(a)), word) == attribute(list, word),
        attribute(list.push(None), word) == attribute(list, word),
{
    assert(list.push(Some(a)).drop_last() =~= list);
    assert(list.push(None).drop_last() =~= list);
}

} // verus!
