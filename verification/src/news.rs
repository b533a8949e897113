//! The news feed of Arch Linux.
use vstd::prelude::*;
use vstd::slice::slice_subrange;

use crate::html::{html_text, strip_html};
use crate::text::{from_chars, own, pieces, pieces_follow, run_len_bound, spaces, split_char,
    split_on, tail_run_len_bound, to_chars, trim, trim_end, trim_text, trimmed, trimmed_end,
    trimmed_start};
use crate::xml::{is_last, lossy, lossy_text, name_is, named, names_are_single, nodes, read_events,
    xml_events, AttributeModel, XmlEvent, XmlNode};

verus! {

/// An item of the feed.
#[derive(Debug, Clone)]
pub struct ArchNewsItem {
    pub title: String,
    pub date: String,
    pub link: String,
    pub summary: String,
}

/// The contents of an item of the feed.
pub struct NewsModel {
    pub title: Seq<char>,
    pub date: Seq<char>,
    pub link: Seq<char>,
    pub summary: Seq<char>,
}

impl View for ArchNewsItem {
    type V = NewsModel;

    open spec fn view(&self) -> NewsModel {
        NewsModel {
            title: self.title@,
            date: self.date@,
            link: self.link@,
            summary: self.summary@,
        }
    }
}

/// The contents of a list of items.
pub open spec fn news_models(items: Seq<ArchNewsItem>) -> Seq<NewsModel> {
    items.map_values(|n: ArchNewsItem| n@)
}

/// The day of a date such as `Mon, 07 Apr 2025 00:00:00 +0000`: its second to fourth words, or all
/// of the text where it has fewer words.
pub open spec fn feed_date(s: Seq<char>) -> Seq<char> {
    let p = split_on(s, ' ');
    if p.len() >= 4 {
        p[1] + " "@ + p[2] + " "@ + p[3]
    } else {
        s
    }
}

/// The day of a date of the feed.
pub fn short_date(text: &str) -> (out: String)
    ensures
        out@ == feed_date(text@),
{
    let chars = to_chars(text);
    let p = split_char(chars.as_slice(), ' ');
    let ghost all = pieces(p@);
    if p.len() >= 4 {
        let mut out = from_chars(p[1].as_slice());
        out.append(" ");
        out.append(from_chars(p[2].as_slice()).as_str());
        out.append(" ");
        out.append(from_chars(p[3].as_slice()).as_str());
        proof {
            assert(all[1] == p@[1]@ && all[2] == p@[2]@ && all[3] == p@[3]@);
        }
        out
    } else {
        own(text)
    }
}

/// A description cut to a reasonable length: at most 400 characters and a mark that some are left
/// out.
pub open spec fn summary_of(s: Seq<char>) -> Seq<char> {
    if s.len() > 400 {
        trimmed_end(s.take(400)) + "…"@
    } else {
        trimmed(s)
    }
}

/// A description cut to a reasonable length.
pub fn summarize(description: &str) -> (out: String)
    ensures
        out@ == summary_of(description@),
{
    let chars = to_chars(description);
    let s = chars.as_slice();
    if s.len() > 400 {
        let cut = slice_subrange(s, 0, 400);
        proof {
            assert(cut@ =~= s@.take(400));
        }
        let mut out = from_chars(trim_end(cut));
        out.append("…");
        out
    } else {
        from_chars(trim(s))
    }
}

/// What has been read of the feed.
#[derive(Debug)]
pub struct Feed {
    pub in_item: bool,
    pub tag: Vec<u8>,
    pub title: String,
    pub date: String,
    pub link: String,
    pub description: String,
    pub items: Vec<ArchNewsItem>,
}

/// What has been read of the feed.
pub struct FeedModel {
    pub in_item: bool,
    pub tag: Seq<u8>,
    pub title: Seq<char>,
    pub date: Seq<char>,
    pub link: Seq<char>,
    pub description: Seq<char>,
    pub items: Seq<NewsModel>,
}

impl View for Feed {
    type V = FeedModel;

    open spec fn view(&self) -> FeedModel {
        FeedModel {
            in_item: self.in_item,
            tag: self.tag@,
            title: self.title@,
            date: self.date@,
            link: self.link@,
            description: self.description@,
            items: news_models(self.items@),
        }
    }
}

/// Before anything has been read.
pub open spec fn empty_feed() -> FeedModel {
    FeedModel {
        in_item: false,
        tag: seq![],
        title: seq![],
        date: seq![],
        link: seq![],
        description: seq![],
        items: seq![],
    }
}

/// The item that has been read.
pub open spec fn item_of(m: FeedModel) -> NewsModel {
    NewsModel {
        title: trimmed(m.title),
        date: trimmed(m.date),
        link: trimmed(m.link),
        summary: summary_of(m.description),
    }
}

/// After text in the element `m.tag`.
pub open spec fn feed_with_text(m: FeedModel, text: Seq<char>) -> FeedModel {
    if !m.in_item {
        m
    } else if named(m.tag, "title"@) {
        FeedModel { title: text, ..m }
    } else if named(m.tag, "pubDate"@) {
        FeedModel { date: feed_date(text), ..m }
    } else if named(m.tag, "link"@) {
        FeedModel { link: text, ..m }
    } else if named(m.tag, "description"@) {
        FeedModel { description: html_text(text), ..m }
    } else {
        m
    }
}

/// After an event. A new item starts without contents; text belongs to the element opened last.
pub open spec fn feed_after(m: FeedModel, node: XmlNode) -> FeedModel {
    match node {
        XmlNode::Start(tag, _) => if named(tag, "item"@) {
            FeedModel {
                in_item: true,
                tag,
                title: seq![],
                date: seq![],
                link: seq![],
                description: seq![],
                items: m.items,
            }
        } else {
            FeedModel { tag, ..m }
        },
        XmlNode::Text(text) => feed_with_text(
            m,
            match text {
                Some(t) => t,
                None => seq![],
            },
        ),
        XmlNode::CData(bytes) => if m.in_item && named(m.tag, "description"@) {
            FeedModel { description: html_text(lossy_text(bytes)), ..m }
        } else {
            m
        },
        XmlNode::End(tag) => if named(tag, "item"@) && m.in_item {
            FeedModel { in_item: false, tag: seq![], items: m.items.push(item_of(m)), ..m }
        } else {
            FeedModel { tag: seq![], ..m }
        },
        _ => m,
    }
}

/// After the events up to the end of the feed or an error.
pub open spec fn feed_after_events(m: FeedModel, events: Seq<XmlNode>) -> FeedModel
    decreases events.len(),
{
    if events.len() == 0 || is_last(events[0]) {
        m
    } else {
        feed_after_events(feed_after(m, events[0]), events.skip(1))
    }
}

/// The items that the events of a feed describe.
pub open spec fn news_of(events: Seq<XmlNode>) -> Seq<NewsModel> {
    feed_after_events(empty_feed(), events).items
}

fn copy_bytes(bytes: &Vec<u8>) -> (out: Vec<u8>)
    ensures
        out@ == bytes@,
{
    vstd::slice::slice_to_vec(bytes.as_slice())
}

impl Feed {
    /// Nothing has been read.
    pub fn new() -> (f: Feed)
        ensures
            f@ == empty_feed(),
    {
        let f = Feed {
            in_item: false,
            tag: Vec::new(),
            title: String::new(),
            date: String::new(),
            link: String::new(),
            description: String::new(),
            items: Vec::new(),
        };
        proof {
            assert(f@.items =~= seq![]);
            assert(f@.tag =~= seq![]);
        }
        f
    }

    fn text(self, text: String) -> (f: Feed)
        ensures
            f@ == feed_with_text(self@, text@),
    {
        let tag = self.tag.as_slice();
        if !self.in_item {
            self
        } else if name_is(tag, "title") {
            Feed { title: text, ..self }
        } else if name_is(tag, "pubDate") {
            Feed { date: short_date(text.as_str()), ..self }
        } else if name_is(tag, "link") {
            Feed { link: text, ..self }
        } else if name_is(tag, "description") {
            Feed { description: strip_html(text.as_str()), ..self }
        } else {
            self
        }
    }

    fn start(self, tag: &Vec<u8>) -> (f: Feed)
        ensures
            forall|a| f@ == #[trigger] feed_after(self@, XmlNode::Start(tag@, a)),
    {
        if name_is(tag.as_slice(), "item") {
            Feed {
                in_item: true,
                tag: copy_bytes(tag),
                title: String::new(),
                date: String::new(),
                link: String::new(),
                description: String::new(),
                items: self.items,
            }
        } else {
            Feed { tag: copy_bytes(tag), ..self }
        }
    }

    fn end(self, tag: &Vec<u8>) -> (f: Feed)
        ensures
            f@ == feed_after(self@, XmlNode::End(tag@)),
    {
        let ghost before = self@;
        let empty: Vec<u8> = Vec::new();
        proof {
            assert(empty@ =~= seq![]);
        }
        if name_is(tag.as_slice(), "item") && self.in_item {
            let item = ArchNewsItem {
                title: trim_text(self.title.as_str()),
                date: trim_text(self.date.as_str()),
                link: trim_text(self.link.as_str()),
                summary: summarize(self.description.as_str()),
            };
            let mut items = self.items;
            items.push(item);
            proof {
                assert(news_models(items@) =~= before.items.push(item_of(before)));
            }
            Feed {
                in_item: false,
                tag: empty,
                title: self.title,
                date: self.date,
                link: self.link,
                description: self.description,
                items,
            }
        } else {
            Feed { tag: empty, ..self }
        }
    }

    /// Takes in one event.
    pub fn event(self, event: &XmlEvent) -> (f: Feed)
        ensures
            f@ == feed_after(self@, event@),
    {
        match event {
            XmlEvent::Start(tag, _) => self.start(tag),
            XmlEvent::End(tag) => self.end(tag),
            XmlEvent::Text(text) => {
                let t = match text {
                    Some(t) => own(t.as_str()),
                    None => String::new(),
                };
                self.text(t)
            },
            XmlEvent::CData(bytes) => {
                if self.in_item && name_is(self.tag.as_slice(), "description") {
                    let text = lossy(bytes.as_slice());
                    Feed { description: strip_html(text.as_str()), ..self }
                } else {
                    self
                }
            },
            _ => self,
        }
    }
}

/// The items that a list of events describes, up to the end of the feed or an error.
pub fn news_from_events(events: &[XmlEvent]) -> (items: Vec<ArchNewsItem>)
    ensures
        news_models(items@) == news_of(nodes(events@)),
{
    let mut f = Feed::new();
    let ghost all = nodes(events@);
    let mut i: usize = 0;
    proof {
        assert(all.skip(0) =~= all);
    }
    while i < events.len()
        invariant
            i <= events@.len(),
            all == nodes(events@),
            feed_after_events(f@, all.skip(i as int)) == feed_after_events(empty_feed(), all),
        ensures
            f@ == feed_after_events(empty_feed(), all),
        decreases events@.len() - i,
    {
        proof {
            assert(all.skip(i as int)[0] == events@[i as int]@);
            assert(all.skip(i as int).skip(1) =~= all.skip(i + 1));
        }
        if matches!(events[i], XmlEvent::Eof | XmlEvent::Failure) {
            break;
        }
        f = f.event(&events[i]);
        i = i + 1;
    }
    f.items
}

/// Reads the items of the feed.
pub fn parse_arch_rss(xml: &str) -> (items: Vec<ArchNewsItem>)
    ensures
        news_models(items@) == news_of(xml_events(vstd::utf8::encode_utf8(xml@))),
{
    let events = read_events(xml.as_bytes());
    news_from_events(events.as_slice())
}

// ---------------------------------------------------------------------------
// Laws

/// The summary of an item has at most 401 characters, whatever the description.
pub proof fn summary_is_short(s: Seq<char>)
    ensures
        summary_of(s).len() <= 401,
{
    reveal_strlit("…");
    if s.len() > 400 {
        tail_run_len_bound(s.take(400), spaces());
    } else {
        run_len_bound(s, spaces());
        tail_run_len_bound(trimmed_start(s), spaces());
    }
}

/// Reading never takes an item away.
pub proof fn items_are_kept(m: FeedModel, events: Seq<XmlNode>)
    ensures
        m.items.is_prefix_of(feed_after_events(m, events).items),
    decreases events.len(),
{
    if events.len() > 0 && !is_last(events[0]) {
        items_are_kept(feed_after(m, events[0]), events.skip(1));
    }
}

/// The date of an item is the day, the month and the year of its full date.
pub proof fn dates_are_shortened(
    weekday: Seq<char>,
    day: Seq<char>,
    month: Seq<char>,
    year: Seq<char>,
    rest: Seq<char>,
)
    requires
        !weekday.contains(' '),
        !day.contains(' '),
        !month.contains(' '),
        !year.contains(' '),
    ensures
        feed_date(
            weekday.push(' ') + (day.push(' ') + (month.push(' ') + (year.push(' ') + rest))),
        ) == day + " "@ + month + " "@ + year,
{
    let a = year.push(' ') + rest;
    let b = month.push(' ') + a;
    let c = day.push(' ') + b;
    pieces_follow(weekday, ' ', c);
    pieces_follow(day, ' ', b);
    pieces_follow(month, ' ', a);
    pieces_follow(year, ' ', rest);
    let p = split_on(weekday.push(' ') + c, ' ');
    assert(p[0] == weekday && p[1] == day && p[2] == month && p[3] == year);
}

/// The tags of an item are told apart.
proof fn item_tags_differ(tag: Seq<u8>)
    ensures
        named(tag, "title"@) ==> !named(tag, "pubDate"@) && !named(tag, "link"@) && !named(
            tag,
            "description"@,
        ) && !named(tag, "item"@),
        named(tag, "pubDate"@) ==> !named(tag, "link"@) && !named(tag, "description"@) && !named(
            tag,
            "item"@,
        ),
        named(tag, "link"@) ==> !named(tag, "description"@) && !named(tag, "item"@),
        named(tag, "description"@) ==> !named(tag, "item"@),
{
    reveal_strlit("title");
    reveal_strlit("pubDate");
    reveal_strlit("link");
    reveal_strlit("description");
    reveal_strlit("item");
    assert("title"@.len() == 5 && "pubDate"@.len() == 7 && "link"@.len() == 4
        && "description"@.len() == 11 && "item"@.len() == 4);
    assert("link"@[0] == 'l' && "item"@[0] == 'i');
    let words = seq!["title"@, "pubDate"@, "link"@, "description"@, "item"@];
    assert forall|i: int, j: int|
        0 <= i < 5 && 0 <= j < 5 && named(tag, #[trigger] words[i]) && named(
            tag,
            #[trigger] words[j],
        ) implies words[i] == words[j] by {
        names_are_single(tag, words[i], words[j]);
    }
    assert(words[0] == "title"@ && words[1] == "pubDate"@ && words[2] == "link"@ && words[3]
        == "description"@ && words[4] == "item"@);
}

/// Within an item, text belongs to the element around it: the title, the date, the address or the
/// description; outside an item it does not count.
pub proof fn item_elements_are_read(
    m: FeedModel,
    tag: Seq<u8>,
    list: Seq<Option<AttributeModel>>,
    text: Seq<char>,
)
    requires
        !named(tag, "item"@),
    ensures
        ({
            let after = feed_after(
                feed_after(
                    feed_after(m, XmlNode::Start(tag, list)),
                    XmlNode::Text(Some(text)),
                ),
                XmlNode::End(tag),
            );
            &&& after.items == m.items
            &&& after.in_item == m.in_item
            &&& m.in_item && named(tag, "title"@) ==> after.title == text && after.date == m.date
                && after.link == m.link && after.description == m.description
            &&& m.in_item && named(tag, "pubDate"@) ==> after.date == feed_date(text)
                && after.title == m.title && after.link == m.link
            &&& m.in_item && named(tag, "link"@) ==> after.link == text && after.title == m.title
                && after.date == m.date
            &&& m.in_item && named(tag, "description"@) ==> after.description == html_text(text)
                && after.title == m.title
            &&& !m.in_item ==> after.title == m.title && after.date == m.date && after.link
                == m.link && after.description == m.description
        }),
{
    item_tags_differ(tag);
}

/// An item that ends is added behind the others, with what was read of it; the next one starts without
/// any of it.
pub proof fn items_follow(m: FeedModel, tag: Seq<u8>, list: Seq<Option<AttributeModel>>)
    requires
        named(tag, "item"@),
    ensures
        m.in_item ==> {
            let items = feed_after(m, XmlNode::End(tag)).items;
            &&& items.len() == m.items.len() + 1
            &&& m.items.is_prefix_of(items)
            &&& items.last().title == trimmed(m.title)
            &&& items.last().date == trimmed(m.date)
            &&& items.last().link == trimmed(m.link)
            &&& items.last().summary == summary_of(m.description)
        },
        !m.in_item ==> feed_after(m, XmlNode::End(tag)).items == m.items,
        ({
            let fresh = feed_after(m, XmlNode::Start(tag, list));
            fresh.in_item && fresh.title.len() == 0 && fresh.date.len() == 0 && fresh.link.len()
                == 0 && fresh.description.len() == 0 && fresh.items == m.items
        }),
{
}

} // verus!
