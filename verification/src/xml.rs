//! The events of an XML document.
use quick_xml::events::Event;
use quick_xml::Reader;
use vstd::prelude::*;
use vstd::utf8::{decode_utf8, encode_utf8, encode_utf8_decode_utf8, valid_utf8};

verus! {

/// `quick_xml::Reader`, which reads a document event by event.
#[verifier::external_type_specification]
#[verifier::external_body]
#[verifier::reject_recursive_types(R)]
pub struct ExReader<R>(Reader<R>);

/// An attribute of a tag: its name and its value as they stand in the document.
#[derive(Debug)]
pub struct XmlAttribute {
    pub key: Vec<u8>,
    pub value: Vec<u8>,
}

/// One event of an XML document.
#[derive(Debug)]
pub enum XmlEvent {
    /// An opening tag with its attributes, `None` for an attribute that is not well formed.
    Start(Vec<u8>, Vec<Option<XmlAttribute>>),
    /// A closing tag.
    End(Vec<u8>),
    /// Text with its entities resolved, `None` where that fails.
    Text(Option<String>),
    /// A CDATA section.
    CData(Vec<u8>),
    /// Anything else: an empty tag, a comment, a declaration.
    Other,
    /// The end of the document.
    Eof,
    /// The document is not well formed here.
    Failure,
}

/// The contents of an attribute.
pub struct AttributeModel {
    pub key: Seq<u8>,
    pub value: Seq<u8>,
}

/// The contents of an event.
pub enum XmlNode {
    Start(Seq<u8>, Seq<Option<AttributeModel>>),
    End(Seq<u8>),
    Text(Option<Seq<char>>),
    CData(Seq<u8>),
    Other,
    Eof,
    Failure,
}

/// The contents of an attribute that may be broken.
pub open spec fn attribute_model(a: Option<XmlAttribute>) -> Option<AttributeModel> {
    match a {
        Some(x) => Some(AttributeModel { key: x.key@, value: x.value@ }),
        None => None,
    }
}

impl View for XmlEvent {
    type V = XmlNode;

    open spec fn view(&self) -> XmlNode {
        match *self {
            XmlEvent::Start(name, attributes) => XmlNode::Start(
                name@,
                attributes@.map_values(|a: Option<XmlAttribute>| attribute_model(a)),
            ),
            XmlEvent::End(name) => XmlNode::End(name@),
            XmlEvent::Text(text) => XmlNode::Text(
                match text {
                    Some(t) => Some(t@),
                    None => None,
                },
            ),
            XmlEvent::CData(bytes) => XmlNode::CData(bytes@),
            XmlEvent::Other => XmlNode::Other,
            XmlEvent::Eof => XmlNode::Eof,
            XmlEvent::Failure => XmlNode::Failure,
        }
    }
}

/// The contents of a list of events.
pub open spec fn nodes(events: Seq<XmlEvent>) -> Seq<XmlNode> {
    events.map_values(|e: XmlEvent| e@)
}

/// Whether reading stops at an event.
pub open spec fn is_last(node: XmlNode) -> bool {
    node is Eof || node is Failure
}

/// Whether a list of events ends with the only event at which reading stops.
pub open spec fn ends_once(list: Seq<XmlNode>) -> bool {
    &&& list.len() > 0
    &&& is_last(list.last())
    &&& forall|i: int| 0 <= i < list.len() - 1 ==> !is_last(#[trigger] list[i])
}

/// The events that `quick_xml` reports for a document, with the white space around text cut off,
/// up to the end of the document or the first error.
pub uninterp spec fn xml_events(document: Seq<u8>) -> Seq<XmlNode>;

/// The events that a reader has still to report, up to the end of the document or the first error.
pub uninterp spec fn xml_rest(reader: Reader<&[u8]>) -> Seq<XmlNode>;

/// `Reader::from_reader` over the bytes of a document, with `Config::trim_text` switched on. The
/// reader has all events of the document before it. They are finitely many, since every event but
/// the last takes up bytes of the document.
#[verifier::external_body]
fn xml_reader<'a>(document: &'a [u8]) -> (reader: Reader<&'a [u8]>)
    ensures
        xml_rest(reader) == xml_events(document@),
        ends_once(xml_rest(reader)),
{
    let mut reader = Reader::from_reader(document);
    reader.config_mut().trim_text(true);
    reader
}

/// `Reader::read_event`: takes the next event off the reader. A tag comes with its name and with
/// what `BytesStart::attributes` lists, text as `BytesText::unescape` gives it.
#[verifier::external_body]
fn next_event(reader: &mut Reader<&[u8]>) -> (event: XmlEvent)
    requires
        xml_rest(*old(reader)).len() > 0,
    ensures
        event@ == xml_rest(*old(reader))[0],
        xml_rest(*final(reader)) == xml_rest(*old(reader)).skip(1),
{
    match reader.read_event() {
        Ok(Event::Start(e)) => XmlEvent::Start(
            e.name().0.to_vec(),
            e.attributes().map(|a| a.ok().map(|a| XmlAttribute {
                key: a.key.0.to_vec(),
                value: a.value.to_vec()
            })).collect()
        ),
        Ok(Event::End(e)) => XmlEvent::End(e.name().0.to_vec()),
        Ok(Event::Text(e)) => XmlEvent::Text(e.unescape().ok().map(String::from)),
        Ok(Event::CData(e)) => XmlEvent::CData(e.to_vec()),
        Ok(Event::Eof) => XmlEvent::Eof,
        Ok(_) => XmlEvent::Other,
        Err(_) => XmlEvent::Failure,
    }
}

/// Reads the events of a document.
pub fn read_events(document: &[u8]) -> (events: Vec<XmlEvent>)
    ensures
        nodes(events@) == xml_events(document@),
        ends_once(nodes(events@)),
{
    let mut reader = xml_reader(document);
    let ghost all = xml_events(document@);
    let mut events: Vec<XmlEvent> = Vec::new();
    let mut done = false;
    proof {
        assert(all.skip(0) =~= all);
    }
    while !done
        invariant
            ends_once(all),
            events@.len() <= all.len(),
            nodes(events@) == all.take(events@.len() as int),
            xml_rest(reader) == all.skip(events@.len() as int),
            done == (events@.len() == all.len()),
        decreases all.len() - events@.len(),
    {
        let ghost k = events@.len() as int;
        let event = next_event(&mut reader);
        proof {
            assert(event@ == all[k]);
            assert(all.skip(k).skip(1) =~= all.skip(k + 1));
            assert(nodes(events@.push(event)) =~= all.take(k + 1));
        }
        done = matches!(event, XmlEvent::Eof | XmlEvent::Failure);
        events.push(event);
    }
    proof {
        assert(all.take(all.len() as int) =~= all);
    }
    events
}

/// What `String::from_utf8_lossy` makes of bytes that are not UTF-8.
pub uninterp spec fn repaired_text(bytes: Seq<u8>) -> Seq<char>;

/// The text that bytes hold, with what is not UTF-8 replaced.
pub open spec fn lossy_text(bytes: Seq<u8>) -> Seq<char> {
    if valid_utf8(bytes) {
        decode_utf8(bytes)
    } else {
        repaired_text(bytes)
    }
}

/// `String::from_utf8_lossy`: the text whose encoding the bytes are; for other bytes only that the
/// result depends on nothing else is stated.
#[verifier::external_body]
pub(crate) fn lossy(bytes: &[u8]) -> (text: String)
    ensures
        text@ == (if valid_utf8(bytes@) {
            decode_utf8(bytes@)
        } else {
            repaired_text(bytes@)
        }),
{
    String::from_utf8_lossy(bytes).to_string()
}

/// Whether bytes are the encoding of `word`.
pub fn bytes_are(bytes: &[u8], word: &str) -> (r: bool)
    ensures
        r == (bytes@ == encode_utf8(word@)),
{
    let want = word.as_bytes();
    if bytes.len() != want.len() {
        return false;
    }
    for i in 0..bytes.len()
        invariant
            bytes@.len() == want@.len(),
            want@ == encode_utf8(word@),
            forall|j: int| 0 <= j < i ==> bytes@[j] == want@[j],
    {
        if bytes[i] != want[i] {
            return false;
        }
    }
    proof {
        assert(bytes@ =~= want@);
    }
    true
}

/// Whether a name in the document is `word`.
#[verifier::opaque]
pub open spec fn named(name: Seq<u8>, word: Seq<char>) -> bool {
    name == encode_utf8(word)
}

/// Whether a name in the document is `word`.
pub fn name_is(name: &[u8], word: &str) -> (r: bool)
    ensures
        r == named(name@, word@),
{
    reveal(named);
    bytes_are(name, word)
}

/// A name in the document is at most one word.
pub proof fn names_are_single(name: Seq<u8>, a: Seq<char>, b: Seq<char>)
    requires
        named(name, a),
        named(name, b),
    ensures
        a == b,
{
    reveal(named);
    encode_utf8_decode_utf8(a);
    encode_utf8_decode_utf8(b);
}

} // verus!
