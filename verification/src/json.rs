//! JSON documents.
use serde_json::Value;
use vstd::prelude::*;

verus! {

/// `serde_json::Value`, a JSON document.
#[verifier::external_type_specification]
#[verifier::external_body]
pub struct ExValue(Value);

/// The contents of a JSON document. Nothing is said of a number but that it is one.
pub enum JsonTree {
    Null,
    Bool(bool),
    Number,
    Text(Seq<char>),
    List(Seq<JsonTree>),
    Object(Map<Seq<char>, JsonTree>),
}

/// The document that a text writes; `None` where it writes none.
pub uninterp spec fn json_parsed(text: Seq<char>) -> Option<JsonTree>;

/// What a document holds.
pub uninterp spec fn json_tree(value: Value) -> JsonTree;

/// The members of a list.
pub open spec fn json_trees(list: Seq<Value>) -> Seq<JsonTree> {
    list.map_values(|v: Value| json_tree(v))
}

/// The member of an object.
pub open spec fn json_member(tree: JsonTree, key: Seq<char>) -> Option<JsonTree> {
    match tree {
        JsonTree::Object(members) => if members.contains_key(key) {
            Some(members[key])
        } else {
            None
        },
        _ => None,
    }
}

/// The text that a document is.
pub open spec fn json_string(tree: Option<JsonTree>) -> Option<Seq<char>> {
    match tree {
        Some(JsonTree::Text(s)) => Some(s),
        _ => None,
    }
}

/// `serde_json::from_str` into a `Value`: the document that a text writes, or nothing where it is
/// not JSON. Which document that is is left to the name.
#[verifier::external_body]
pub(crate) fn parse_json(text: &str) -> (r: Option<Value>)
    ensures
        match r {
            Some(v) => json_parsed(text@) == Some(json_tree(v)),
            None => json_parsed(text@) is None,
        },
{
    serde_json::from_str::<Value>(text).ok()
}

/// `Value::get` with a text: the member of an object, nothing for anything that is not an object.
#[verifier::external_body]
pub(crate) fn member<'a>(value: &'a Value, key: &str) -> (r: Option<&'a Value>)
    ensures
        match r {
            Some(v) => json_tree(*value) matches JsonTree::Object(members) && members.contains_key(
                key@,
            ) && members[key@] == json_tree(*v),
            None => json_tree(*value) matches JsonTree::Object(members) ==> !members.contains_key(
                key@,
            ),
        },
{
    value.get(key)
}

/// `Value::as_str`: the text that a document is, nothing for anything else.
#[verifier::external_body]
pub(crate) fn as_text<'a>(value: &'a Value) -> (r: Option<&'a str>)
    ensures
        match r {
            Some(s) => json_tree(*value) == JsonTree::Text(s@),
            None => !(json_tree(*value) is Text),
        },
{
    value.as_str()
}

/// `Value::as_array`: the members of the list that a document is, nothing for anything else.
#[verifier::external_body]
pub(crate) fn as_list<'a>(value: &'a Value) -> (r: Option<&'a Vec<Value>>)
    ensures
        match r {
            Some(list) => json_tree(*value) matches JsonTree::List(members) && members.len()
                == list@.len() && forall|i: int|
                0 <= i < list@.len() ==> members[i] == json_tree(#[trigger] list@[i]),
            None => !(json_tree(*value) is List),
        },
{
    value.as_array()
}

/// The text of a member of an object.
pub(crate) fn text_member<'a>(value: &'a Value, key: &str) -> (r: Option<&'a str>)
    ensures
        match r {
            Some(s) => json_string(json_member(json_tree(*value), key@)) == Some(s@),
            None => json_string(json_member(json_tree(*value), key@)) is None,
        },
{
    match member(value, key) {
        Some(v) => as_text(v),
        None => None,
    }
}

} // verus!
