//! JSON documents as the `serde_json` crate reads them.

use vstd::prelude::*;

verus! {

/// A parsed document or a part of one.
#[verifier::external_type_specification]
#[verifier::external_body]
pub struct ExJsonValue(serde_json::Value);

/// Why a text is no document.
#[verifier::external_type_specification]
#[verifier::external_body]
pub struct ExJsonError(serde_json::Error);

/// What a document holds. The members of an object stand in the order in which they are
/// walked.
pub enum JsonTree {
    Null,
    Bool(bool),
    /// A number, as the integers that it is exactly.
    Number { integer: Option<i64>, natural: Option<u64> },
    Text(Seq<char>),
    List(Seq<JsonTree>),
    Object(Seq<(Seq<char>, JsonTree)>),
}

/// What a value holds.
pub uninterp spec fn json_tree(value: serde_json::Value) -> JsonTree;

/// The document that a text is, if it is one.
pub uninterp spec fn json_document(text: Seq<char>) -> Option<JsonTree>;

/// What is said of a text that is no document.
pub uninterp spec fn json_fault(text: Seq<char>) -> Seq<char>;

/// Why a text is no document, also in words.
#[derive(Debug)]
pub struct JsonFault {
    pub error: serde_json::Error,
    pub text: String,
}

/// One level of a value.
pub enum JsonNode<'a> {
    Null,
    Bool(bool),
    Number { integer: Option<i64>, natural: Option<u64> },
    Text(&'a str),
    List(Vec<&'a serde_json::Value>),
    Object(Vec<(&'a str, &'a serde_json::Value)>),
}

pub open spec fn list_trees(items: Seq<&serde_json::Value>) -> Seq<JsonTree> {
    items.map_values(|v: &serde_json::Value| json_tree(*v))
}

pub open spec fn member_trees(members: Seq<(&str, &serde_json::Value)>) -> Seq<
    (Seq<char>, JsonTree),
> {
    members.map_values(|m: (&str, &serde_json::Value)| (m.0@, json_tree(*m.1)))
}

impl<'a> JsonNode<'a> {
    pub open spec fn tree(self) -> JsonTree {
        match self {
            JsonNode::Null => JsonTree::Null,
            JsonNode::Bool(b) => JsonTree::Bool(b),
            JsonNode::Number { integer, natural } => JsonTree::Number { integer, natural },
            JsonNode::Text(s) => JsonTree::Text(s@),
            JsonNode::List(items) => JsonTree::List(list_trees(items@)),
            JsonNode::Object(members) => JsonTree::Object(member_trees(members@)),
        }
    }
}

/// `serde_json::from_str` into a `serde_json::Value`: the document that the text is, or the
/// error with its message. Which texts are documents and what a message says is left unsaid;
/// both depend on the text alone.
#[verifier::external_body]
pub(crate) fn parse_json(text: &str) -> (r: Result<serde_json::Value, JsonFault>)
    ensures
        match r {
            Ok(value) => json_document(text@) == Some(json_tree(value)),
            Err(fault) => json_document(text@) is None && fault.text@ == json_fault(text@),
        },
{
    serde_json::from_str::<serde_json::Value>(text).map_err(
        |error| JsonFault { text: error.to_string(), error },
    )
}

/// The variant of a `serde_json::Value` with what it holds: `as_i64` and `as_u64` of a
/// number, the members of an object in the order in which `serde_json::Map` walks them.
#[verifier::external_body]
pub(crate) fn json_node<'a>(value: &'a serde_json::Value) -> (node: JsonNode<'a>)
    ensures
        node.tree() == json_tree(*value),
{
    match value {
        serde_json::Value::Null => JsonNode::Null,
        serde_json::Value::Bool(b) => JsonNode::Bool(*b),
        serde_json::Value::Number(n) => JsonNode::Number {
            integer: n.as_i64(),
            natural: n.as_u64(),
        },
        serde_json::Value::String(s) => JsonNode::Text(s.as_str()),
        serde_json::Value::Array(items) => JsonNode::List(items.iter().collect()),
        serde_json::Value::Object(members) => JsonNode::Object(
            members.iter().map(|m| (m.0.as_str(), m.1)).collect(),
        ),
    }
}

} // verus!
