use crate::tree::{Node, Tree};
use vstd::prelude::*;

verus! {

/// `serde_json::Value`, a parsed JSON value. Nothing of its inside is known
/// here: it is only carried from the parser to `json_node`.
#[verifier::external_type_specification]
#[verifier::external_body]
pub struct ExJsonValue(serde_json::Value);

/// The document that a text holds when it is read as JSON; nothing where the
/// text is not well-formed JSON.
pub uninterp spec fn json_document(text: Seq<char>) -> Option<Tree>;

/// The tree that a parsed JSON value holds: the entries of an object and the
/// items of an array in the order in which `serde_json` walks them, a string as
/// it is, and every other value with the text that `serde_json` writes for it.
pub uninterp spec fn json_tree(value: serde_json::Value) -> Tree;

/// `serde_json::from_str`, asked for a `serde_json::Value`: the value that the
/// text holds, or nothing where the parser rejects the text. The contract only
/// gives the outcome its name, `json_document`.
#[verifier::external_body]
fn json_value(text: &str) -> (value: Option<serde_json::Value>)
    ensures
        match value {
            Some(parsed) => json_document(text@) == Some(json_tree(parsed)),
            None => json_document(text@) is None,
        },
{
    match serde_json::from_str::<serde_json::Value>(text) {
        Ok(value) => Some(value),
        Err(_) => None,
    }
}

/// Copies a `serde_json::Value` into a `Node`, variant by variant. The text of
/// a value that is not a string is what `serde_json` writes for it
/// (`to_string`, the compact form). The contract only gives the copy its name,
/// `json_tree`.
#[verifier::external_body]
fn json_node(value: &serde_json::Value) -> (node: Node)
    ensures
        node@ == json_tree(*value),
{
    match value {
        serde_json::Value::Null => Node::Scalar(value.to_string()),
        serde_json::Value::Bool(_) => Node::Scalar(value.to_string()),
        serde_json::Value::Number(_) => Node::Scalar(value.to_string()),
        serde_json::Value::String(text) => Node::Text(text.clone()),
        serde_json::Value::Array(items) => Node::Sequence(
            value.to_string(),
            items.iter().map(json_node).collect(),
        ),
        serde_json::Value::Object(entries) => Node::Table(
            value.to_string(),
            entries.iter().map(|(name, child)| (name.clone(), json_node(child))).collect(),
        ),
    }
}

/// Reads a text as JSON: the document that it holds, or nothing where the text
/// is not well-formed JSON.
pub fn parse_json(text: &str) -> (document: Option<Node>)
    ensures
        match document {
            Some(node) => json_document(text@) == Some(node@),
            None => json_document(text@) is None,
        },
{
    match json_value(text) {
        Some(value) => Some(json_node(&value)),
        None => None,
    }
}

} // verus!
