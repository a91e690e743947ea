//! JSON texts, read by `serde_json` and held as a tree of the library's own.

use vstd::prelude::*;

verus! {

/// A JSON value, as far as the feed's decoder reads one: what a number is
/// worth is never asked, so a number keeps no content.
#[derive(Debug)]
pub enum Json {
    Null,
    Bool(bool),
    Number,
    Text(String),
    List(Vec<Json>),
    /// The members of an object, each a key and its value.
    Object(Vec<(String, Json)>),
}

/// `serde_json::Value`, the tree that the parser hands back.
#[verifier::external_type_specification]
#[verifier::external_body]
pub struct ExValue(serde_json::Value);

/// The tree of a text: what `serde_json::from_str` reads it as, or `None`
/// where it rejects the text. Nothing more is said of it here.
pub uninterp spec fn json_of(text: Seq<char>) -> Option<Json>;

/// Moves a `serde_json::Value` into a `Json`, variant by variant. Nothing is
/// claimed of the result; the members of an object come in the order in
/// which the `serde_json::Map` hands them out.
#[verifier::external_body]
fn tree_of(value: serde_json::Value) -> (tree: Json) {
    match value {
        serde_json::Value::Null => Json::Null,
        serde_json::Value::Bool(b) => Json::Bool(b),
        serde_json::Value::Number(_) => Json::Number,
        serde_json::Value::String(s) => Json::Text(s),
        serde_json::Value::Array(items) => Json::List(items.into_iter().map(tree_of).collect()),
        serde_json::Value::Object(members) => Json::Object(
            members.into_iter().map(|(k, v)| (k, tree_of(v))).collect(),
        ),
    }
}

/// Calls `serde_json::from_str` for a `serde_json::Value`. The contract
/// claims only that the outcome is a function of the text: the tree has the
/// name `json_of(text)`, and a text that the parser rejects has none.
#[verifier::external_body]
pub(crate) fn parse(text: &str) -> (tree: Option<Json>)
    ensures
        tree == json_of(text@),
{
    match serde_json::from_str::<serde_json::Value>(text) {
        Ok(value) => Some(tree_of(value)),
        Err(_) => None,
    }
}

} // verus!
