//! The crossing between serde_json's tree and the library's own, and the two
//! outside computations made on such trees: parsing JSON text and checking the
//! shape of a schema node.
use crate::json::{all_names_unique, Json, JsonValue};
use vstd::prelude::*;

verus! {

#[verifier::external_type_specification]
#[verifier::external_body]
pub struct ExSerdeValue(serde_json::Value);

/// The tree that serde_json reads from a text, or `None` when the text is not
/// well-formed JSON.
pub uninterp spec fn parsed_json(text: Seq<char>) -> Option<Json>;

/// Whether schemars reads the tree as a well-formed schema node.
pub uninterp spec fn is_schema_node(v: Json) -> bool;

/// Moves serde_json's tree into the library's, one node for one node, keeping
/// member order and the text of each number.
#[verifier::external_body]
fn tree_from_serde(v: serde_json::Value) -> JsonValue {
    match v {
        serde_json::Value::Null => JsonValue::Null,
        serde_json::Value::Bool(b) => JsonValue::Bool(b),
        serde_json::Value::Number(n) => JsonValue::Number(n.to_string()),
        serde_json::Value::String(s) => JsonValue::Str(s),
        serde_json::Value::Array(a) => JsonValue::Array(a.into_iter().map(tree_from_serde).collect()),
        serde_json::Value::Object(m) => JsonValue::Object(
            m.into_iter().map(|(k, x)| (k, tree_from_serde(x))).collect(),
        ),
    }
}

/// Builds serde_json's tree from the library's, one node for one node.
#[verifier::external_body]
fn tree_to_serde(v: &JsonValue) -> serde_json::Value {
    match v {
        JsonValue::Null => serde_json::Value::Null,
        JsonValue::Bool(b) => serde_json::Value::Bool(*b),
        JsonValue::Number(n) => serde_json::from_str(n).unwrap_or(serde_json::Value::Null),
        JsonValue::Str(s) => serde_json::Value::String(s.clone()),
        JsonValue::Array(a) => serde_json::Value::Array(a.iter().map(tree_to_serde).collect()),
        JsonValue::Object(m) => serde_json::Value::Object(
            m.iter().map(|(k, x)| (k.clone(), tree_to_serde(x))).collect(),
        ),
    }
}

/// Relies on serde_json::from_str (with member order preserved): the tree that
/// a text holds, or the parser's message when the text is not well-formed. The
/// outcome depends on the text alone. Objects come from serde_json's `Map`,
/// whose keys are distinct.
#[verifier::external_body]
pub(crate) fn parse_json(text: &str) -> (r: Result<JsonValue, String>)
    ensures
        match r {
            Ok(v) => parsed_json(text@) == Some(v@) && all_names_unique(v@),
            Err(_) => parsed_json(text@) is None,
        },
{
    match serde_json::from_str::<serde_json::Value>(text) {
        Ok(v) => Ok(tree_from_serde(v)),
        Err(e) => Err(e.to_string()),
    }
}

/// Relies on serde_json::from_value into schemars' `Schema`: whether the tree
/// is read as a schema node. The outcome depends on the tree alone.
#[verifier::external_body]
pub(crate) fn schema_node_ok(v: &JsonValue) -> (r: bool)
    ensures
        r == is_schema_node(v@),
{
    serde_json::from_value::<schemars::schema::Schema>(tree_to_serde(v)).is_ok()
}

} // verus!
