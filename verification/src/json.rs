//! The boundary to the JSON text format: parsing a string into the
//! library's [`FlowValue`] tree is delegated to an outside parser and trusted.

use vstd::prelude::*;

use crate::value::ValueView;

verus! {

/// The value tree that a given JSON text parses to, or nothing when the
/// text is not valid JSON. Parsing is a function of the text alone; this
/// name stands for its result, which the contracts below tie to the
/// outside parser.
pub uninterp spec fn json_parse(s: Seq<char>) -> Option<ValueView>;

/// Relies on `serde_json::Value`: the parser's own tree, carried only
/// inside the trusted conversion below.
#[verifier::external_type_specification]
#[verifier::external_body]
pub struct ExJsonValue(serde_json::Value);

/// Relies on `serde_json::Value`: converts the parser's tree into the
/// library's, variant by variant. A number becomes its double bit
/// pattern; object entries arrive in the parser's (sorted) key order.
#[verifier::external_body]
fn json_to_value(v: serde_json::Value) -> crate::value::FlowValue {
    match v {
        serde_json::Value::Null => crate::value::FlowValue::Null,
        serde_json::Value::Bool(b) => crate::value::FlowValue::Boolean(b),
        serde_json::Value::Number(n) => crate::value::FlowValue::Number(
            n.as_f64().map(|x| x.to_bits()).unwrap_or(0),
        ),
        serde_json::Value::String(s) => crate::value::FlowValue::String(s),
        serde_json::Value::Array(items) => crate::value::FlowValue::List(
            items.into_iter().map(json_to_value).collect(),
        ),
        serde_json::Value::Object(entries) => crate::value::FlowValue::Object(
            entries.into_iter().map(|(k, v)| (k, json_to_value(v))).collect(),
        ),
    }
}

/// Relies on `serde_json::from_str`: whether the text parses, and to which
/// tree, depends on the text alone; [`json_parse`] names that result. On a
/// parse failure the parser's message is handed back unspecified.
#[verifier::external_body]
pub fn parse_json_text(s: &str) -> (r: Result<crate::value::FlowValue, String>)
    ensures
        match r {
            Ok(v) => json_parse(s@) == Some(v@),
            Err(_) => json_parse(s@) is None,
        },
{
    match serde_json::from_str::<serde_json::Value>(s) {
        Ok(v) => Ok(json_to_value(v)),
        Err(e) => Err(e.to_string()),
    }
}

} // verus!
