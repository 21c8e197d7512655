//! JSON documents as `serde_json` parses them, and the few questions that
//! the library asks of them. A parsed document is a `serde_json::Value`,
//! whose content is named by [`json_content`]; each question is one call of
//! `serde_json` with what that call gives stated over the content.

use vstd::prelude::*;

verus! {

/// A parsed JSON document (`serde_json::Value`), opaque to proofs.
#[verifier::external_type_specification]
#[verifier::external_body]
pub struct ExJsonValue(serde_json::Value);

/// What a JSON document holds; a number is held as the text that
/// `serde_json::Number` displays; an object maps each key to one value.
pub enum JsonView {
    Null,
    Bool(bool),
    Number(Seq<char>),
    Str(Seq<char>),
    Array(Seq<JsonView>),
    Object(Map<Seq<char>, JsonView>),
}

/// What a parsed document (`serde_json::Value`) holds.
pub uninterp spec fn json_content(v: serde_json::Value) -> JsonView;

/// What `serde_json::from_slice` makes of some bytes: `None` where they are
/// not one JSON document.
pub uninterp spec fn json_parse(bytes: Seq<u8>) -> Option<JsonView>;

/// Parses `bytes` with `serde_json::from_slice`. The contract claims only
/// that the document's content is what the parse of these bytes gives, and
/// that a failure is a failure of that parse; which JSON the bytes hold is
/// not stated.
#[verifier::external_body]
pub fn parse_json(bytes: &[u8]) -> (r: Option<serde_json::Value>)
    ensures
        match r {
            Some(v) => json_parse(bytes@) == Some(json_content(v)),
            None => json_parse(bytes@) is None,
        },
{
    serde_json::from_slice(bytes).ok()
}

/// The value at `key` of an object; nothing for a missing key or a value
/// that is not an object.
pub open spec fn object_value(j: JsonView, key: Seq<char>) -> Option<JsonView> {
    match j {
        JsonView::Object(m) => if m.contains_key(key) {
            Some(m[key])
        } else {
            None
        },
        _ => None,
    }
}

/// Looks `key` up with `serde_json::Value::get`, which gives the value at
/// that key of an object, and nothing for a missing key or for a document
/// that is not an object (as its documentation says).
#[verifier::external_body]
pub fn json_get<'a>(v: &'a serde_json::Value, key: &str) -> (r: Option<&'a serde_json::Value>)
    ensures
        match r {
            Some(c) => object_value(json_content(*v), key@) == Some(json_content(*c)),
            None => object_value(json_content(*v), key@) is None,
        },
{
    v.get(key)
}

/// The elements of an array, with `serde_json::Value::as_array`, which gives
/// them exactly when the document is an array.
#[verifier::external_body]
pub fn json_as_array(v: &serde_json::Value) -> (r: Option<&Vec<serde_json::Value>>)
    ensures
        match r {
            Some(a) => json_content(*v) == JsonView::Array(
                a@.map_values(|x: serde_json::Value| json_content(x)),
            ),
            None => !(json_content(*v) is Array),
        },
{
    v.as_array()
}

/// Whether the document is a string, with `serde_json::Value::is_string`.
#[verifier::external_body]
pub fn json_is_string(v: &serde_json::Value) -> (r: bool)
    ensures
        r == (json_content(*v) is Str),
{
    v.is_string()
}


/// The text of a string document, with `serde_json::Value::as_str`, which
/// gives it exactly when the document is a string.
#[verifier::external_body]
pub fn json_as_str(v: &serde_json::Value) -> (r: Option<String>)
    ensures
        match r {
            Some(s) => json_content(*v) == JsonView::Str(s@),
            None => !(json_content(*v) is Str),
        },
{
    v.as_str().map(str::to_owned)
}

/// The value of a boolean document, with `serde_json::Value::as_bool`,
/// which gives it exactly when the document is a boolean.
#[verifier::external_body]
pub fn json_as_bool(v: &serde_json::Value) -> (r: Option<bool>)
    ensures
        match r {
            Some(b) => json_content(*v) == JsonView::Bool(b),
            None => !(json_content(*v) is Bool),
        },
{
    v.as_bool()
}

/// The text of a number document, with `serde_json::Value::as_number` and
/// the number's `Display`; nothing when the document is not a number.
#[verifier::external_body]
pub fn json_number_text(v: &serde_json::Value) -> (r: Option<String>)
    ensures
        match r {
            Some(t) => json_content(*v) == JsonView::Number(t@),
            None => !(json_content(*v) is Number),
        },
{
    v.as_number().map(|n| n.to_string())
}

/// The compact JSON text that `serde_json::Value`'s `Display` writes of a
/// document with this content.
pub uninterp spec fn json_text(j: JsonView) -> Seq<char>;

/// Writes the document as compact JSON text with `serde_json::Value`'s
/// `Display`. The contract ties the text to the document's content only;
/// the text itself is not stated.
#[verifier::external_body]
pub fn json_to_text(v: &serde_json::Value) -> (r: String)
    ensures
        r@ == json_text(json_content(*v)),
{
    v.to_string()
}
} // verus!
