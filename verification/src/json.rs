//! JSON values as plain data, and the `serde_json` calls that parse and
//! print them.

use vstd::prelude::*;

use crate::diagnostics::seq_order;

verus! {

/// A JSON value; object members keep the order in which the parser gave
/// them.
#[derive(Debug, PartialEq, Eq)]
pub enum JsonValue {
    Null,
    Bool(bool),
    /// A number, as its decimal text.
    Number(String),
    String(String),
    Array(Vec<JsonValue>),
    Object(Vec<(String, JsonValue)>),
}

#[verifier::external_type_specification]
#[verifier::external_body]
pub struct ExSerdeJsonValue(serde_json::Value);

/// What `serde_json::from_str::<serde_json::Value>` gives for a text: the
/// value, or the parser's error as text.
pub uninterp spec fn parsed_json(text: Seq<char>) -> Result<JsonValue, Seq<char>>;

/// What `serde_json::from_slice::<serde_json::Value>` gives for bytes: the
/// value, or the parser's error as text.
pub uninterp spec fn parsed_json_bytes(bytes: Seq<u8>) -> Result<JsonValue, Seq<char>>;

/// What `serde_json::to_string_pretty` gives for a value: its text, or the
/// error as text.
pub uninterp spec fn pretty_json(v: JsonValue) -> Result<Seq<char>, Seq<char>>;

/// Whether names rise strictly in the order of their characters (that of
/// `String`'s `Ord`, byte-wise over UTF-8).
pub open spec fn names_rise(names: Seq<Seq<char>>) -> bool {
    forall|i: int, j: int| 0 <= i < j < names.len() ==> seq_order(#[trigger] names[i], #[trigger] names[j]) < 0
}

/// The text of a string value; empty for any other value.
pub open spec fn string_text(v: JsonValue) -> Seq<char> {
    match v {
        JsonValue::String(t) => t@,
        _ => seq![],
    }
}

/// The `(name, text)` members of an object whose member names rise strictly
/// and whose values are all strings; `None` for any other value.
pub open spec fn string_members(v: JsonValue) -> Option<Seq<(Seq<char>, Seq<char>)>> {
    match v {
        JsonValue::Object(ms) => if (forall|i: int| 0 <= i < ms@.len() ==> (#[trigger] ms@[i]).1 is String) && names_rise(
            ms@.map_values(|m: (String, JsonValue)| m.0@),
        ) {
            Some(ms@.map_values(|m: (String, JsonValue)| (m.0@, string_text(m.1))))
        } else {
            None
        },
        _ => None,
    }
}

/// The members of an object whose member names rise strictly and whose
/// values are all objects of the kind [`string_members`] describes, each
/// with its members; `None` for any other value.
pub open spec fn nested_members(v: JsonValue) -> Option<Seq<(Seq<char>, Seq<(Seq<char>, Seq<char>)>)>> {
    match v {
        JsonValue::Object(ms) => if (forall|i: int| 0 <= i < ms@.len() ==> string_members((#[trigger] ms@[i]).1) is Some)
            && names_rise(ms@.map_values(|m: (String, JsonValue)| m.0@)) {
            Some(ms@.map_values(|m: (String, JsonValue)| (m.0@, string_members(m.1).unwrap())))
        } else {
            None
        },
        _ => None,
    }
}

/// Converts a `serde_json` value into the library's value, one for one
/// (members in the map's order, numbers as their text).
#[verifier::external_body]
fn from_serde(v: &serde_json::Value) -> JsonValue {
    match v {
        serde_json::Value::Null => JsonValue::Null,
        serde_json::Value::Bool(b) => JsonValue::Bool(*b),
        serde_json::Value::Number(n) => JsonValue::Number(n.to_string()),
        serde_json::Value::String(s) => JsonValue::String(s.clone()),
        serde_json::Value::Array(a) => JsonValue::Array(a.iter().map(from_serde).collect()),
        serde_json::Value::Object(m) => JsonValue::Object(m.iter().map(|(k, x)| (k.clone(), from_serde(x))).collect()),
    }
}

/// Converts the library's value into a `serde_json` value, one for one (a
/// number's text is read back as a `serde_json` number).
#[verifier::external_body]
fn to_serde(v: &JsonValue) -> serde_json::Value {
    match v {
        JsonValue::Null => serde_json::Value::Null,
        JsonValue::Bool(b) => serde_json::Value::Bool(*b),
        JsonValue::Number(t) => t.parse::<serde_json::Number>().map_or(serde_json::Value::Null, serde_json::Value::Number),
        JsonValue::String(s) => serde_json::Value::String(s.clone()),
        JsonValue::Array(a) => serde_json::Value::Array(a.iter().map(to_serde).collect()),
        JsonValue::Object(m) => serde_json::Value::Object(m.iter().map(|(k, x)| (k.clone(), to_serde(x))).collect()),
    }
}

/// Parses JSON text with `serde_json::from_str`; the result is named by
/// [`parsed_json`] and not stated further.
#[verifier::external_body]
pub(crate) fn parse_json(text: &str) -> (r: Result<JsonValue, String>)
    ensures
        match (r, parsed_json(text@)) {
            (Ok(v), Ok(w)) => v == w,
            (Err(e), Err(m)) => e@ == m,
            _ => false,
        },
{
    serde_json::from_str::<serde_json::Value>(text).map(|v| from_serde(&v)).map_err(|e| e.to_string())
}

/// Parses JSON bytes with `serde_json::from_slice`; the result is named by
/// [`parsed_json_bytes`] and not stated further.
#[verifier::external_body]
pub(crate) fn parse_json_bytes(bytes: &Vec<u8>) -> (r: Result<JsonValue, String>)
    ensures
        match (r, parsed_json_bytes(bytes@)) {
            (Ok(v), Ok(w)) => v == w,
            (Err(e), Err(m)) => e@ == m,
            _ => false,
        },
{
    serde_json::from_slice::<serde_json::Value>(bytes).map(|v| from_serde(&v)).map_err(|e| e.to_string())
}

/// Prints a value with `serde_json::to_string_pretty` (two-space
/// indentation; object members as `serde_json`'s map orders them); the
/// result is named by [`pretty_json`]. One fact of the printer and the
/// parser together is stated: an object of objects of strings, with member
/// names rising (the order of `serde_json`'s map, a `BTreeMap` here), prints
/// without error, and `serde_json::from_str` reads the text, followed by a
/// newline, back as the same members: strings are escaped on print and
/// unescaped on parse, and trailing white space is allowed. Nothing more is
/// stated of the text.
#[verifier::external_body]
pub(crate) fn print_json_pretty(v: &JsonValue) -> (r: Result<String, String>)
    ensures
        match (r, pretty_json(*v)) {
            (Ok(s), Ok(t)) => s@ == t,
            (Err(e), Err(t)) => e@ == t,
            _ => false,
        },
        match r {
            Ok(s) => nested_members(*v) is Some ==> (parsed_json(s@ + "\n"@) matches Ok(w) && nested_members(w)
                == nested_members(*v)),
            Err(_) => nested_members(*v) is None,
        },
{
    serde_json::to_string_pretty(&to_serde(v)).map_err(|e| e.to_string())
}

} // verus!
