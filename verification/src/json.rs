//! Reading values out of JSON documents with `serde_json`.
//!
//! The library never walks a parsed document itself: each function below
//! parses the text and reads one thing from it, and its result is named by
//! a spec function of the text (and of the JSON Pointer, RFC 6901, that it
//! reads at). Those names say nothing more about JSON than that the same
//! text gives the same result.
use vstd::prelude::*;

verus! {

/// The message of the error `serde_json` reports when `text` is not one
/// JSON document; `None` when it parses.
pub uninterp spec fn json_parse_error(text: Seq<char>) -> Option<Seq<char>>;

/// The string found at `pointer` in the JSON document `text`; `None` when
/// the text does not parse, nothing is there, or what is there is no string.
pub uninterp spec fn json_pointer_str(text: Seq<char>, pointer: Seq<char>) -> Option<Seq<char>>;

/// The unsigned integer found at `pointer` in the JSON document `text`;
/// `None` when the text does not parse, nothing is there, or what is there
/// is no integer that fits in a `u64`.
pub uninterp spec fn json_pointer_u64(text: Seq<char>, pointer: Seq<char>) -> Option<u64>;

/// The keys of the object found at `pointer` in the JSON document `text`,
/// in the order `serde_json`'s map keeps them; `None` when the text does
/// not parse, nothing is there, or what is there is no object.
pub uninterp spec fn json_pointer_keys(text: Seq<char>, pointer: Seq<char>) -> Option<
    Seq<Seq<char>>,
>;

/// `serde_json::from_str::<serde_json::Value>(text)`, keeping only the
/// error's message (its `Display`); the contract names that message
/// `json_parse_error(text)`.
#[verifier::external_body]
pub(crate) fn json_error(text: &str) -> (r: Option<String>)
    ensures
        match r {
            Some(m) => json_parse_error(text@) == Some(m@),
            None => json_parse_error(text@) == None::<Seq<char>>,
        },
{
    match serde_json::from_str::<serde_json::Value>(text) {
        Ok(_) => None,
        Err(e) => Some(e.to_string()),
    }
}

/// Parse `text` with `serde_json` and read the string at `pointer`
/// (`Value::pointer`, then `Value::as_str`); the contract names the result
/// `json_pointer_str(text, pointer)`.
#[verifier::external_body]
pub(crate) fn json_str_at(text: &str, pointer: &str) -> (r: Option<String>)
    ensures
        match r {
            Some(s) => json_pointer_str(text@, pointer@) == Some(s@),
            None => json_pointer_str(text@, pointer@) == None::<Seq<char>>,
        },
{
    match serde_json::from_str::<serde_json::Value>(text) {
        Ok(doc) => match doc.pointer(pointer) {
            Some(v) => match v.as_str() {
                Some(s) => Some(s.to_string()),
                None => None,
            },
            None => None,
        },
        Err(_) => None,
    }
}

/// Parse `text` with `serde_json` and read the unsigned integer at
/// `pointer` (`Value::pointer`, then `Value::as_u64`); the contract names
/// the result `json_pointer_u64(text, pointer)`.
#[verifier::external_body]
pub(crate) fn json_u64_at(text: &str, pointer: &str) -> (r: Option<u64>)
    ensures
        r == json_pointer_u64(text@, pointer@),
{
    match serde_json::from_str::<serde_json::Value>(text) {
        Ok(doc) => match doc.pointer(pointer) {
            Some(v) => v.as_u64(),
            None => None,
        },
        Err(_) => None,
    }
}

/// Parse `text` with `serde_json` and list the keys of the object at
/// `pointer` (`Value::pointer`, then `Value::as_object`); the contract names
/// the result `json_pointer_keys(text, pointer)`.
#[verifier::external_body]
pub(crate) fn json_keys_at(text: &str, pointer: &str) -> (r: Option<Vec<String>>)
    ensures
        match r {
            Some(ks) => json_pointer_keys(text@, pointer@) == Some(
                ks@.map_values(|k: String| k@),
            ),
            None => json_pointer_keys(text@, pointer@) == None::<Seq<Seq<char>>>,
        },
{
    match serde_json::from_str::<serde_json::Value>(text) {
        Ok(doc) => match doc.pointer(pointer) {
            Some(v) => match v.as_object() {
                Some(m) => Some(m.keys().cloned().collect()),
                None => None,
            },
            None => None,
        },
        Err(_) => None,
    }
}

/// The text `serde_json::to_string_pretty` writes for the JSON object whose
/// fields are these (key, string value) pairs.
pub uninterp spec fn json_pretty_object(fields: Seq<(Seq<char>, Seq<char>)>) -> Seq<char>;

/// Build a `serde_json` object of string fields and write it with
/// `serde_json::to_string_pretty`; the contract names the text
/// `json_pretty_object(fields)`.
#[verifier::external_body]
pub(crate) fn pretty_object(fields: &Vec<(String, String)>) -> (r: String)
    ensures
        r@ == json_pretty_object(fields@.map_values(|f: (String, String)| (f.0@, f.1@))),
{
    let mut object = serde_json::Map::new();
    for (key, value) in fields {
        object.insert(key.clone(), serde_json::Value::String(value.clone()));
    }
    serde_json::to_string_pretty(&serde_json::Value::Object(object)).unwrap_or_default()
}

} // verus!
