//! The boundary to `serde_json`. Everything here is believed, not proved: each
//! item says which function of `serde_json` it stands for and what is claimed
//! of it.
//!
//! A parsed document is a `serde_json::Value`, which the verifier cannot look
//! into. It is reasoned about through [`Json`], the tree it stands for. What
//! `serde_json` documents in a line or two is stated over that tree; what the
//! parser reads and what the printer writes is only given a name.

use vstd::prelude::*;

verus! {

/// `serde_json::Value`, a parsed JSON document.
#[verifier::external_type_specification]
#[verifier::external_body]
pub struct ExValue(serde_json::Value);

/// `serde_json::Error`. Nothing is known of its inside.
#[verifier::external_type_specification]
#[verifier::external_body]
pub struct ExError(serde_json::Error);

/// A JSON document as a tree.
pub enum Json {
    Null,
    Bool(bool),
    /// A number, by the text that the printer writes for it.
    Number(Seq<u8>),
    String(Seq<char>),
    Array(Seq<Json>),
    /// An object: its members by key. `serde_json` keeps them sorted by key,
    /// so the members alone decide what is printed.
    Object(Map<Seq<char>, Json>),
}

/// The tree that a `serde_json::Value` stands for.
pub uninterp spec fn json_model(value: serde_json::Value) -> Json;

/// The document that `serde_json::from_slice` reads from `text`, or `None`
/// where it reports an error.
pub uninterp spec fn json_parsed(text: Seq<u8>) -> Option<Json>;

/// The compact text that `serde_json::to_vec` writes for a document, or `None`
/// where it reports an error.
pub uninterp spec fn json_text(document: Json) -> Option<Seq<u8>>;

/// The member of an object under a key; `None` for a document that is no
/// object, or has no such member.
pub open spec fn member_of(document: Json, key: Seq<char>) -> Option<Json> {
    match document {
        Json::Object(members) => if members.contains_key(key) {
            Some(members[key])
        } else {
            None
        },
        _ => None,
    }
}

/// The content of a JSON string; `None` for a document of another kind.
pub open spec fn string_of(document: Json) -> Option<Seq<char>> {
    match document {
        Json::String(content) => Some(content),
        _ => None,
    }
}

/// `serde_json::from_slice::<Value>`: reads a whole byte sequence as one JSON
/// document. Claimed: the outcome, document or failure, depends on the bytes
/// alone; it is `json_parsed` of them.
#[verifier::external_body]
pub(crate) fn parse(text: &[u8]) -> (r: Result<serde_json::Value, serde_json::Error>)
    ensures
        match r {
            Ok(document) => json_parsed(text@) == Some(json_model(document)),
            Err(_) => json_parsed(text@) is None,
        },
{
    serde_json::from_slice::<serde_json::Value>(text)
}

/// `Value::get` with a string key. Claimed, as documented: it finds the
/// member of an object under that key, and nothing in a value that is no
/// object or has no such member.
#[verifier::external_body]
pub(crate) fn member<'a>(document: &'a serde_json::Value, key: &str) -> (r: Option<
    &'a serde_json::Value,
>)
    ensures
        match r {
            Some(found) => member_of(json_model(*document), key@) == Some(json_model(*found)),
            None => member_of(json_model(*document), key@) is None,
        },
{
    document.get(key)
}

/// `Value::as_str`. Claimed, as documented: the content of a value that is a
/// JSON string, and nothing for a value of another kind.
#[verifier::external_body]
pub(crate) fn string_content<'a>(value: &'a serde_json::Value) -> (r: Option<&'a str>)
    ensures
        match r {
            Some(content) => string_of(json_model(*value)) == Some(content@),
            None => string_of(json_model(*value)) is None,
        },
{
    value.as_str()
}

/// `Value::from` on a string slice. Claimed, as documented: the JSON string
/// with that content.
#[verifier::external_body]
pub(crate) fn string_value(content: &str) -> (r: serde_json::Value)
    ensures
        json_model(r) == Json::String(content@),
{
    serde_json::Value::from(content)
}

/// `serde_json::to_vec` on a `Value`: its compact JSON text. Claimed: the
/// outcome, text or failure, depends on the document alone; it is `json_text`
/// of it.
#[verifier::external_body]
pub(crate) fn print(value: &serde_json::Value) -> (r: Result<Vec<u8>, serde_json::Error>)
    ensures
        match r {
            Ok(text) => json_text(json_model(*value)) == Some(text@),
            Err(_) => json_text(json_model(*value)) is None,
        },
{
    serde_json::to_vec(value)
}

} // verus!
