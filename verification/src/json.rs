//! JSON documents, read with `serde_json`.
//!
//! The items of this module that are marked `external_body` are trusted: each
//! states what one function of `serde_json` returns, and nothing here proves
//! it.
use vstd::prelude::*;

verus! {

/// A JSON document as a tree of plain values.
pub enum Json {
    Null,
    Bool(bool),
    /// An integer that fits `i64`.
    Int(i64),
    /// Any other number.
    Number,
    Text(Seq<char>),
    List(Seq<Json>),
    Dict(Map<Seq<char>, Json>),
}

/// `serde_json::Value`, as an opaque type.
#[verifier::external_type_specification]
#[verifier::external_body]
pub struct ExValue(serde_json::Value);

/// `serde_json::Error`, as an opaque type.
#[verifier::external_type_specification]
#[verifier::external_body]
pub struct ExJsonError(serde_json::Error);

/// The document that a `serde_json::Value` holds: `Null`, `Bool`, `Text`,
/// `List` and `Dict` for its variants `Null`, `Bool`, `String`, `Array` and
/// `Object`, and for a `Number` `Int` where it is an integer that fits
/// `i64`, else `Number`.
pub uninterp spec fn json_of(value: serde_json::Value) -> Json;

/// The document that `serde_json::from_str` reads from `text`, or `None`
/// where it rejects the text.
pub uninterp spec fn json_parse(text: Seq<char>) -> Option<Json>;

/// `serde_json::from_str` at the type `Value`: the outcome depends on the
/// text alone, and a value that comes back holds the document read.
#[verifier::external_body]
pub(crate) fn parse_value(text: &str) -> (r: Result<serde_json::Value, serde_json::Error>)
    ensures
        match r {
            Ok(value) => json_parse(text@) == Some(json_of(value)),
            Err(_) => json_parse(text@) is None,
        },
{
    serde_json::from_str::<serde_json::Value>(text)
}

/// `Value::get` with a string index: the member of an object under `key`,
/// `None` where the value is no object or has no such member.
#[verifier::external_body]
pub(crate) fn member<'a>(value: &'a serde_json::Value, key: &str) -> (r: Option<
    &'a serde_json::Value,
>)
    ensures
        match r {
            Some(found) => json_of(*value) matches Json::Dict(m) && m.contains_key(key@) && m[key@]
                == json_of(*found),
            None => !(json_of(*value) matches Json::Dict(m) && m.contains_key(key@)),
        },
{
    value.get(key)
}

/// `Value::as_i64`: the integer that the value is, where it is one that fits
/// `i64`.
#[verifier::external_body]
pub(crate) fn as_integer(value: &serde_json::Value) -> (r: Option<i64>)
    ensures
        r == match json_of(*value) {
            Json::Int(i) => Some(i),
            _ => None,
        },
{
    value.as_i64()
}

/// `Value::as_str`: the text that the value is, where it is a string.
#[verifier::external_body]
pub(crate) fn as_text<'a>(value: &'a serde_json::Value) -> (r: Option<&'a str>)
    ensures
        match r {
            Some(text) => json_of(*value) == Json::Text(text@),
            None => !(json_of(*value) is Text),
        },
{
    value.as_str()
}

/// `Value::as_array`: the elements of the value, where it is an array.
#[verifier::external_body]
pub(crate) fn as_list<'a>(value: &'a serde_json::Value) -> (r: Option<&'a Vec<serde_json::Value>>)
    ensures
        match r {
            Some(items) => json_of(*value) == Json::List(
                Seq::new(items@.len(), |i: int| json_of(items@[i])),
            ),
            None => !(json_of(*value) is List),
        },
{
    value.as_array()
}

/// `Value::is_null`.
#[verifier::external_body]
pub(crate) fn is_null(value: &serde_json::Value) -> (r: bool)
    ensures
        r == (json_of(*value) is Null),
{
    value.is_null()
}

/// Whether `text` is a well-formed JSON document.
pub fn is_json(text: &str) -> (r: bool)
    ensures
        r == json_parse(text@) is Some,
{
    match parse_value(text) {
        Ok(_) => true,
        Err(_) => false,
    }
}

} // verus!
