//! Reading JSON documents.

use vstd::prelude::*;

verus! {

/// `serde_json::Value`, a JSON document.
#[verifier::external_type_specification]
#[verifier::external_body]
pub struct ExValue(serde_json::Value);

/// What a JSON document holds, as far as the library reads it.
pub enum Json {
    /// A string.
    Text(Seq<char>),
    /// An integer that fits in 64 signed bits.
    Int(i64),
    Array(Seq<Json>),
    Object(Map<Seq<char>, Json>),
    /// Anything else: null, a boolean, another number.
    Other,
}

/// What a `serde_json::Value` holds.
pub uninterp spec fn json_view(v: serde_json::Value) -> Json;

/// What `serde_json::from_str` reads of a text, where it is a JSON document.
pub uninterp spec fn json_of(text: Seq<char>) -> Option<Json>;

/// The member of an object.
pub open spec fn member(v: Option<Json>, key: Seq<char>) -> Option<Json> {
    match v {
        Some(Json::Object(m)) if m.dom().contains(key) => Some(m[key]),
        _ => None,
    }
}

/// The element of an array.
pub open spec fn element(v: Option<Json>, i: int) -> Option<Json> {
    match v {
        Some(Json::Array(s)) if 0 <= i < s.len() => Some(s[i]),
        _ => None,
    }
}

/// The text of a string.
pub open spec fn text_of(v: Option<Json>) -> Option<Seq<char>> {
    match v {
        Some(Json::Text(s)) => Some(s),
        _ => None,
    }
}

/// The value of an integer.
pub open spec fn int_of(v: Option<Json>) -> Option<i64> {
    match v {
        Some(Json::Int(n)) => Some(n),
        _ => None,
    }
}

/// What a value holds, where there is one.
pub open spec fn seen(v: Option<&serde_json::Value>) -> Option<Json> {
    match v {
        Some(v) => Some(json_view(*v)),
        None => None,
    }
}

/// `serde_json::from_str`: the document that a text is, or nothing where it is
/// none. What it reads is a function of the text, and named here.
#[verifier::external_body]
pub(crate) fn parse_json(text: &str) -> (r: Option<serde_json::Value>)
    ensures
        r matches Some(v) ==> json_of(text@) == Some(json_view(v)),
        r is None ==> json_of(text@) is None,
{
    serde_json::from_str(text).ok()
}

/// `serde_json::Value::get` with a key: the member of that name, where the value
/// is an object that has one.
#[verifier::external_body]
fn get_member<'a>(v: &'a serde_json::Value, key: &str) -> (r: Option<&'a serde_json::Value>)
    ensures
        seen(r) == member(Some(json_view(*v)), key@),
{
    v.get(key)
}

/// `serde_json::Value::get` with an index: the element there, where the value is
/// an array that is long enough.
#[verifier::external_body]
fn get_element<'a>(v: &'a serde_json::Value, i: usize) -> (r: Option<&'a serde_json::Value>)
    ensures
        seen(r) == element(Some(json_view(*v)), i as int),
{
    v.get(i)
}

/// `serde_json::Value::as_str`: the text, where the value is a string.
#[verifier::external_body]
fn get_text<'a>(v: &'a serde_json::Value) -> (r: Option<&'a str>)
    ensures
        r matches Some(s) ==> text_of(Some(json_view(*v))) == Some(s@),
        r is None ==> text_of(Some(json_view(*v))) is None,
{
    v.as_str()
}

/// `serde_json::Value::as_i64`: the number, where the value is an integer that
/// fits in 64 signed bits.
#[verifier::external_body]
fn get_int(v: &serde_json::Value) -> (r: Option<i64>)
    ensures
        r == int_of(Some(json_view(*v))),
{
    v.as_i64()
}

/// The member of an object.
pub fn member_of<'a>(v: Option<&'a serde_json::Value>, key: &str) -> (r: Option<
    &'a serde_json::Value,
>)
    ensures
        seen(r) == member(seen(v), key@),
{
    match v {
        Some(v) => get_member(v, key),
        None => None,
    }
}

/// The element of an array.
pub fn element_of<'a>(v: Option<&'a serde_json::Value>, i: usize) -> (r: Option<
    &'a serde_json::Value,
>)
    ensures
        seen(r) == element(seen(v), i as int),
{
    match v {
        Some(v) => get_element(v, i),
        None => None,
    }
}

/// The text of a string.
pub fn text_in<'a>(v: Option<&'a serde_json::Value>) -> (r: Option<&'a str>)
    ensures
        r matches Some(s) ==> text_of(seen(v)) == Some(s@),
        r is None ==> text_of(seen(v)) is None,
{
    match v {
        Some(v) => get_text(v),
        None => None,
    }
}

/// The value of an integer.
pub fn int_in(v: Option<&serde_json::Value>) -> (r: Option<i64>)
    ensures
        r == int_of(seen(v)),
{
    match v {
        Some(v) => get_int(v),
        None => None,
    }
}

} // verus!
