//! Reading a decoded document.
//!
//! A document is a `serde_json::Value`, which the verifier cannot look into.
//! What each accessor of `serde_json` returns has a name here; the lookups
//! that the extraction is written with are verified against those names.

use vstd::prelude::*;
use serde_json::Value;

verus! {

#[verifier::external_type_specification]
#[verifier::external_body]
pub struct ExValue(serde_json::Value);

#[verifier::external_type_specification]
#[verifier::external_body]
pub struct ExJsonError(serde_json::Error);

/// What `serde_json::from_str` decodes from a text: the document, or `None`
/// where the text is not one.
pub uninterp spec fn json_parsed(text: Seq<char>) -> Option<Value>;

/// What `Value::get` finds under a key: the member of that name where the
/// value is an object that has one.
pub uninterp spec fn json_member(value: Value, key: Seq<char>) -> Option<Value>;

/// What `Value::is_object` answers.
pub uninterp spec fn json_is_object(value: Value) -> bool;

/// What `Value::as_array` returns: the elements, where the value is an array.
pub uninterp spec fn json_items(value: Value) -> Option<Seq<Value>>;

/// What `Value::as_str` returns: the text, where the value is a string.
pub uninterp spec fn json_text(value: Value) -> Option<Seq<char>>;

/// What `Value::as_bool` returns: the flag, where the value is a boolean.
pub uninterp spec fn json_flag(value: Value) -> Option<bool>;

/// What `Value::as_u64` returns: the number, where the value is an integer
/// that is not negative and fits.
pub uninterp spec fn json_unsigned(value: Value) -> Option<u64>;

/// What `Value::as_f64` returns, as the bit pattern of the binary64 number,
/// where the value is a number.
pub uninterp spec fn json_number_bits(value: Value) -> Option<u64>;

/// Calls `serde_json::from_str` for a `Value`. The contract claims that the
/// result depends on the text alone.
#[verifier::external_body]
pub(crate) fn parse(text: &str) -> (r: Result<Value, serde_json::Error>)
    ensures
        match r {
            Ok(document) => json_parsed(text@) == Some(document),
            Err(_) => json_parsed(text@) is None,
        },
{
    serde_json::from_str::<Value>(text)
}

/// Calls `Value::get` with a text key. The contract names the result.
#[verifier::external_body]
pub(crate) fn member<'a>(value: &'a Value, key: &str) -> (r: Option<&'a Value>)
    ensures
        match r {
            Some(found) => json_member(*value, key@) == Some(*found),
            None => json_member(*value, key@) is None,
        },
{
    value.get(key)
}

/// Calls `Value::is_object`. The contract names the result.
#[verifier::external_body]
pub(crate) fn is_object(value: &Value) -> (r: bool)
    ensures
        r == json_is_object(*value),
{
    value.is_object()
}

/// Calls `Value::as_array`. The contract names the result.
#[verifier::external_body]
pub(crate) fn items<'a>(value: &'a Value) -> (r: Option<&'a Vec<Value>>)
    ensures
        match r {
            Some(found) => json_items(*value) == Some(found@),
            None => json_items(*value) is None,
        },
{
    value.as_array()
}

/// Calls `Value::as_str`. The contract names the result.
#[verifier::external_body]
pub(crate) fn text<'a>(value: &'a Value) -> (r: Option<&'a str>)
    ensures
        match r {
            Some(found) => json_text(*value) == Some(found@),
            None => json_text(*value) is None,
        },
{
    value.as_str()
}

/// Calls `Value::as_bool`. The contract names the result.
#[verifier::external_body]
pub(crate) fn flag(value: &Value) -> (r: Option<bool>)
    ensures
        r == json_flag(*value),
{
    value.as_bool()
}

/// Calls `Value::as_u64`. The contract names the result.
#[verifier::external_body]
pub(crate) fn unsigned(value: &Value) -> (r: Option<u64>)
    ensures
        r == json_unsigned(*value),
{
    value.as_u64()
}

/// Calls `Value::as_f64` and hands the number on as its bit pattern. The
/// contract names the result.
#[verifier::external_body]
pub(crate) fn number_bits(value: &Value) -> (r: Option<u64>)
    ensures
        r == json_number_bits(*value),
{
    match value.as_f64() {
        Some(number) => Some(number.to_bits()),
        None => None,
    }
}

/// The text under `key`, where `value` has a string there.
pub open spec fn text_at(value: Value, key: Seq<char>) -> Option<Seq<char>> {
    match json_member(value, key) {
        Some(found) => json_text(found),
        None => None,
    }
}

/// The flag under `key`, where `value` has a boolean there.
pub open spec fn flag_at(value: Value, key: Seq<char>) -> Option<bool> {
    match json_member(value, key) {
        Some(found) => json_flag(found),
        None => None,
    }
}

/// The number under `key`, where `value` has an unsigned integer there.
pub open spec fn unsigned_at(value: Value, key: Seq<char>) -> Option<u64> {
    match json_member(value, key) {
        Some(found) => json_unsigned(found),
        None => None,
    }
}

/// The bit pattern of the number under `key`, where `value` has a number
/// there.
pub open spec fn number_at(value: Value, key: Seq<char>) -> Option<u64> {
    match json_member(value, key) {
        Some(found) => json_number_bits(found),
        None => None,
    }
}

/// The elements under `key`, where `value` has an array there.
pub open spec fn items_at(value: Value, key: Seq<char>) -> Option<Seq<Value>> {
    match json_member(value, key) {
        Some(found) => json_items(found),
        None => None,
    }
}

/// Looks up the string under `key`.
pub fn text_field(value: &Value, key: &str) -> (r: Option<String>)
    ensures
        match r {
            Some(found) => text_at(*value, key@) == Some(found@),
            None => text_at(*value, key@) is None,
        },
{
    match member(value, key) {
        Some(found) => match text(found) {
            Some(content) => Some(content.to_owned()),
            None => None,
        },
        None => None,
    }
}

/// Looks up the boolean under `key`.
pub fn flag_field(value: &Value, key: &str) -> (r: Option<bool>)
    ensures
        r == flag_at(*value, key@),
{
    match member(value, key) {
        Some(found) => flag(found),
        None => None,
    }
}

/// Looks up the unsigned integer under `key`.
pub fn unsigned_field(value: &Value, key: &str) -> (r: Option<u64>)
    ensures
        r == unsigned_at(*value, key@),
{
    match member(value, key) {
        Some(found) => unsigned(found),
        None => None,
    }
}

/// Looks up the number under `key`, as its bit pattern.
pub fn number_field(value: &Value, key: &str) -> (r: Option<u64>)
    ensures
        r == number_at(*value, key@),
{
    match member(value, key) {
        Some(found) => number_bits(found),
        None => None,
    }
}

/// Looks up the array under `key`.
pub fn items_field<'a>(value: &'a Value, key: &str) -> (r: Option<&'a Vec<Value>>)
    ensures
        match r {
            Some(found) => items_at(*value, key@) == Some(found@),
            None => items_at(*value, key@) is None,
        },
{
    match member(value, key) {
        Some(found) => items(found),
        None => None,
    }
}

} // verus!
