//! The boundary to `serde_json`: the two types, the names and the calls that
//! the message layer relies on. Nothing in this file is proved; each contract
//! states what the source of `serde_json` shows.

use vstd::prelude::*;

verus! {

/// A parsed JSON value. Its inside is read through the calls below only.
#[verifier::external_type_specification]
#[verifier::external_body]
pub struct ExJsonValue(serde_json::Value);

/// The error of a failed parse.
#[verifier::external_type_specification]
#[verifier::external_body]
pub struct ExJsonError(serde_json::Error);

/// The value that `serde_json::from_slice` parses `text` to; none where it
/// reports an error.
pub uninterp spec fn json_document(text: Seq<u8>) -> Option<serde_json::Value>;

/// The member that `Value::get` finds under `key`; none where the value is no
/// object or has no such member.
pub uninterp spec fn json_member(value: serde_json::Value, key: Seq<char>) -> Option<
    serde_json::Value,
>;

/// The characters that `Value::as_str` gives; none where the value is no
/// string.
pub uninterp spec fn json_text(value: serde_json::Value) -> Option<Seq<char>>;

/// The number that `Value::as_u64` gives; none where the value is no integer
/// or does not fit in 64 unsigned bits.
pub uninterp spec fn json_unsigned(value: serde_json::Value) -> Option<u64>;

/// `serde_json::from_slice`, read as a `Value`: parses the bytes as one JSON
/// text. The outcome depends on the bytes alone: the same bytes give the same
/// value, or fail, every time.
#[verifier::external_body]
pub(crate) fn parse_document(text: &[u8]) -> (result: Result<serde_json::Value, serde_json::Error>)
    ensures
        match result {
            Ok(value) => json_document(text@) == Some(value),
            Err(_) => json_document(text@) is None,
        },
{
    serde_json::from_slice(text)
}

/// `Value::get` with a string index: the member of an object under `key`.
/// The outcome depends on the value and the key alone.
#[verifier::external_body]
pub(crate) fn member<'a>(value: &'a serde_json::Value, key: &str) -> (result: Option<
    &'a serde_json::Value,
>)
    ensures
        match result {
            Some(found) => json_member(*value, key@) == Some(*found),
            None => json_member(*value, key@) is None,
        },
{
    value.get(key)
}

/// `Value::as_str`: the characters of a JSON string. The outcome depends on
/// the value alone.
pub assume_specification<'a>[ serde_json::Value::as_str ](value: &'a serde_json::Value) -> (result:
    Option<&'a str>)
    ensures
        match result {
            Some(text) => json_text(*value) == Some(text@),
            None => json_text(*value) is None,
        },
;

/// `Value::as_u64`: the number of a JSON integer that fits in 64 unsigned
/// bits. The outcome depends on the value alone.
pub assume_specification[ serde_json::Value::as_u64 ](value: &serde_json::Value) -> (result: Option<
    u64,
>)
    ensures
        result == json_unsigned(*value),
;

/// The JSON string that `Value::from` makes of `text`.
pub uninterp spec fn json_string(text: Seq<char>) -> serde_json::Value;

/// The JSON object that `Value::from_iter` makes of `members`, each a key
/// with its value.
pub uninterp spec fn json_object(members: Seq<(Seq<char>, serde_json::Value)>) -> serde_json::Value;

/// The text that `serde_json::to_string` writes for `value`; none where it
/// reports an error.
pub uninterp spec fn json_rendering(value: serde_json::Value) -> Option<Seq<char>>;

/// The members of an object to be, as the contracts see them.
pub open spec fn named(members: Seq<(String, serde_json::Value)>) -> Seq<
    (Seq<char>, serde_json::Value),
> {
    Seq::new(members.len(), |i: int| (members[i].0@, members[i].1))
}

/// `Value::from` on a string slice: the JSON string of these characters. The
/// outcome depends on the characters alone.
#[verifier::external_body]
pub(crate) fn string_value(text: &str) -> (value: serde_json::Value)
    ensures
        value == json_string(text@),
{
    serde_json::Value::from(text)
}

/// `Value::from_iter` on pairs of key and value: the JSON object of these
/// members. The outcome depends on the members and their order alone.
#[verifier::external_body]
pub(crate) fn object_value(members: Vec<(String, serde_json::Value)>) -> (value: serde_json::Value)
    ensures
        value == json_object(named(members@)),
{
    serde_json::Value::from_iter(members)
}

/// `serde_json::to_string` on a `Value`: its JSON text. The outcome depends
/// on the value alone.
#[verifier::external_body]
pub(crate) fn render(value: &serde_json::Value) -> (result: Result<String, serde_json::Error>)
    ensures
        match result {
            Ok(text) => json_rendering(*value) == Some(text@),
            Err(_) => json_rendering(*value) is None,
        },
{
    serde_json::to_string(value)
}

} // verus!
