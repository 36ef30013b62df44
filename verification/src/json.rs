use vstd::prelude::*;

verus! {

/// `serde_json::Value`, a JSON value. Nothing of its inside is known here.
#[verifier::external_type_specification]
#[verifier::external_body]
pub struct ExJsonValue(serde_json::Value);

/// `serde_json::Error`, the error of reading JSON. Nothing of its inside is
/// known here.
#[verifier::external_type_specification]
#[verifier::external_body]
pub struct ExJsonError(serde_json::Error);

/// The members of `value` that are strings, by their keys, where `value` is
/// a JSON object; the empty map where it is anything else.
pub uninterp spec fn string_members(value: serde_json::Value) -> Map<Seq<char>, Seq<char>>;

/// The string members of the JSON value that `text` is; `None` where `text`
/// is not one JSON value and nothing more.
pub uninterp spec fn json_document(text: Seq<char>) -> Option<Map<Seq<char>, Seq<char>>>;

/// `serde_json::from_str` at the type `serde_json::Value`: parses `text` as
/// one JSON value. It fails exactly where `text` is no JSON value; nothing
/// is claimed of the error.
#[verifier::external_body]
pub(crate) fn parse(text: &str) -> (r: Result<serde_json::Value, serde_json::Error>)
    ensures
        r matches Ok(value) ==> json_document(text@) == Some(string_members(value)),
        r is Err ==> json_document(text@) is None,
{
    serde_json::from_str::<serde_json::Value>(text)
}

/// `serde_json::Value::get` with a string index, then
/// `serde_json::Value::as_str`: the member `key` of an object where that
/// member is a string; `None` for a missing member, for a member that is no
/// string, and for a value that is no object.
#[verifier::external_body]
pub(crate) fn string_member(value: &serde_json::Value, key: &str) -> (r: Option<String>)
    ensures
        r matches Some(text) ==> string_members(*value).contains_key(key@) && string_members(
            *value,
        )[key@] == text@,
        r is None ==> !string_members(*value).contains_key(key@),
{
    value.get(key).and_then(|member| member.as_str()).map(|text| text.to_owned())
}

/// The `text` field of given string members.
pub open spec fn text_of(members: Map<Seq<char>, Seq<char>>) -> Option<Seq<char>> {
    if members.contains_key("text"@) {
        Some(members["text"@])
    } else {
        None
    }
}

/// The string under the key `text` of the JSON object that `line` is; `None`
/// where `line` is no JSON value, no object, has no such member, or has one
/// that is no string.
pub open spec fn text_record(line: Seq<char>) -> Option<Seq<char>> {
    match json_document(line) {
        Some(members) => text_of(members),
        None => None,
    }
}

/// Reads one line as a structured record and returns its `text` field.
pub fn read_text_record(line: &str) -> (r: Option<String>)
    ensures
        crate::model::opt_view(r) == text_record(line@),
{
    match parse(line) {
        Ok(value) => string_member(&value, "text"),
        Err(_) => None,
    }
}

} // verus!
