//! The JSON reader the assembly-definition parser is built on, behind contracts.

use vstd::prelude::*;

verus! {

/// `serde_json::Value`: a JSON document or a part of one.
#[verifier::external_type_specification]
#[verifier::external_body]
pub struct ExJsonValue(serde_json::Value);

/// `serde_json::Error`: why a text is not a JSON document.
#[verifier::external_type_specification]
#[verifier::external_body]
pub struct ExJsonError(serde_json::Error);

/// A JSON value as the contracts see it. Nulls, booleans and numbers are not told apart: nothing
/// here reads them.
pub enum JsonView {
    Text(Seq<char>),
    List(Seq<JsonView>),
    Object(Map<Seq<char>, JsonView>),
    Other,
}

/// What a `serde_json::Value` holds.
pub uninterp spec fn json_view(value: serde_json::Value) -> JsonView;

/// The value that `text` denotes, or `None` when it is not a JSON document.
pub uninterp spec fn json_document(text: Seq<char>) -> Option<JsonView>;

/// Reads a JSON document: `serde_json::from_str`, into a `serde_json::Value`.
#[verifier::external_body]
pub(crate) fn json_from_str(text: &str) -> (value: Result<serde_json::Value, serde_json::Error>)
    ensures
        match json_document(text@) {
            None => value is Err,
            Some(document) => value is Ok && json_view(value->Ok_0) == document,
        },
{
    serde_json::from_str(text)
}

/// The member `key` of an object, `None` when there is none or the value is not an object:
/// `serde_json::Value::get`.
#[verifier::external_body]
pub(crate) fn json_get<'a>(value: &'a serde_json::Value, key: &str) -> (member: Option<
    &'a serde_json::Value,
>)
    ensures
        match json_view(*value) {
            JsonView::Object(members) => if members.contains_key(key@) {
                member is Some && json_view(*member->0) == members[key@]
            } else {
                member is None
            },
            _ => member is None,
        },
{
    value.get(key)
}

/// The text of a string, `None` for any other value: `serde_json::Value::as_str`.
#[verifier::external_body]
pub(crate) fn json_as_str<'a>(value: &'a serde_json::Value) -> (text: Option<&'a str>)
    ensures
        match json_view(*value) {
            JsonView::Text(chars) => text is Some && text->0@ == chars,
            _ => text is None,
        },
{
    value.as_str()
}

/// The elements of an array, `None` for any other value: `serde_json::Value::as_array`.
#[verifier::external_body]
pub(crate) fn json_as_array<'a>(value: &'a serde_json::Value) -> (elements: Option<
    &'a Vec<serde_json::Value>,
>)
    ensures
        match json_view(*value) {
            JsonView::List(views) => elements is Some && elements->0@.len() == views.len() && (
            forall|i: int| 0 <= i < views.len() ==> json_view(#[trigger] elements->0@[i]) == views[i]),
            _ => elements is None,
        },
{
    value.as_array()
}

}
