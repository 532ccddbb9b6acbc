//! JSON documents, each held as its compact text.

use crate::text::{optional_text, texts};
use vstd::prelude::*;

verus! {

/// The compact text of the JSON value that a text writes; nothing where it writes none.
pub uninterp spec fn json_value(text: Seq<char>) -> Option<Seq<char>>;

/// The compact text of an object's member; nothing where the text writes no object or the object
/// has no such member.
pub uninterp spec fn json_member(document: Seq<char>, key: Seq<char>) -> Option<Seq<char>>;

/// The characters of a JSON string; nothing where the text writes none.
pub uninterp spec fn json_string(document: Seq<char>) -> Option<Seq<char>>;

/// The compact texts of an array's items; nothing where the text writes no array.
pub uninterp spec fn json_items(document: Seq<char>) -> Option<Seq<Seq<char>>>;

/// The texts of an optional sequence of strings.
pub open spec fn optional_texts(strings: Option<Vec<String>>) -> Option<Seq<Seq<char>>> {
    match strings {
        Some(inner) => Some(texts(inner@)),
        None => None,
    }
}

/// `serde_json::from_str` reads the text as a JSON value, or fails where it is none. What it reads,
/// printed compactly, is a function of the text.
#[verifier::external_body]
pub(crate) fn parse_json(text: &str) -> (document: Option<String>)
    ensures
        optional_text(document) == json_value(text@),
{
    let value: serde_json::Value = serde_json::from_str(text).ok()?;
    Some(value.to_string())
}

/// `serde_json::Value::get` hands out an object's member. Which one, printed compactly, is a
/// function of the document's text and the key.
#[verifier::external_body]
pub(crate) fn get_member(document: &str, key: &str) -> (member: Option<String>)
    ensures
        optional_text(member) == json_member(document@, key@),
{
    let value: serde_json::Value = serde_json::from_str(document).ok()?;
    value.get(key).map(|member| member.to_string())
}

/// `serde_json::Value::as_str` hands out the characters of a JSON string. They are a function of
/// the document's text.
#[verifier::external_body]
pub(crate) fn get_string(document: &str) -> (string: Option<String>)
    ensures
        optional_text(string) == json_string(document@),
{
    let value: serde_json::Value = serde_json::from_str(document).ok()?;
    value.as_str().map(|string| string.to_owned())
}

/// `serde_json::Value::as_array` hands out an array's items. Printed compactly, they are a function
/// of the document's text.
#[verifier::external_body]
pub(crate) fn get_items(document: &str) -> (items: Option<Vec<String>>)
    ensures
        optional_texts(items) == json_items(document@),
{
    let value: serde_json::Value = serde_json::from_str(document).ok()?;
    value.as_array().map(|items| items.iter().map(|item| item.to_string()).collect())
}

/// The characters of an object's member that is a string.
pub open spec fn string_member(document: Seq<char>, key: Seq<char>) -> Option<Seq<char>> {
    match json_member(document, key) {
        Some(member) => json_string(member),
        None => None,
    }
}

/// The characters of the object's member, where it is a string.
pub fn get_string_member(document: &str, key: &str) -> (string: Option<String>)
    ensures
        optional_text(string) == string_member(document@, key@),
{
    match get_member(document, key) {
        Some(member) => get_string(member.as_str()),
        None => None,
    }
}

} // verus!
