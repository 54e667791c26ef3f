//! JSON documents as the adapters read them.

use vstd::prelude::*;

verus! {

/// A JSON value. A number is held as its 64-bit integer where it is one, and
/// as nothing where it is a fraction or lies outside that range. The members
/// of an object stand in the order in which the reader hands them out.
#[derive(Debug)]
pub enum Json {
    Null,
    Bool(bool),
    Number(Option<i64>),
    Text(String),
    Array(Vec<Json>),
    Object(Vec<(String, Json)>),
}

/// `serde_json::Value`, as the reader of `serde_json` hands a document out.
#[verifier::external_type_specification]
#[verifier::external_body]
pub struct ExValue(serde_json::Value);

/// The document that a text writes, or the message with which the reader
/// refuses the text.
pub uninterp spec fn json_document(text: Seq<char>) -> Result<Json, Seq<char>>;

/// The reading of a text as the contracts speak of it: the document, or the
/// characters of the message.
pub open spec fn reading_view(reading: Result<Json, String>) -> Result<Json, Seq<char>> {
    match reading {
        Ok(document) => Ok(document),
        Err(message) => Err(message@),
    }
}

/// Turns a value of `serde_json` into a [`Json`], variant by variant; a
/// number through `serde_json::Number::as_i64`.
#[verifier::external_body]
fn from_value(value: serde_json::Value) -> Json {
    match value {
        serde_json::Value::Null => Json::Null,
        serde_json::Value::Bool(flag) => Json::Bool(flag),
        serde_json::Value::Number(number) => Json::Number(number.as_i64()),
        serde_json::Value::String(text) => Json::Text(text),
        serde_json::Value::Array(items) => Json::Array(items.into_iter().map(from_value).collect()),
        serde_json::Value::Object(members) => Json::Object(
            members.into_iter().map(|(name, member)| (name, from_value(member))).collect(),
        ),
    }
}

/// `serde_json::from_str` at the type `serde_json::Value`: the document that
/// the whole text writes, or the message of the error with which the reader
/// refuses it. Which document a text writes is named, not described.
#[verifier::external_body]
pub(crate) fn parse_document(text: &str) -> (reading: Result<Json, String>)
    ensures
        reading_view(reading) == json_document(text@),
{
    match serde_json::from_str::<serde_json::Value>(text) {
        Ok(value) => Ok(from_value(value)),
        Err(error) => Err(error.to_string()),
    }
}

/// A raw score can be brought onto the canonical scale: its tenfold is a
/// 64-bit integer.
pub open spec fn scalable(raw: i64) -> bool {
    i64::MIN <= 10 * raw <= i64::MAX
}

/// The raw score that a member of the scores holds: an integer that can be
/// brought onto the canonical scale.
pub open spec fn raw_score(value: Json) -> Option<i64> {
    match value {
        Json::Number(Some(raw)) => if scalable(raw) {
            Some(raw)
        } else {
            None
        },
        _ => None,
    }
}

/// The position of the first member of the given name among those from
/// `start` on.
pub open spec fn member_position(
    members: Seq<(String, Json)>,
    name: Seq<char>,
    start: int,
) -> Option<int>
    decreases members.len() - start,
{
    if start < 0 || start >= members.len() {
        None
    } else if members[start].0@ == name {
        Some(start)
    } else {
        member_position(members, name, start + 1)
    }
}

/// The first member of the given name.
pub open spec fn member(members: Seq<(String, Json)>, name: Seq<char>) -> Option<Json> {
    match member_position(members, name, 0) {
        Some(i) => Some(members[i].1),
        None => None,
    }
}

/// The text of the first member of the given name, where that member is a
/// text.
pub open spec fn text_member(members: Seq<(String, Json)>, name: Seq<char>) -> Option<Seq<char>> {
    match member(members, name) {
        Some(Json::Text(text)) => Some(text@),
        _ => None,
    }
}

/// The members of the first member of the given name, where that member is
/// an object.
pub open spec fn object_member(members: Seq<(String, Json)>, name: Seq<char>) -> Option<
    Seq<(String, Json)>,
> {
    match member(members, name) {
        Some(Json::Object(inner)) => Some(inner@),
        _ => None,
    }
}

/// Finds the first member of the given name.
pub fn find_member<'a>(members: &'a Vec<(String, Json)>, name: &str) -> (found: Option<&'a Json>)
    ensures
        match found {
            Some(value) => member(members@, name@) == Some(*value),
            None => member(members@, name@) is None,
        },
{
    let mut i: usize = 0;
    while i < members.len()
        invariant
            i <= members.len(),
            member_position(members@, name@, 0) == member_position(members@, name@, i as int),
        decreases members.len() - i,
    {
        if crate::text::same_text(members[i].0.as_str(), name) {
            return Some(&members[i].1);
        }
        i = i + 1;
    }
    None
}

/// Finds the text of the first member of the given name.
pub fn find_text<'a>(members: &'a Vec<(String, Json)>, name: &str) -> (found: Option<&'a String>)
    ensures
        match found {
            Some(text) => text_member(members@, name@) == Some(text@),
            None => text_member(members@, name@) is None,
        },
{
    match find_member(members, name) {
        Some(Json::Text(text)) => Some(text),
        _ => None,
    }
}

/// Finds the members of the first member of the given name.
pub fn find_object<'a>(members: &'a Vec<(String, Json)>, name: &str) -> (found: Option<
    &'a Vec<(String, Json)>,
>)
    ensures
        match found {
            Some(inner) => object_member(members@, name@) == Some(inner@),
            None => object_member(members@, name@) is None,
        },
{
    match find_member(members, name) {
        Some(Json::Object(inner)) => Some(inner),
        _ => None,
    }
}

/// The text of the first member of the given name, for members that hold
/// such a text.
pub fn required_text<'a>(members: &'a Vec<(String, Json)>, name: &str) -> (text: &'a str)
    requires
        text_member(members@, name@) is Some,
    ensures
        text_member(members@, name@) == Some(text@),
{
    match find_text(members, name) {
        Some(text) => text.as_str(),
        None => "",
    }
}

} // verus!
