//! The JSON object that a note's metadata header carries.
//!
//! Objects are built, read, written and parsed by `serde_json`. Nothing in
//! this module is proved: each function states what `serde_json` does, and
//! the verified code elsewhere relies on exactly these statements.

use vstd::prelude::*;

verus! {

#[verifier::external_type_specification]
#[verifier::external_body]
pub struct ExJsonValue(serde_json::Value);

#[verifier::external_type_specification]
#[verifier::external_body]
#[verifier::reject_recursive_types(K)]
#[verifier::reject_recursive_types(V)]
pub struct ExJsonMap<K, V>(serde_json::Map<K, V>);

/// What a member of a JSON object holds, as far as notes read it.
pub enum JsonAtom {
    /// A JSON string.
    Text(Seq<char>),
    /// `true` or `false`.
    Flag(bool),
    /// A number that is an integer in the range of `i64`.
    Integer(int),
    /// Anything else: `null`, any other number, an array, an object.
    Other,
}

/// The members of a JSON object, by key.
pub uninterp spec fn json_members(object: serde_json::Map<String, serde_json::Value>) -> Map<
    Seq<char>,
    JsonAtom,
>;

/// The members of the JSON object that `text` spells, or `None` where `text`
/// is not the text of one JSON object.
pub uninterp spec fn json_document(text: Seq<char>) -> Option<Map<Seq<char>, JsonAtom>>;

/// The text that `serde_json` writes for an object with these members, or
/// `None` where it reports an error, which it does for no object. It is the
/// text for objects whose members are strings, booleans and integers only.
pub uninterp spec fn json_text(members: Map<Seq<char>, JsonAtom>) -> Option<Seq<char>>;

/// Every member holds a string, a boolean or an integer.
pub open spec fn holds_atoms_only(members: Map<Seq<char>, JsonAtom>) -> bool {
    forall|key: Seq<char>| #[trigger] members.contains_key(key) ==> !(members[key] is Other)
}

/// The string that the member `key` holds, if it is there and holds one.
pub open spec fn member_text(members: Map<Seq<char>, JsonAtom>, key: Seq<char>) -> Option<
    Seq<char>,
> {
    if members.contains_key(key) {
        match members[key] {
            JsonAtom::Text(value) => Some(value),
            _ => None,
        }
    } else {
        None
    }
}

/// The boolean that the member `key` holds, if it is there and holds one.
pub open spec fn member_flag(members: Map<Seq<char>, JsonAtom>, key: Seq<char>) -> Option<bool> {
    if members.contains_key(key) {
        match members[key] {
            JsonAtom::Flag(value) => Some(value),
            _ => None,
        }
    } else {
        None
    }
}

/// The integer that the member `key` holds, if it is there and holds one.
pub open spec fn member_integer(members: Map<Seq<char>, JsonAtom>, key: Seq<char>) -> Option<int> {
    if members.contains_key(key) {
        match members[key] {
            JsonAtom::Integer(value) => Some(value),
            _ => None,
        }
    } else {
        None
    }
}

/// Calls `serde_json::Map::new`. Assumed: the new object has no members.
#[verifier::external_body]
pub(crate) fn empty_object() -> (out: serde_json::Map<String, serde_json::Value>)
    ensures
        json_members(out) == (Map::<Seq<char>, JsonAtom>::empty()),
{
    serde_json::Map::new()
}

/// Calls `serde_json::Map::insert` with `Value::String`. Assumed: afterwards
/// the member `key` holds that string, and every other member is as before.
#[verifier::external_body]
pub(crate) fn insert_text(
    object: &mut serde_json::Map<String, serde_json::Value>,
    key: &str,
    value: &str,
)
    ensures
        json_members(*final(object)) == json_members(*old(object)).insert(
            key@,
            JsonAtom::Text(value@),
        ),
{
    object.insert(key.to_string(), serde_json::Value::String(value.to_string()));
}

/// Calls `serde_json::Map::insert` with `Value::Bool`. Assumed: afterwards
/// the member `key` holds that boolean, and every other member is as before.
#[verifier::external_body]
pub(crate) fn insert_flag(
    object: &mut serde_json::Map<String, serde_json::Value>,
    key: &str,
    value: bool,
)
    ensures
        json_members(*final(object)) == json_members(*old(object)).insert(
            key@,
            JsonAtom::Flag(value),
        ),
{
    object.insert(key.to_string(), serde_json::Value::Bool(value));
}

/// Calls `serde_json::Map::insert` with the `Value` that `From<i64>` makes.
/// Assumed: afterwards the member `key` holds that integer, and every other
/// member is as before.
#[verifier::external_body]
pub(crate) fn insert_integer(
    object: &mut serde_json::Map<String, serde_json::Value>,
    key: &str,
    value: i64,
)
    ensures
        json_members(*final(object)) == json_members(*old(object)).insert(
            key@,
            JsonAtom::Integer(value as int),
        ),
{
    object.insert(key.to_string(), serde_json::Value::from(value));
}

/// Calls `serde_json::Map::get` and `Value::as_str`. Assumed: the result is
/// the string that the member `key` holds, and `None` where there is no such
/// member or it holds no string.
#[verifier::external_body]
pub(crate) fn text_member(object: &serde_json::Map<String, serde_json::Value>, key: &str) -> (out:
    Option<String>)
    ensures
        match out {
            Some(value) => member_text(json_members(*object), key@) == Some(value@),
            None => member_text(json_members(*object), key@).is_none(),
        },
{
    object.get(key).and_then(serde_json::Value::as_str).map(String::from)
}

/// Calls `serde_json::Map::get` and `Value::as_bool`. Assumed: the result is
/// the boolean that the member `key` holds, and `None` where there is no such
/// member or it holds no boolean.
#[verifier::external_body]
pub(crate) fn flag_member(object: &serde_json::Map<String, serde_json::Value>, key: &str) -> (out:
    Option<bool>)
    ensures
        out == member_flag(json_members(*object), key@),
{
    object.get(key).and_then(serde_json::Value::as_bool)
}

/// Calls `serde_json::Map::get` and `Value::as_i64`. Assumed: the result is
/// the integer that the member `key` holds, and `None` where there is no
/// such member or it holds no integer in the range of `i64`.
#[verifier::external_body]
pub(crate) fn integer_member(
    object: &serde_json::Map<String, serde_json::Value>,
    key: &str,
) -> (out: Option<i64>)
    ensures
        match out {
            Some(value) => member_integer(json_members(*object), key@) == Some(value as int),
            None => member_integer(json_members(*object), key@).is_none(),
        },
{
    object.get(key).and_then(serde_json::Value::as_i64)
}

/// Calls `serde_json::to_string` on an object; `None` stands for its error.
/// Assumed: there is a text. Every error of the serializer comes from a
/// failed write or from a key that is no string; it writes into a vector of
/// bytes, where no write fails, and the keys of an object are strings.
/// Assumed: the text holds no line feed, since the compact form has no line
/// breaks and strings are written with their control characters escaped; and
/// the text spells the object, so that parsing it gives the same members.
/// The objects of this crate come from the parser or hold strings, booleans
/// and integers, so that none is nested deeper than the parser reads.
/// Assumed further, of an object whose members are strings, booleans and
/// integers only: the text is the one that `json_text` names for the
/// members. The object keeps its members in the order of their keys and
/// writes them in that order, so the text depends on the members alone.
#[verifier::external_body]
pub(crate) fn render_object(object: &serde_json::Map<String, serde_json::Value>) -> (out: Option<
    String,
>)
    ensures
        out is Some,
        out matches Some(text) ==> !text@.contains('\n') && json_document(text@) == Some(
            json_members(*object),
        ),
        holds_atoms_only(json_members(*object)) ==> (match out {
            Some(text) => json_text(json_members(*object)) == Some(text@),
            None => json_text(json_members(*object)).is_none(),
        }),
{
    serde_json::to_string(object).ok()
}

/// Calls `serde_json::from_str` for a `Value` and keeps it where it is an
/// object. Assumed: the result holds the members that `json_document` names
/// for `text`, and is `None` exactly where `json_document` is.
#[verifier::external_body]
pub(crate) fn parse_object(text: &str) -> (out: Option<serde_json::Map<String, serde_json::Value>>)
    ensures
        match out {
            Some(object) => json_document(text@) == Some(json_members(object)),
            None => json_document(text@).is_none(),
        },
{
    match serde_json::from_str::<serde_json::Value>(text) {
        Ok(serde_json::Value::Object(object)) => Some(object),
        _ => None,
    }
}

} // verus!
