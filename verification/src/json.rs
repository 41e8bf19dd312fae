//! The JSON operations the library needs, made by `serde_json`. A JSON object
//! (`serde_json::Map`, kept in key order) is modelled by its members: each
//! key mapped to the compact JSON text of its value.

use vstd::prelude::*;

verus! {

#[verifier::external_type_specification]
#[verifier::external_body]
#[verifier::reject_recursive_types(K)]
#[verifier::reject_recursive_types(V)]
pub struct ExJsonMap<K, V>(serde_json::Map<K, V>);

#[verifier::external_type_specification]
#[verifier::external_body]
pub struct ExJsonValue(serde_json::Value);

/// The members of a JSON object: key -> compact JSON text of the value.
pub uninterp spec fn json_members(m: serde_json::Map<String, serde_json::Value>) -> Map<Seq<char>, Seq<char>>;

/// What `serde_json::from_str::<Value>` makes of `text` when it is a JSON
/// object: `Some` of its members; `None` when the text is no valid JSON or
/// holds another kind of value.
pub uninterp spec fn parsed_json_object(text: Seq<char>) -> Option<Map<Seq<char>, Seq<char>>>;

/// The compact text that `serde_json` writes for an object with these members.
pub uninterp spec fn json_object_text(members: Map<Seq<char>, Seq<char>>) -> Seq<char>;

/// Calls `serde_json::from_str::<serde_json::Value>` and keeps the result
/// when it is an object. Claimed: the result is the object that
/// `parsed_json_object` names for the text; it has finitely many members;
/// and the compact text of any part of it (some of its members with their
/// values) reads back as an object with those same keys. The last holds
/// because the writer escapes keys so that the reader gives them back, writes
/// only numbers and nesting that the reader accepts (the part came from the
/// reader and is no deeper than the whole), though a floating-point value may
/// read back with another last digit.
#[verifier::external_body]
pub(crate) fn parse_json_object(text: &str) -> (r: Option<serde_json::Map<String, serde_json::Value>>)
    ensures
        r is Some == parsed_json_object(text@) is Some,
        r matches Some(m) ==> json_members(m) == parsed_json_object(text@)->0,
        r matches Some(m) ==> json_members(m).dom().finite(),
        r matches Some(m) ==> forall|part: Map<Seq<char>, Seq<char>>|
            part.submap_of(json_members(m)) ==> (#[trigger] parsed_json_object(json_object_text(part)) matches Some(back)
                && back.dom() == part.dom()),
{
    match serde_json::from_str::<serde_json::Value>(text) {
        Ok(serde_json::Value::Object(m)) => Some(m),
        Ok(_) => None,
        Err(_) => None,
    }
}

/// Calls `serde_json::Map::remove`. Claimed, as its source shows: the key
/// leaves the members, the others stay, and a value comes back exactly when
/// the key was a member.
#[verifier::external_body]
pub(crate) fn json_remove(m: &mut serde_json::Map<String, serde_json::Value>, key: &str) -> (r: Option<serde_json::Value>)
    ensures
        json_members(*final(m)) == json_members(*old(m)).remove(key@),
        r is Some == json_members(*old(m)).contains_key(key@),
{
    m.remove(key)
}

/// Calls `serde_json::Map::is_empty`. Claimed: true exactly when there are no members.
#[verifier::external_body]
pub(crate) fn json_is_empty(m: &serde_json::Map<String, serde_json::Value>) -> (r: bool)
    ensures
        r == json_members(*m).dom().is_empty(),
{
    m.is_empty()
}

/// Writes the object as compact JSON text (`Value::Object(m).to_string()`).
/// Claimed: the text is the one `json_object_text` names for its members.
#[verifier::external_body]
pub(crate) fn json_object_to_string(m: serde_json::Map<String, serde_json::Value>) -> (r: String)
    ensures
        r@ == json_object_text(json_members(m)),
{
    serde_json::Value::Object(m).to_string()
}

/// The keys of a generated schema that a tool definition carries over.
pub open spec fn is_tool_schema_key(key: Seq<char>) -> bool {
    ||| key == "properties"@
    ||| key == "required"@
    ||| key == "type"@
    ||| key == "additionalProperties"@
    ||| key == "$defs"@
    ||| key == "definitions"@
}

/// Whether `key` is one of the schema keys that a tool definition carries over.
pub fn tool_schema_key(key: &str) -> (r: bool)
    ensures
        r == is_tool_schema_key(key@),
{
    let k = key.to_owned();
    k.eq(&"properties".to_owned()) || k.eq(&"required".to_owned()) || k.eq(&"type".to_owned())
        || k.eq(&"additionalProperties".to_owned()) || k.eq(&"$defs".to_owned())
        || k.eq(&"definitions".to_owned())
}

/// Calls `serde_json::Map::retain` with `tool_schema_key` as the predicate.
/// Claimed, as its source shows: exactly the members whose key passes stay,
/// with their values.
#[verifier::external_body]
pub(crate) fn json_retain_tool_schema_keys(m: &mut serde_json::Map<String, serde_json::Value>)
    ensures
        json_members(*final(m)) == json_members(*old(m)).restrict(
            json_members(*old(m)).dom().filter(|k: Seq<char>| is_tool_schema_key(k)),
        ),
{
    m.retain(|k, _| tool_schema_key(k.as_str()))
}

/// Keeps only the members of a generated JSON schema that a tool definition
/// carries over: `properties`, `required`, `type`, `additionalProperties`,
/// `$defs` and `definitions`.
pub fn tool_schema_members(schema: serde_json::Map<String, serde_json::Value>) -> (r: serde_json::Map<String, serde_json::Value>)
    ensures
        json_members(r) == json_members(schema).restrict(
            json_members(schema).dom().filter(|k: Seq<char>| is_tool_schema_key(k)),
        ),
{
    let mut schema = schema;
    json_retain_tool_schema_keys(&mut schema);
    schema
}

} // verus!
