//! Database command facade: the handler accepts a SQL statement and an
//! optional ordered sequence of bind parameters, performs no database work,
//! and acknowledges every request with the same fixed success payload.

use vstd::prelude::*;

verus! {

/// serde_json's JSON value type, opaque to verification; values of it are
/// built and handed through, never read here.
#[verifier::external_type_specification]
#[verifier::external_body]
pub struct ExJsonValue(serde_json::Value);

/// serde_json's JSON object type (a mapping from member names to values),
/// opaque to verification.
#[verifier::external_type_specification]
#[verifier::external_body]
#[verifier::reject_recursive_types(K)]
#[verifier::reject_recursive_types(V)]
pub struct ExJsonMap<K, V>(serde_json::Map<K, V>);

/// Names what serde_json::Value::String returns for given text: a JSON
/// string value, determined by the characters alone.
pub uninterp spec fn json_string_of(text: Seq<char>) -> serde_json::Value;

/// A JSON object as serde_json represents it: members keyed by name.
pub type JsonObject = serde_json::Map<String, serde_json::Value>;

/// Names the members a serde_json object holds: a mapping from member names
/// to the JSON values bound to them.
pub uninterp spec fn json_members(object: JsonObject) -> Map<Seq<char>, serde_json::Value>;

/// The members of an object that holds nothing.
pub open spec fn no_members() -> Map<Seq<char>, serde_json::Value> {
    Map::empty()
}

/// Names what serde_json::Value::Object returns for an object with the given
/// members. The object is backed by a map ordered by member name (no
/// insertion-order feature is enabled), so its members alone determine the
/// resulting value.
pub uninterp spec fn json_object_of(members: Map<Seq<char>, serde_json::Value>) -> serde_json::Value;

/// Relies on serde_json::Value::String: wraps owned text as a JSON string
/// value; the result depends on the characters alone.
#[verifier::external_body]
fn json_string(text: String) -> (r: serde_json::Value)
    ensures
        r == json_string_of(text@),
{
    serde_json::Value::String(text)
}

/// Relies on serde_json::Map::with_capacity: makes a JSON object with no
/// members, sized for the members about to be bound.
#[verifier::external_body]
fn json_object_with_capacity(capacity: usize) -> (r: JsonObject)
    ensures
        json_members(r) == no_members(),
{
    serde_json::Map::with_capacity(capacity)
}

/// Relies on serde_json::Map::insert: binds a member name to a value in a
/// JSON object, replacing any previous binding; the previous value, if any,
/// is discarded.
#[verifier::external_body]
fn json_object_insert(object: &mut JsonObject, name: String, value: serde_json::Value)
    ensures
        json_members(*final(object)) == json_members(*old(object)).insert(name@, value),
{
    let _ = object.insert(name, value);
}

/// Relies on serde_json::Value::Object: wraps a JSON object as a JSON value;
/// the result is determined by the object's members.
#[verifier::external_body]
fn json_object(object: JsonObject) -> (r: serde_json::Value)
    ensures
        r == json_object_of(json_members(object)),
{
    serde_json::Value::Object(object)
}

/// The fixed acknowledgement payload: a JSON object whose "status" member is
/// the string "ok" and whose "message" member names the unimplemented
/// command.
pub open spec fn db_ack_payload() -> serde_json::Value {
    json_object_of(
        no_members().insert("status"@, json_string_of("ok"@)).insert(
            "message"@,
            json_string_of("TODO: implement db_execute"@),
        ),
    )
}

/// Command handler: meant to execute a SQL statement against the local
/// database with the given bind parameters. No execution is wired up yet, so
/// every request, whatever its statement and parameters, succeeds with the
/// same fixed acknowledgement payload and no error is ever produced.
pub fn db_execute(_sql: String, _params: Option<Vec<serde_json::Value>>) -> (r: Result<
    serde_json::Value,
    String,
>)
    ensures
        r == Ok::<serde_json::Value, String>(db_ack_payload()),
{
    let mut payload = json_object_with_capacity(2);
    json_object_insert(&mut payload, "status".to_owned(), json_string("ok".to_owned()));
    json_object_insert(
        &mut payload,
        "message".to_owned(),
        json_string("TODO: implement db_execute".to_owned()),
    );
    Ok(json_object(payload))
}

} // verus!
