//! The bodies of notification requests.
//!
//! A body is a JSON value that the `serde_json` crate renders.
use vstd::prelude::*;

use crate::webhook::WebhookKind;

verus! {

/// A JSON value, as far as notifications use them.
pub enum JsonModel {
    Text(Seq<char>),
    List(Seq<JsonModel>),
    Object(Map<Seq<char>, JsonModel>),
}

/// A value of the `serde_json` crate.
#[verifier::external_type_specification]
#[verifier::external_body]
pub struct ExJsonValue(serde_json::Value);

/// What a value of the `serde_json` crate holds.
pub uninterp spec fn json_held(value: serde_json::Value) -> JsonModel;

/// A JSON value as text.
pub uninterp spec fn json_text(value: JsonModel) -> Seq<char>;

/// A string, by `serde_json::Value::String`.
#[verifier::external_body]
fn json_string(text: &str) -> (res: serde_json::Value)
    ensures
        json_held(res) == JsonModel::Text(text@),
{
    serde_json::Value::String(text.to_owned())
}

pub open spec fn held_values(values: Seq<serde_json::Value>) -> Seq<JsonModel> {
    values.map_values(|value: serde_json::Value| json_held(value))
}

/// A list, by `serde_json::Value::Array`.
#[verifier::external_body]
fn json_list(values: Vec<serde_json::Value>) -> (res: serde_json::Value)
    ensures
        json_held(res) == JsonModel::List(held_values(values@)),
{
    serde_json::Value::Array(values)
}

/// The entries of an object; of two under one name the later stands.
pub open spec fn held_object(entries: Seq<(String, serde_json::Value)>) -> Map<
    Seq<char>,
    JsonModel,
>
    decreases entries.len(),
{
    if entries.len() == 0 {
        Map::empty()
    } else {
        held_object(entries.drop_last()).insert(entries.last().0@, json_held(entries.last().1))
    }
}

/// An object, by collecting its entries into a `serde_json::Map`.
#[verifier::external_body]
fn json_object(entries: Vec<(String, serde_json::Value)>) -> (res: serde_json::Value)
    ensures
        json_held(res) == JsonModel::Object(held_object(entries@)),
{
    serde_json::Value::Object(entries.into_iter().collect())
}

/// Renders a value with the `Display` of `serde_json::Value`: compact JSON, an
/// object in the order of its names. The escapes are those of the crate; they
/// are left unsaid here, beyond the fact that the text depends on the value
/// alone.
#[verifier::external_body]
fn render_json(value: &serde_json::Value) -> (res: String)
    ensures
        res@ == json_text(json_held(*value)),
{
    value.to_string()
}

fn json_entry(name: &str, value: serde_json::Value) -> (res: serde_json::Value)
    ensures
        json_held(res) == JsonModel::Object(Map::empty().insert(name@, json_held(value))),
{
    let mut entries: Vec<(String, serde_json::Value)> = Vec::new();
    entries.push((name.to_owned(), value));
    proof {
        assert(entries@.drop_last() =~= Seq::empty());
        assert(held_object(entries@.drop_last()) == Map::<Seq<char>, JsonModel>::empty());
    }
    json_object(entries)
}

/// The JSON value of a message for a kind of webhook. Discord is told to parse
/// no mentions.
pub open spec fn payload_value(kind: WebhookKind, message: Seq<char>) -> JsonModel {
    match kind {
        WebhookKind::Discord => JsonModel::Object(
            Map::empty().insert("content"@, JsonModel::Text(message)).insert(
                "allowed_mentions"@,
                JsonModel::Object(
                    Map::empty().insert("parse"@, JsonModel::List(Seq::empty())),
                ),
            ),
        ),
        _ => JsonModel::Object(Map::empty().insert("text"@, JsonModel::Text(message))),
    }
}

/// The body of a request.
pub fn payload(kind: WebhookKind, message: &str) -> (res: String)
    ensures
        res@ == json_text(payload_value(kind, message@)),
{
    let value = match kind {
        WebhookKind::Discord => {
            let none: Vec<serde_json::Value> = Vec::new();
            assert(held_values(none@) =~= Seq::empty());
            let mentions = json_entry("parse", json_list(none));
            let mut entries: Vec<(String, serde_json::Value)> = Vec::new();
            entries.push(("content".to_owned(), json_string(message)));
            let ghost first = entries@;
            entries.push(("allowed_mentions".to_owned(), mentions));
            proof {
                assert(entries@.drop_last() =~= first);
                assert(first.drop_last() =~= Seq::empty());
                assert(held_object(first.drop_last()) == Map::<Seq<char>, JsonModel>::empty());
                assert(held_object(first) == Map::empty().insert(
                    "content"@,
                    JsonModel::Text(message@),
                ));
            }
            json_object(entries)
        },
        _ => json_entry("text", json_string(message)),
    };
    render_json(&value)
}

} // verus!
