//! JSON text given in index options (`partial_raw`, `wildcard_projection`),
//! read into a tree whose numbers keep their text.

use vstd::prelude::*;

use crate::text::{owned, push_str};

verus! {

/// A JSON value. Numbers are held by their text; object members keep the
/// order in which the reader hands them out.
#[derive(Debug, PartialEq)]
pub enum Json {
    Null,
    Bool(bool),
    Number(String),
    Str(String),
    Array(Vec<Json>),
    Object(Vec<(String, Json)>),
}

/// The mathematical value of a JSON value.
pub enum JsonV {
    Null,
    Bool(bool),
    Number(Seq<char>),
    Str(Seq<char>),
    Array(Seq<JsonV>),
    Object(Seq<(Seq<char>, JsonV)>),
}

pub open spec fn items_view(s: Seq<Json>) -> Seq<JsonV>
    decreases s,
{
    if s.len() == 0 {
        Seq::empty()
    } else {
        items_view(s.drop_last()).push(json_view(s.last()))
    }
}

pub open spec fn members_view(s: Seq<(String, Json)>) -> Seq<(Seq<char>, JsonV)>
    decreases s,
{
    if s.len() == 0 {
        Seq::empty()
    } else {
        members_view(s.drop_last()).push((s.last().0@, json_view(s.last().1)))
    }
}

pub open spec fn json_view(j: Json) -> JsonV
    decreases j,
{
    match j {
        Json::Null => JsonV::Null,
        Json::Bool(b) => JsonV::Bool(b),
        Json::Number(n) => JsonV::Number(n@),
        Json::Str(s) => JsonV::Str(s@),
        Json::Array(items) => JsonV::Array(items_view(items@)),
        Json::Object(members) => JsonV::Object(members_view(members@)),
    }
}

impl View for Json {
    type V = JsonV;

    open spec fn view(&self) -> JsonV {
        json_view(*self)
    }
}

/// What `serde_json::from_str::<serde_json::Value>` makes of `text`: the
/// value, or the text of its error.
pub uninterp spec fn json_of(text: Seq<char>) -> Result<JsonV, Seq<char>>;

/// `serde_json::from_str::<serde_json::Value>`: the value read from `text`,
/// numbers by their text, or the error's text.
#[verifier::external_body]
fn parse_json(text: &str) -> (r: Result<Json, String>)
    ensures
        match json_of(text@) {
            Ok(v) => r matches Ok(x) && x@ == v,
            Err(m) => r matches Err(x) && x@ == m,
        },
{
    match serde_json::from_str::<serde_json::Value>(text) {
        Ok(value) => Ok(from_value(value)),
        Err(e) => Err(e.to_string()),
    }
}

/// `serde_json::Value`, carried through opaquely.
#[verifier::external_type_specification]
#[verifier::external_body]
pub struct ExJsonValue(serde_json::Value);

/// A `serde_json::Value` as a `Json`, variant for variant; a number becomes
/// its text.
#[verifier::external_body]
fn from_value(value: serde_json::Value) -> Json {
    match value {
        serde_json::Value::Null => Json::Null,
        serde_json::Value::Bool(b) => Json::Bool(b),
        serde_json::Value::Number(n) => Json::Number(n.to_string()),
        serde_json::Value::String(s) => Json::Str(s),
        serde_json::Value::Array(items) => Json::Array(items.into_iter().map(from_value).collect()),
        serde_json::Value::Object(m) => Json::Object(m.into_iter().map(|(k, v)| (k, from_value(v))).collect()),
    }
}

/// What an option given as JSON text holds: the object, or why the text is
/// not one.
pub open spec fn json_object_spec(text: Seq<char>, option: Seq<char>) -> Result<JsonV, Seq<char>> {
    match json_of(text) {
        Err(m) => Err("invalid JSON: "@ + m),
        Ok(v) => match v {
            JsonV::Object(_) => Ok(v),
            _ => Err(option + " must be a JSON object (a document, `{...}`)"@),
        },
    }
}

/// Reads the JSON text of option `option`, which must hold an object; see
/// [`json_object_spec`].
pub fn parse_json_object(text: &str, option: &str) -> (r: Result<Json, String>)
    ensures
        match json_object_spec(text@, option@) {
            Ok(v) => r matches Ok(x) && x@ == v,
            Err(m) => r matches Err(x) && x@ == m,
        },
{
    match parse_json(text) {
        Err(e) => {
            let mut m = owned("invalid JSON: ");
            push_str(&mut m, e.as_str());
            Err(m)
        },
        Ok(v) => match v {
            Json::Object(_) => Ok(v),
            _ => {
                let mut m = owned(option);
                push_str(&mut m, " must be a JSON object (a document, `{...}`)");
                Err(m)
            },
        },
    }
}

} // verus!
