//! JSON documents, as far as the database reads and writes them.

use vstd::prelude::*;

verus! {

/// The value type of `serde_json`. It only passes through the conversions
/// below.
#[verifier::external_type_specification]
#[verifier::external_body]
pub struct ExValue(serde_json::Value);

/// The error type of `serde_json`.
#[verifier::external_type_specification]
#[verifier::external_body]
pub struct ExError(serde_json::Error);

/// A JSON value. The members of an object are kept as a list of names and
/// values, and a number as the text that stands for it.
#[derive(Debug, PartialEq, Eq)]
pub enum Json {
    Null,
    Bool(bool),
    Number(String),
    Text(String),
    Array(Vec<Json>),
    Object(Vec<(String, Json)>),
}

/// A JSON value as the contracts read it.
pub enum JsonView {
    Null,
    Bool(bool),
    Number(Seq<char>),
    Text(Seq<char>),
    Array(Seq<JsonView>),
    Object(Seq<(Seq<char>, JsonView)>),
}

impl View for Json {
    type V = JsonView;

    open spec fn view(&self) -> JsonView
        decreases self,
    {
        match self {
            Json::Null => JsonView::Null,
            Json::Bool(value) => JsonView::Bool(*value),
            Json::Number(text) => JsonView::Number(text@),
            Json::Text(text) => JsonView::Text(text@),
            Json::Array(items) => JsonView::Array(
                Seq::new(
                    items@.len(),
                    |i: int|
                        if 0 <= i < items@.len() {
                            items@[i]@
                        } else {
                            JsonView::Null
                        },
                ),
            ),
            Json::Object(members) => JsonView::Object(
                Seq::new(
                    members@.len(),
                    |i: int|
                        if 0 <= i < members@.len() {
                            (members@[i].0@, members@[i].1@)
                        } else {
                            (Seq::empty(), JsonView::Null)
                        },
                ),
            ),
        }
    }
}

/// The members of an object as the contracts read them.
pub open spec fn members_of(members: Seq<(String, Json)>) -> Seq<(Seq<char>, JsonView)> {
    Seq::new(members.len(), |i: int| (members[i].0@, members[i].1@))
}

/// The values of a list as the contracts read them.
pub open spec fn items_of(items: Seq<Json>) -> Seq<JsonView> {
    Seq::new(items.len(), |i: int| items[i]@)
}

/// The view of an object holds the views of its members, and the view of a
/// list those of its items.
pub proof fn lemma_json_views(json: Json)
    ensures
        json matches Json::Object(members) ==> json@ == JsonView::Object(members_of(members@)),
        json matches Json::Array(items) ==> json@ == JsonView::Array(items_of(items@)),
{
    reveal_with_fuel(<Json as View>::view, 2);
    match json {
        Json::Object(members) => {
            assert(json@->Object_0 =~= members_of(members@));
        },
        Json::Array(items) => {
            assert(json@->Array_0 =~= items_of(items@));
        },
        _ => {},
    }
}

/// What `serde_json` reads out of a text: the value, or nothing where the
/// text is no JSON document.
pub uninterp spec fn json_parsed(text: Seq<char>) -> Option<JsonView>;

/// The text that `serde_json` writes for a value, laid out for readers.
pub uninterp spec fn json_pretty(json: JsonView) -> Seq<char>;

/// Moves a value of `serde_json` into a `Json`, variant by variant. A
/// number becomes the text that `serde_json` writes for it. The members of
/// an object come in the order in which `serde_json` hands them out.
#[verifier::external_body]
fn to_model(value: serde_json::Value) -> Json {
    match value {
        serde_json::Value::Null => Json::Null,
        serde_json::Value::Bool(value) => Json::Bool(value),
        serde_json::Value::Number(number) => Json::Number(number.to_string()),
        serde_json::Value::String(text) => Json::Text(text),
        serde_json::Value::Array(items) => Json::Array(items.into_iter().map(to_model).collect()),
        serde_json::Value::Object(members) => Json::Object(
            members.into_iter().map(|(name, value)| (name, to_model(value))).collect(),
        ),
    }
}

/// Copies a `Json` into a value of `serde_json`, variant by variant. A
/// number is read from its text with `serde_json::from_str`; a text that
/// `serde_json` does not read becomes null.
#[verifier::external_body]
fn from_model(json: &Json) -> serde_json::Value {
    match json {
        Json::Null => serde_json::Value::Null,
        Json::Bool(value) => serde_json::Value::Bool(*value),
        Json::Number(text) => serde_json::from_str(text).unwrap_or(serde_json::Value::Null),
        Json::Text(text) => serde_json::Value::String(text.clone()),
        Json::Array(items) => serde_json::Value::Array(items.iter().map(from_model).collect()),
        Json::Object(members) => serde_json::Value::Object(
            members.iter().map(|(name, value)| (name.clone(), from_model(value))).collect(),
        ),
    }
}

/// Reads a text with `serde_json::from_str`. The contract names what comes
/// back and claims nothing else of it.
#[verifier::external_body]
pub(crate) fn parse(text: &str) -> (result: Result<Json, serde_json::Error>)
    ensures
        match json_parsed(text@) {
            Some(json) => result is Ok && result->Ok_0@ == json,
            None => result is Err,
        },
{
    serde_json::from_str::<serde_json::Value>(text).map(to_model)
}

/// Writes a value with `serde_json::to_string_pretty`. Writing a value of
/// `serde_json` to a string does not fail; the contract names the text and
/// claims nothing else of it.
#[verifier::external_body]
pub(crate) fn render(json: &Json) -> (result: String)
    ensures
        result@ == json_pretty(json@),
{
    serde_json::to_string_pretty(&from_model(json)).unwrap_or_default()
}

} // verus!
