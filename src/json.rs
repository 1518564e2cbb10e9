//! A JSON document as plain values, read and written through serde_json.

use vstd::prelude::*;

verus! {

#[verifier::external_type_specification]
#[verifier::external_body]
pub struct ExNumber(serde_json::Number);

#[verifier::external_type_specification]
#[verifier::external_body]
pub struct ExValue(serde_json::Value);

/// A JSON value. An object read by serde_json has its members sorted by key,
/// one member per key.
#[derive(Debug)]
pub enum Json {
    Null,
    Bool(bool),
    Number(serde_json::Number),
    Text(String),
    Array(Vec<Json>),
    Object(Vec<(String, Json)>),
}

/// The mathematical form of a JSON value.
pub enum JsonView {
    Null,
    Bool(bool),
    Number(serde_json::Number),
    Text(Seq<char>),
    Array(Seq<JsonView>),
    Object(Seq<(Seq<char>, JsonView)>),
}

impl View for Json {
    type V = JsonView;

    open spec fn view(&self) -> JsonView {
        view_of(*self)
    }
}

/// The mathematical form of a JSON value, part by part.
pub open spec fn view_of(j: Json) -> JsonView
    decreases j,
{
    match j {
        Json::Null => JsonView::Null,
        Json::Bool(b) => JsonView::Bool(b),
        Json::Number(n) => JsonView::Number(n),
        Json::Text(s) => JsonView::Text(s@),
        Json::Array(items) => JsonView::Array(
            Seq::new(
                items.len() as nat,
                |i: int|
                    if 0 <= i < items.len() {
                        view_of(items[i])
                    } else {
                        JsonView::Null
                    },
            ),
        ),
        Json::Object(members) => JsonView::Object(
            Seq::new(
                members.len() as nat,
                |i: int|
                    if 0 <= i < members.len() {
                        (members[i].0@, view_of(members[i].1))
                    } else {
                        (Seq::empty(), JsonView::Null)
                    },
            ),
        ),
    }
}

/// The view of an array holds the views of its items.
pub proof fn lemma_array_view(j: Json)
    requires
        j is Array,
    ensures
        j@ is Array,
        j@->Array_0.len() == j->Array_0@.len(),
        forall|i: int| 0 <= i < j->Array_0@.len() ==> j@->Array_0[i] == (#[trigger] j->Array_0@[i])@,
{
}

/// The view of an object holds the keys and views of its members.
pub proof fn lemma_object_view(j: Json)
    requires
        j is Object,
    ensures
        j@ is Object,
        j@->Object_0.len() == j->Object_0@.len(),
        forall|i: int|
            0 <= i < j->Object_0@.len() ==> j@->Object_0[i] == ((#[trigger] j->Object_0@[i]).0@,
                j->Object_0@[i].1@),
{
}

/// What serde_json reads from a text: the document, or `None` where the text is
/// not JSON.
pub uninterp spec fn json_parse(text: Seq<char>) -> Option<JsonView>;

/// What serde_json writes, pretty-printed, for a document.
pub uninterp spec fn json_pretty(doc: JsonView) -> Seq<char>;

impl Json {
    /// Moves a serde_json value into the library's form, variant for variant.
    #[verifier::external_body]
    fn from_value(v: serde_json::Value) -> Json {
        match v {
            serde_json::Value::Null => Json::Null,
            serde_json::Value::Bool(b) => Json::Bool(b),
            serde_json::Value::Number(n) => Json::Number(n),
            serde_json::Value::String(s) => Json::Text(s),
            serde_json::Value::Array(a) => Json::Array(a.into_iter().map(Json::from_value).collect()),
            serde_json::Value::Object(m) => Json::Object(m.into_iter().map(|(k, x)| (k, Json::from_value(x))).collect()),
        }
    }

    /// Builds the serde_json value of the library's form, variant for variant.
    #[verifier::external_body]
    fn to_value(&self) -> serde_json::Value {
        match self {
            Json::Null => serde_json::Value::Null,
            Json::Bool(b) => serde_json::Value::Bool(*b),
            Json::Number(n) => serde_json::Value::Number(n.clone()),
            Json::Text(s) => serde_json::Value::String(s.clone()),
            Json::Array(a) => serde_json::Value::Array(a.iter().map(Json::to_value).collect()),
            Json::Object(m) => serde_json::Value::Object(m.iter().map(|(k, x)| (k.clone(), x.to_value())).collect()),
        }
    }
}

/// Relies on serde_json::from_str: reads a text as one JSON value, and fails
/// where the text is not JSON.
#[verifier::external_body]
pub fn parse_json(text: &str) -> (r: Option<Json>)
    ensures
        match r {
            Some(doc) => json_parse(text@) == Some(doc@),
            None => json_parse(text@) is None,
        },
{
    serde_json::from_str::<serde_json::Value>(text).ok().map(Json::from_value)
}

/// Relies on serde_json::to_string_pretty: writes a JSON value as indented,
/// multi-line text. Writing a `serde_json::Value` does not fail: its
/// `Serialize` impl reports no error and its map keys are strings.
#[verifier::external_body]
pub fn render_json(doc: &Json) -> (r: String)
    ensures
        r@ == json_pretty(doc@),
{
    serde_json::to_string_pretty(&doc.to_value()).unwrap_or_default()
}

} // verus!
