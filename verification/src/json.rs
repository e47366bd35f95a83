//! JSON values as far as the web interface reads them.
use vstd::prelude::*;
use vstd::string::*;

verus! {

/// A JSON value.
#[verifier::ext_equal]
pub enum JsonModel {
    Null,
    Bool(bool),
    /// A number: its value if it is a whole number that fits.
    Number(Option<u64>),
    Text(Seq<char>),
    Array(Seq<JsonModel>),
    Object(Seq<(Seq<char>, JsonModel)>),
}

/// A JSON value.
pub enum Json {
    Null,
    Bool(bool),
    /// A number: its value if it is a whole number that fits.
    Number(Option<u64>),
    Text(String),
    Array(Vec<Json>),
    Object(Vec<(String, Json)>),
}

impl Json {
    pub open spec fn model(self) -> JsonModel
        decreases self,
    {
        match self {
            Json::Null => JsonModel::Null,
            Json::Bool(b) => JsonModel::Bool(b),
            Json::Number(n) => JsonModel::Number(n),
            Json::Text(s) => JsonModel::Text(s@),
            Json::Array(items) => JsonModel::Array(
                Seq::new(
                    items@.len(),
                    |i: int|
                        if 0 <= i < items@.len() {
                            items@[i].model()
                        } else {
                            JsonModel::Null
                        },
                ),
            ),
            Json::Object(fields) => JsonModel::Object(
                Seq::new(
                    fields@.len(),
                    |i: int|
                        if 0 <= i < fields@.len() {
                            (fields@[i].0@, fields@[i].1.model())
                        } else {
                            (Seq::empty(), JsonModel::Null)
                        },
                ),
            ),
        }
    }
}

impl View for Json {
    type V = JsonModel;

    open spec fn view(&self) -> JsonModel {
        self.model()
    }
}

#[verifier::external_type_specification]
#[verifier::external_body]
pub struct ExValue(serde_json::Value);

#[verifier::external_type_specification]
#[verifier::external_body]
pub struct ExError(serde_json::Error);

/// The tree that a `serde_json::Value` holds.
pub uninterp spec fn value_contents(v: serde_json::Value) -> JsonModel;

/// What `serde_json::from_str` reads from a text.
pub uninterp spec fn text_contents(text: Seq<char>) -> Option<JsonModel>;

/// Calls `serde_json::from_str`. Believed of it: whether a text is JSON, and
/// the tree that it stands for, depend on the text alone.
#[verifier::external_body]
fn value_from_str(text: &str) -> (r: Result<serde_json::Value, serde_json::Error>)
    ensures
        match r {
            Ok(v) => text_contents(text@) == Some(value_contents(v)),
            Err(_) => text_contents(text@) is None,
        },
{
    serde_json::from_str(text)
}

/// Takes a `serde_json::Value` apart, variant by variant; of a number it
/// keeps what `serde_json::Number::as_u64` gives. Believed of it: the parts
/// depend on the tree alone.
#[verifier::external_body]
fn json_of_value(v: &serde_json::Value) -> (r: Json)
    ensures
        r@ == value_contents(*v),
{
    match v {
        serde_json::Value::Null => Json::Null,
        serde_json::Value::Bool(b) => Json::Bool(*b),
        serde_json::Value::Number(n) => Json::Number(n.as_u64()),
        serde_json::Value::String(s) => Json::Text(s.clone()),
        serde_json::Value::Array(items) => Json::Array(items.iter().map(json_of_value).collect()),
        serde_json::Value::Object(fields) => {
            Json::Object(fields.iter().map(|(k, f)| (k.clone(), json_of_value(f))).collect())
        },
    }
}

/// The tree that a body holds; null if it is not JSON.
pub open spec fn body_contents(text: Seq<char>) -> JsonModel {
    match text_contents(text) {
        Some(j) => j,
        None => JsonModel::Null,
    }
}

/// Reads the body of a request; anything that is not JSON counts as null.
pub fn parse_body(text: &str) -> (r: Json)
    ensures
        r@ == body_contents(text@),
{
    match value_from_str(text) {
        Ok(v) => json_of_value(&v),
        Err(_) => Json::Null,
    }
}

} // verus!
