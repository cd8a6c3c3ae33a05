//! TOML documents, read into the same shape as JSON ones.

use vstd::prelude::*;

use crate::json::{Json, JsonModel};

verus! {

/// `toml::Value`.
#[verifier::external_type_specification]
#[verifier::external_body]
pub struct ExTomlValue(toml::Value);

/// What a `toml::Value` holds.
pub uninterp spec fn toml_model(v: toml::Value) -> JsonModel;

/// What `toml::from_str` reads from a text: the value, or the error's text.
pub uninterp spec fn toml_document(s: Seq<char>) -> Result<JsonModel, Seq<char>>;

/// Moves a `toml::Value` over into a [`Json`] of the same shape, numbers as their text and a date as
/// the object of one member that the crate hands a date to a reader as.
#[verifier::external_body]
fn from_toml(v: toml::Value) -> (r: Json)
    ensures
        r@ == toml_model(v),
{
    match v {
        toml::Value::String(s) => Json::Str(s),
        toml::Value::Integer(n) => Json::Number(n.to_string()),
        toml::Value::Float(f) => Json::Number(format!("{f:?}")),
        toml::Value::Boolean(b) => Json::Bool(b),
        toml::Value::Datetime(d) => {
            Json::Object(vec![("$__toml_private_datetime".to_owned(), Json::Str(d.to_string()))])
        },
        toml::Value::Array(a) => Json::Array(a.into_iter().map(from_toml).collect()),
        toml::Value::Table(t) => Json::Object(t.into_iter().map(|(k, v)| (k, from_toml(v))).collect()),
    }
}

/// `toml::from_str` into a `toml::Value`, the error as its text.
#[verifier::external_body]
fn toml_value(s: &str) -> (r: Result<toml::Value, String>)
    ensures
        match r {
            Ok(v) => toml_document(s@) == Ok::<JsonModel, Seq<char>>(toml_model(v)),
            Err(e) => toml_document(s@) == Err::<JsonModel, Seq<char>>(e@),
        },
{
    toml::from_str(s).map_err(|e| e.to_string())
}

/// Reads a TOML document.
pub fn parse_toml(s: &str) -> (r: Result<Json, String>)
    ensures
        match r {
            Ok(j) => toml_document(s@) == Ok::<JsonModel, Seq<char>>(j@),
            Err(e) => toml_document(s@) == Err::<JsonModel, Seq<char>>(e@),
        },
{
    match toml_value(s) {
        Ok(v) => Ok(from_toml(v)),
        Err(e) => Err(e),
    }
}

} // verus!
