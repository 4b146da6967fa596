//! The bridge to the structured-text reader: the one place where a
//! document's bytes are handed to the `toml` crate and its value tree is
//! taken over into the library's own [`TomlValue`].

use vstd::prelude::*;

use crate::toml_model::TomlValue;

verus! {

#[verifier::external_type_specification]
#[verifier::external_body]
pub struct ExTomlCrateValue(toml::Value);

/// The document a byte sequence parses to, or nothing where the bytes are
/// not a well-formed document.
pub uninterp spec fn toml_document_of(bytes: Seq<u8>) -> Option<TomlValue>;

/// Relies on the variants of toml::Value: each kind of document value is
/// carried over one for one; floats and datetimes, which no schema rule
/// accepts, become `Irregular`.
#[verifier::external_body]
fn convert_value(v: &toml::Value) -> TomlValue {
    match v {
        toml::Value::String(s) => TomlValue::Text(s.clone()),
        toml::Value::Integer(i) => TomlValue::Int(*i),
        toml::Value::Boolean(b) => TomlValue::Bool(*b),
        toml::Value::Array(a) => TomlValue::List(a.iter().map(convert_value).collect()),
        toml::Value::Table(t) => TomlValue::Table(
            t.iter().map(|(k, x)| (k.clone(), convert_value(x))).collect(),
        ),
        _ => TomlValue::Irregular,
    }
}

/// Relies on toml::from_slice: whether and to what a byte sequence parses
/// is a function of the bytes alone.
#[verifier::external_body]
pub fn parse_toml_bytes(data: &[u8]) -> (r: Option<TomlValue>)
    ensures
        r == toml_document_of(data@),
{
    match toml::from_slice::<toml::Value>(data) {
        Ok(v) => Some(convert_value(&v)),
        Err(_) => None,
    }
}

} // verus!
