//! Reading a schema document from TOML text, through the `toml` crate.

use vstd::prelude::*;

use crate::value::{table_deep, table_wf, DocTable, DocValue, ValueV};

verus! {

/// Declaration of the `toml` crate's value type, so that the conversion
/// functions below may mention it; the library never looks inside it.
#[verifier::external_type_specification]
#[verifier::external_body]
pub struct ExTomlValue(toml::Value);

/// Declaration of the `toml` crate's map type, for the same purpose.
#[verifier::external_type_specification]
#[verifier::external_body]
#[verifier::reject_recursive_types(K)]
#[verifier::reject_recursive_types(V)]
pub struct ExTomlMap<K, V>(toml::map::Map<K, V>);

/// What TOML text parses to: the document's value tree when the text is a
/// well-formed TOML document, nothing otherwise. Parsing depends on the text
/// alone.
pub uninterp spec fn toml_doc_of(s: Seq<char>) -> Option<ValueV>;

/// Relies on `toml::from_str`: parses a TOML document into its table of
/// values, or reports the parser's message. A TOML document is always a
/// table at top level, and TOML rejects a key defined twice within a table,
/// so the parsed tree is well-formed.
#[verifier::external_body]
pub(crate) fn parse_toml_table(s: &str) -> (r: Result<DocTable, String>)
    ensures
        match r {
            Ok(t) => toml_doc_of(s@) == Some(ValueV::Table(table_deep(t@))) && table_wf(
                table_deep(t@),
            ),
            Err(_) => toml_doc_of(s@) is None,
        },
{
    match toml::from_str::<toml::Table>(s) {
        Ok(t) => Ok(from_toml_table(&t)),
        Err(e) => Err(e.to_string()),
    }
}

/// Relies on `toml::map::Map::iter`: yields the table's entries, each key
/// once, in the map's fixed (sorted) order. Converts each entry.
#[verifier::external_body]
fn from_toml_table(t: &toml::Table) -> DocTable {
    t.iter().map(|(k, v)| (k.clone(), from_toml(v))).collect()
}

/// Converts one `toml::Value` into the library's document model, variant by
/// variant; floats and datetimes are carried as their textual rendering.
#[verifier::external_body]
fn from_toml(v: &toml::Value) -> DocValue {
    match v {
        toml::Value::String(s) => DocValue::Str(s.clone()),
        toml::Value::Integer(i) => DocValue::Int(*i),
        toml::Value::Float(f) => DocValue::Float(format!("{}", f)),
        toml::Value::Boolean(b) => DocValue::Bool(*b),
        toml::Value::Datetime(d) => DocValue::Datetime(format!("{}", d)),
        toml::Value::Array(items) => DocValue::Array(items.iter().map(from_toml).collect()),
        toml::Value::Table(t) => DocValue::Table(from_toml_table(t)),
    }
}

} // verus!
