//! Parsing TOML text, through the `toml` crate, into a `Doc`, and the entry
//! point that turns text into a tree.
use crate::error::ConfigError;
use crate::tree::{build_outcome, build_tree, Doc, Tree};
use vstd::prelude::*;

verus! {

#[verifier::external_type_specification]
#[verifier::external_body]
pub struct ExTomlValue(toml::Value);

#[verifier::external_type_specification]
#[verifier::external_body]
pub struct ExTomlError(toml::de::Error);

/// The document that the `toml` crate reads from a text, or `None` where it
/// rejects the text.
pub uninterp spec fn toml_document(text: Seq<char>) -> Option<Doc>;

/// Relies on the variants of `toml::Value`: converts a value one for one,
/// variant by variant; a float by its bits, a date and time by its `Display`
/// text, a table in the order its map iterates.
#[verifier::external_body]
fn doc_of_value(v: &toml::Value) -> (r: Doc) {
    match v {
        toml::Value::Table(t) => Doc::Table(t.iter().map(|(k, x)| (k.clone(), doc_of_value(x))).collect()),
        toml::Value::Array(a) => Doc::Array(a.iter().map(doc_of_value).collect()),
        toml::Value::String(s) => Doc::Str(s.clone()),
        toml::Value::Integer(n) => Doc::Integer(*n),
        toml::Value::Float(x) => Doc::Float(x.to_bits()),
        toml::Value::Boolean(b) => Doc::Boolean(*b),
        toml::Value::Datetime(d) => Doc::DateTime(d.to_string()),
    }
}

/// Relies on `toml::from_str`: parses TOML text into a value, which depends
/// on the text alone, or gives the reason it is not a document.
#[verifier::external_body]
fn parse_text(text: &str) -> (r: Result<Doc, toml::de::Error>)
    ensures
        r is Ok <==> toml_document(text@) is Some,
        r matches Ok(d) ==> toml_document(text@) == Some(d),
{
    toml::from_str::<toml::Value>(text).map(|v| doc_of_value(&v))
}

/// Parses TOML text into a document value; `ConfigError::Parse` where the
/// text is not a document.
pub fn parse_document(text: &str) -> (r: Result<Doc, ConfigError>)
    ensures
        r == match toml_document(text@) {
            Some(d) => Ok::<Doc, ConfigError>(d),
            None => Err(ConfigError::Parse),
        },
{
    match parse_text(text) {
        Ok(d) => Ok(d),
        Err(_) => Err(ConfigError::Parse),
    }
}

/// Reads TOML documents into generic trees.
pub struct GodotToml;

impl GodotToml {
    pub fn new() -> (r: GodotToml) {
        GodotToml
    }

    /// Parses TOML text and builds its tree: `Parse` where the text is not a
    /// document, `Schema` where its root is not a table, and otherwise the
    /// outcome of building the document's tree.
    pub fn parse_toml(&self, text: &str) -> (r: Result<Tree, ConfigError>)
        ensures
            toml_document(text@) is None ==> r == Err::<Tree, ConfigError>(ConfigError::Parse),
            toml_document(text@) matches Some(d) ==> (if d is Table {
                build_outcome(d, r)
            } else {
                r == Err::<Tree, ConfigError>(ConfigError::Schema)
            }),
    {
        let doc = match parse_document(text) {
            Ok(d) => d,
            Err(e) => return Err(e),
        };
        build_tree(&doc)
    }
}

} // verus!
