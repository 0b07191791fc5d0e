//! Why reading a document failed.
use vstd::prelude::*;

verus! {

#[derive(Debug, Clone, Copy, PartialEq, Eq, Structural)]
pub enum ConfigError {
    /// The text is not a well-formed document.
    Parse,
    /// The document's shape is not the expected one: its root, or an element
    /// of an array, is not a table.
    Schema,
    /// A structured literal has an argument that is not a number, or lacks one.
    MalformedLiteral,
}

} // verus!
