//! Reading configuration documents into a generic tree, with recognition of
//! geometric and color literals such as `Vector2(1.0, 2.0)` in string values.

mod decoder;
mod document;
mod error;
mod laws;
mod number;
mod scanner;
mod tree;
mod values;

pub use decoder::{collect_vector2s, collect_vector3s, decode_value_at};
pub use document::{parse_document, GodotToml};
pub use error::ConfigError;
pub use number::{is_float_literal, trim_text, Number};
pub use scanner::{encode_godot_types, scan, tokenize};
pub use tree::{build_tree, build_value, populate_toml_dictionary, Doc, Tree};
pub use values::{
    encode_basis, encode_color, encode_plane, encode_rect2, encode_transform, encode_transform2d,
    encode_vector2, encode_vector3, Basis, Color, Plane, Rect2, Structured, Transform, Transform2D,
    Vector2, Vector3,
};
