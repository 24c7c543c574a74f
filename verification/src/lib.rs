//! Structural comparison of JSON-shaped values.
//!
//! Two tree-structured values (null, booleans, numbers, strings, arrays,
//! objects) are compared recursively and every place where they differ is
//! described in a result tree. Configurable exceptions are tolerated:
//! ignored sub-paths, relative float equality within an epsilon,
//! timestamp equality within a duration, and null/empty-array equivalence.

pub mod diff;
pub mod element_path_parser;
pub mod engine;
pub mod laws;
pub mod model;
pub mod outside;
pub mod path;
pub mod value;

pub use diff::ArrayDifference;
pub use diff::Difference;
pub use diff::DumbMap;
pub use diff::EntryDifference;
pub use diff::ScalarDifference;
pub use diff::Type;
pub use element_path_parser::parse_element_path;
pub use engine::Diff;
pub use engine::DiffBuilder;
pub use path::ArrayIndex;
pub use path::IgnorePath;
pub use path::Path;
pub use path::PathElement;
pub use value::Number;
pub use value::Value;
