//! A lenient, single-pass recursive-descent parser for a JSON-like textual
//! format.
//!
//! The parser is deliberately forgiving: boolean literals may be spelled in
//! any letter casing, colons and commas are treated as generic separators,
//! strings carry no escape processing, and a container that runs into the end
//! of the input yields the elements gathered so far.  The exact behaviour of
//! every routine is pinned down by the spec-level parser in [`model`], and
//! each executable routine is proved to agree with it.

pub mod laws;
pub mod model;
pub mod reader;
pub mod value;

pub use reader::Json;
pub use value::JsonError;
pub use value::JsonValue;
