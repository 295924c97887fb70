//! Conversion and sorting of text-editor snippet collections.
//!
//! The library understands two on-disk shapes: a line-oriented format in
//! which every record starts with a `snippet <name>` header line followed by
//! indented body lines, and a JSON object keyed by display name whose values
//! carry a trigger prefix, the body lines, and an optional description.
//! It parses the line format into records, converts records between the two
//! shapes, loads JSON tables strictly or leniently (coercing mismatched field
//! shapes), supports a list-valued multi-prefix variant, and renders a table
//! as JSON text with its keys in case-insensitive sorted order.

pub mod args;
pub mod convert;
pub mod errors;
pub mod friendly;
pub mod json;
pub mod lenient;
pub mod manager;
pub mod multiprefix;
pub mod render;
pub mod snipmate;
pub mod snippet;
pub mod sorting;
pub mod table;
pub mod text;
