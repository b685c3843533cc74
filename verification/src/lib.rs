//! Conversion of messages in a tree-structured, schema-described binary
//! format into a columnar batch: one equal-length typed array per field.
//!
//! The crate is organised as four engines, consumed in dependency order:
//! schema mapping (`schema`), field zipping (`field`), array allocation
//! (`array`), and row-to-column deserialization (`deserialize`). The
//! `source` and `value` modules hold the crate's model of the source
//! schema and of decoded message values; `reader` holds the field access
//! used by the deserializer.

pub mod array;
pub mod deserialize;
pub mod field;
pub mod reader;
pub mod schema;
pub mod source;
pub mod value;
