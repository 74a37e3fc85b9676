//! Flattens a nested JSON document into a single-level map from path strings
//! to scalar values.
//!
//! [`flattener::flatten_json`] walks a `serde_json::Value` and inserts one
//! entry per terminal position, a scalar or an empty container, into a
//! `serde_json::Map`. Its contract is stated over [`entries::entries`], the
//! sequence of entries a document writes, and [`record::record`], the map
//! that results from inserting them in order. [`laws`] proves what follows
//! from those two definitions.

pub mod entries;
pub mod flatten_context;
pub mod flattener;
pub mod json;
pub mod laws;
pub mod path;
pub mod record;
