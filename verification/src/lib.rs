//! An in-memory tabular data store (database -> sheets -> columns -> cells ->
//! typed values) with a length-prefixed binary wire format for persisting and
//! reloading the whole store.
//!
//! The store is built with explicit constructors and owner-mediated insertion
//! (`insert_value`, `insert_row`, `adopt_*`); serialization walks the tree
//! top-down, delegating child collections to a generic length-table framing,
//! and deserialization reads the same layout back through a bounds-checked
//! byte cursor. Every encoder states the exact bytes it produces and every
//! decoder states exactly which buffers it accepts, so that the round trip
//! is proved rather than tested.

pub mod base;
pub mod byte_deserializer;
pub mod cell;
pub mod column;
pub mod data_type;
pub mod data_value;
pub mod database;
pub mod encoding;
pub mod errors;
pub mod id;
pub mod length_table;
pub mod sheet;
pub mod views;
