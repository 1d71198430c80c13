//! Relational schema extraction, snapshotting, and template fan-out planning.
//!
//! The pipeline has three stages: raw catalog rows are assembled into a
//! normalized [`schema::Database`] with a bidirectional foreign-key graph,
//! the schema is persisted to and restored from a stable text snapshot, and
//! a generation plan maps the schema through a per-language type dictionary
//! into concrete output files.

pub mod config;
pub mod error;
pub mod extract;
pub mod language;
pub mod render;
pub mod schema;
pub mod snapshot;
pub mod text;
