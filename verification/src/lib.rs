//! Derivation of a compile-command database from a configuration table and a
//! directory tree.
//!
//! The crate owns the logic of the tool: a hierarchical configuration model
//! (a root-level default entry plus per-directory overrides), a walker over an
//! in-memory directory tree that applies root-level gating and per-directory
//! configuration resolution, and a synthesizer that builds the ordered
//! argument vector of one compile-command record.  Reading the filesystem,
//! parsing the configuration text and serializing the records are left to the
//! binary around the crate, which hands plain values in and takes plain
//! values back.

pub mod command;
pub mod config;
pub mod table;
pub mod text;
pub mod walk;

pub use config::Config;
pub use config::ConfigEntry;
