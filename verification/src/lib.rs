//! Batch editor core for mini-game project trees.
//!
//! The library holds the text-preserving field extraction and substitution
//! engine: a generic JSON document codec for the project manifest, a
//! pattern-based codec for loosely structured script files, project
//! discovery rules, in-memory batch editing, and per-record save
//! accounting.  File and directory access stays outside; every function
//! here works on plain values and is verified.

pub mod app_state;
pub mod config;
pub mod discovery;
pub mod editor;
pub mod errors;
pub mod json;
pub mod manifest;
pub mod model;
pub mod script;
pub mod text;
