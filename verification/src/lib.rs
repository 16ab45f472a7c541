//! A template-instantiation library: a copy-and-substitute engine.
//!
//! A template is a directory tree whose text files may contain delimited
//! placeholder tokens of the form `{% KEY %}`.  A manifest file at the
//! template root lists the placeholder keys, one per line.  Once every key
//! has been resolved to a value, the engine mirrors the template tree into
//! an output tree, rewriting each token to its resolved value in text files
//! and copying binary files byte for byte.  The manifest file itself is
//! never copied.
//!
//! This crate holds the verified core: manifest parsing, the placeholder
//! index, token substitution, the per-entry copy decisions, the rendering
//! of a whole directory tree, and the aggregation of task outcomes.
//! Reading and writing the real filesystem, interactive prompting and task
//! scheduling are left to the embedding program, which feeds plain values
//! into these functions and writes their results back out.

pub mod bytes;
pub mod engine;
pub mod error;
pub mod index;
pub mod manifest;
pub mod subst;
