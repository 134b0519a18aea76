//! Tokenizers for a terminal application's key-binding configuration:
//! operation sequences (semicolon-separated commands with quoted arguments),
//! trailing `--`-marked descriptions, and key sequences with modifier syntax.
//!
//! The grammar itself is stated as specification functions in [`grammar`];
//! the executable parsers in [`keymap`] are proved to implement it exactly,
//! and [`roundtrip`] proves that re-serializing parsed operations and
//! tokenizing again yields the same structure.

pub mod filebrowser;
pub mod grammar;
pub mod keymap;
pub mod roundtrip;
pub mod unicode;
