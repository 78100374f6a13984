//! Splits a Rust source file into one file per top-level type.
//!
//! The crate decides, for a parsed sequence of top-level items, which items
//! co-locate in which target file, what each target file is called, and how
//! module-declaration files are synthesized and merged with pre-existing
//! ones. Reading source text from disk and writing the resulting files back
//! is left to the surrounding application.

pub mod content;
pub mod doc;
pub mod error;
pub mod group;
pub mod input;
pub mod item;
pub mod layout;
pub mod modfile;
pub mod order;
pub mod parse;
pub mod samples;
pub mod stem;
pub mod text;
