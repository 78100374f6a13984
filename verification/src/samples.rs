//! Small self-contained sample crates, one module per sample, used to
//! exercise the splitter end to end: each module mirrors the kind of
//! source file the splitter is pointed at, from a deeply nested file of
//! plain types to library and binary entry points.

pub mod basic;
pub mod binary;
pub mod formatting;
pub mod generic;
pub mod library;
pub mod nested;
pub mod spacing;
