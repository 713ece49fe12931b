//! Narrows a linter's findings down to the lines that a diff changed.
//!
//! - `git` reads unified diffs into the changed line ranges of each file;
//! - `clippy` frames Clippy's JSON output and keeps the records that point at code;
//! - `linter` is the finding that filtering works on;
//! - `config` picks a project's members from its manifest;
//! - `scout` picks the members that a diff touches and keeps the findings on changed lines.
pub mod clippy;
pub mod config;
pub mod git;
pub mod linter;
pub mod scout;
pub mod text;
