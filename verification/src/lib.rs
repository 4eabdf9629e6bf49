//! Verified readers for the metrics that Linux publishes under `/proc` and `/sys`.
//!
//! The crate turns what was read from a file into typed values. Opening and reading the
//! files is left to the caller.

pub mod commit;
pub mod fields;
pub mod lines;
pub mod number;
pub mod outside;
pub mod process;
pub mod text;
pub mod utils;
