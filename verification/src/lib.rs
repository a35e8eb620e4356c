//! Shiren: a test-runner core with adapters for cargo test, pytest and Jest.
//!
//! The library finds test functions in source text, builds the commands that
//! run them, and turns a test framework's output into structured results.

pub mod adapters;
pub mod detect;
pub mod json;
pub mod results;
pub mod runner;
pub mod text;
