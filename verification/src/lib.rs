//! A line filter that collapses each run of adjacent lines with the same
//! content into one line, with or without the length of the run in front.
//!
//! Two lines have the same content when they differ at most in the white
//! space at their ends. A run is written as its first line was read.

pub mod config;
pub mod field;
pub mod laws;
pub mod runs;
pub mod trim;
