//! A word-count library: counts lines, words, bytes, and characters in
//! byte-string inputs, and renders the fixed-width report rows that the
//! command-line front end prints.

pub mod config;
pub mod count;
pub mod report;
