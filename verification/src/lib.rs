//! A small line-search library: split text into lines and return, in order,
//! the lines that contain a query string, either case-sensitively or
//! case-insensitively.

pub mod config;
pub mod laws;
pub mod lines;
pub mod search;
pub mod substring;
