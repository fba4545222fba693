//! A small line-oriented substring search library.
//!
//! The crate splits a text into lines, keeps the lines that contain a query
//! string (optionally after simple ASCII case folding), and builds the
//! configuration that selects between the two search modes from a list of
//! command-line arguments.

pub mod config;
pub mod search;
pub mod text;

pub use config::Arguments;
pub use config::Config;
pub use search::search;
pub use search::search_case_insesitive;
