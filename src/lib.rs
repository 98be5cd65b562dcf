//! A line search: the lines of a text that hold a query, trimmed, in order,
//! with or without regard to case.
pub mod config;
pub mod laws;
pub mod search;
pub mod text;

pub use config::Config;
pub use search::{line_contains, search};
