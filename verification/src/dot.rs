//! The DOT graph language and its nested-cluster dialect.

pub mod laws;
pub mod parser;

pub use parser::parse_dot_to_events as parse;
