//! PlantUML sequence diagrams.

pub mod grammar;
pub mod laws;
pub mod parser;
pub mod types;

pub use parser::parse;
