//! Diagram text in, graph events out.
//!
//! Two diagram notations are read: the DOT graph language (with its
//! nested-cluster organisational-chart dialect) and PlantUML sequence
//! diagrams. Both are turned into one stream of [`GraphEvent`]s, framed by
//! `BatchStart` and `BatchEnd`. A second reader of DOT builds a graph object
//! in place of a stream.
//!
//! Every function states its result as a mathematical function of the
//! characters of its input, and the statement is machine-checked.

pub mod dot;
pub mod events;
pub mod parser;
pub mod plantuml;
pub mod property_map;
pub mod text;
pub mod types;

pub use events::{
    Direction, EdgeType, EventResult, GraphEvent, GroupType, LayoutType, MessageType, NodeType,
    Position, Properties, Scalar, StateType, Style,
};
pub use property_map::PropertyMap;
pub use types::{GraphData, NodeInfo};
