//! Dependency graphs of task documents.
//!
//! A task document names tasks and, for each, the tasks that it depends on; it may include
//! other documents under a namespace. [`build_graph`] turns a document into a graph with one
//! node for each task name and an edge from each dependency to the task that needs it,
//! [`detect_cycles`] finds the nodes that lie on a cycle, and [`render`] writes the graph
//! as text in the DOT language, with those nodes in red.

pub mod builder;
pub mod cycles;
pub mod document;
pub mod error;
pub mod graph;
pub mod loading;
pub mod name;
pub mod parser;
pub mod reading;
pub mod render;
pub mod store;
pub mod yaml;

pub use crate::builder::build_graph;
pub use crate::builder::dependency_name;
pub use crate::builder::include_target;
pub use crate::cycles::cyclic_nodes;
pub use crate::cycles::detect_cycles;
pub use crate::document::get;
pub use crate::document::Taskfile;
pub use crate::document::Tree;
pub use crate::error::BuildError;
pub use crate::error::SchemaError;
pub use crate::graph::TaskGraph;
pub use crate::loading::attach;
pub use crate::loading::wanted;
pub use crate::name::label;
pub use crate::name::qualify;
pub use crate::parser::parse_document;
pub use crate::parser::ParseError;
pub use crate::render::edge_attributes;
pub use crate::render::graph_to_dot;
pub use crate::render::node_attributes;
pub use crate::render::render;
