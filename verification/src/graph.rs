//! The graph builder: per-document accumulation of rows and their commit plan.

pub mod node;
pub mod package;
pub mod plan;
pub mod relationship;
