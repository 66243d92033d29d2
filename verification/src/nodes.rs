//! Nodes of a puppet and the data they carry.

pub mod node;
pub mod node_data;
