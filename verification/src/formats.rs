//! File formats of Inochi2D models.

pub mod inp;
pub mod json_data;
pub mod node_tree;
