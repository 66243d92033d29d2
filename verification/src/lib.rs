//! Verified core of the Inox2D puppet library: reading INP model files and the meta
//! information in their JSON description, decoding TGA and PNG textures, the component
//! storage of a puppet, the order in which drawables are drawn, the deformation stacks
//! and vertex buffers of rendering, and the enumerations of the puppet model.

pub mod formats;
pub mod math;
pub mod mesh;
pub mod misc;
pub mod model;
pub mod nodes;
pub mod puppet;
pub mod render;
pub mod runtime;
pub(crate) mod strings;
pub mod texture;
pub mod world;
