//! Mathematical helpers.

pub mod matrix;
