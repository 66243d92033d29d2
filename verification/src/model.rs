//! The model as stored in a file: the puppet description and its textures.

use vstd::prelude::*;

verus! {

/// Encoding of a texture stored in a model.
#[derive(Clone, Copy, Debug, PartialEq, Eq, Structural)]
pub enum ImageFormat {
    Png,
    Tga,
}

/// A texture as stored in a model file, not yet decoded.
#[derive(Debug)]
pub struct ModelTexture {
    pub format: ImageFormat,
    pub data: Vec<u8>,
}

} // verus!
