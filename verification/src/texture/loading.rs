//! The texture loading pass: textures are bound while a pass is open, then released.

use vstd::prelude::*;

verus! {

/// Texture filtering mode.
#[derive(Clone, Copy, Debug, PartialEq, Eq, Structural)]
pub enum Filtering {
    /// Try to smooth out textures.
    Linear,
    /// Try to preserve pixel edges.
    /// Due to texture sampling being float-based this is imprecise.
    Point,
}

/// What a loading pass holds: whether it is open, and the textures bound so far, by id.
pub struct TextureBindingsView<T> {
    pub started: bool,
    pub textures: Seq<T>,
}

/// The textures bound by the current loading pass (`T` is the backend's texture).
pub struct TextureBindings<T> {
    started: bool,
    textures: Vec<T>,
}

impl<T> View for TextureBindings<T> {
    type V = TextureBindingsView<T>;

    closed spec fn view(&self) -> TextureBindingsView<T> {
        TextureBindingsView { started: self.started, textures: self.textures@ }
    }
}

impl<T> TextureBindings<T> {
    /// No pass open, no texture bound.
    pub fn new() -> (r: Self)
        ensures
            !r@.started,
            r@.textures == Seq::<T>::empty(),
    {
        TextureBindings { started: false, textures: Vec::new() }
    }
}

/// Opens a loading pass; none may be open already.
pub fn in_begin_texture_loading<T>(bindings: &mut TextureBindings<T>)
    requires
        !old(bindings)@.started,
    ensures
        final(bindings)@.started,
        final(bindings)@.textures == old(bindings)@.textures,
{
    bindings.started = true;
}

/// The texture bound under `id`, if any; a pass must be open.
pub fn in_get_texture_from_id<T>(bindings: &TextureBindings<T>, id: u32) -> (r: Option<&T>)
    requires
        bindings@.started,
    ensures
        r == (if (id as int) < bindings@.textures.len() {
            Some(&bindings@.textures[id as int])
        } else {
            None
        }),
{
    let i = id as usize;
    if i < bindings.textures.len() {
        Some(&bindings.textures[i])
    } else {
        None
    }
}

/// The texture bound last, if any; a pass must be open.
pub fn in_get_latest_texture<T>(bindings: &TextureBindings<T>) -> (r: Option<&T>)
    requires
        bindings@.started,
    ensures
        r == (if bindings@.textures.len() > 0 {
            Some(&bindings@.textures.last())
        } else {
            None
        }),
{
    let n = bindings.textures.len();
    if n > 0 {
        Some(&bindings.textures[n - 1])
    } else {
        None
    }
}

/// Binds `texture` under the next id.
pub fn in_add_texture_binary<T>(bindings: &mut TextureBindings<T>, texture: T)
    ensures
        final(bindings)@.started == old(bindings)@.started,
        final(bindings)@.textures == old(bindings)@.textures.push(texture),
{
    bindings.textures.push(texture);
}

/// Closes the loading pass, which must be open, and releases every bound texture.
pub fn in_end_texture_loading<T>(bindings: &mut TextureBindings<T>)
    requires
        old(bindings)@.started,
    ensures
        !final(bindings)@.started,
        final(bindings)@.textures == Seq::<T>::empty(),
{
    bindings.started = false;
    bindings.textures.clear();
}

} // verus!
