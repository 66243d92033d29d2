//! The state of the Inox2D runtime that is not held by a rendering backend.

use vstd::prelude::*;

verus! {

/// The size of the viewport, and whether drawables compute their bounds.
#[derive(Debug, Clone, Copy, Default, PartialEq, Eq, Structural)]
pub struct Inox2DRuntime {
    pub in_viewport_width: i32,
    pub in_viewport_height: i32,
    pub do_generate_bounds: bool,
}

impl Inox2DRuntime {
    /// The viewport's width and height.
    pub fn get_viewport(&self) -> (r: (i32, i32))
        ensures
            r == (self.in_viewport_width, self.in_viewport_height),
    {
        (self.in_viewport_width, self.in_viewport_height)
    }

    /// Sets the viewport's width and height; nothing else changes.
    pub fn set_viewport(&mut self, width: i32, height: i32)
        ensures
            *final(self) == (Inox2DRuntime {
                in_viewport_width: width,
                in_viewport_height: height,
                ..*old(self)
            }),
    {
        self.in_viewport_width = width;
        self.in_viewport_height = height;
    }
}

/// The viewport's width and height.
pub fn in_get_viewport(runtime: &Inox2DRuntime) -> (r: (i32, i32))
    ensures
        r == (runtime.in_viewport_width, runtime.in_viewport_height),
{
    runtime.get_viewport()
}

/// Sets whether drawables compute their bounds; nothing else changes.
pub fn in_set_update_bounds(runtime: &mut Inox2DRuntime, state: bool)
    ensures
        *final(runtime) == (Inox2DRuntime { do_generate_bounds: state, ..*old(runtime) }),
{
    runtime.do_generate_bounds = state;
}

} // verus!
