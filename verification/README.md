# inox2d

The core of the Inox2D puppet library for Inochi2D models, written in Verus and
verified against its contracts.

- `src/` is the verified library:
  - the INP container format; parsing its JSON description with the `json` crate, and
    reading its meta information and node tree;
  - TGA decoding (PNG through the `image` crate) and premultiplied alpha;
  - the component columns and partitions of a puppet's world;
  - the draw order of drawables with masks and composites;
  - setting up the render context (shared vertex buffers, nesting under composites,
    deformation stacks) and keeping its z order;
  - deformation stacks and how their entries are combined;
  - the quad mesh grid, the order in which a puppet's contexts are initialized and run,
    and the enumerations of the puppet model.
- `app/` is the unverified rest: reading files, decoding textures on worker threads, the
  type-erased world of components, floating point values (mesh coordinates, z values),
  and handing recorded draw calls to a rendering backend.
- `tests/` runs the library on concrete inputs.
