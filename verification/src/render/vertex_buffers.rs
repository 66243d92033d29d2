//! The compact vertex, UV, index and deformation buffers that all meshes of a puppet share.

use vstd::prelude::*;

verus! {

/// The buffers for the GPU; `V` is the two-dimensional vector type of vertices.
pub struct VertexBuffers<V> {
    pub verts: Vec<V>,
    pub uvs: Vec<V>,
    pub indices: Vec<u16>,
    pub deforms: Vec<V>,
}

/// `indices`, each shifted by `offset`.
pub open spec fn shifted_indices(indices: Seq<u16>, offset: u16) -> Seq<u16> {
    Seq::new(indices.len(), |i: int| (indices[i] + offset) as u16)
}

fn append_copies<V: Copy>(dst: &mut Vec<V>, src: &[V])
    ensures
        final(dst)@ == old(dst)@ + src@,
{
    let mut i: usize = 0;
    while i < src.len()
        invariant
            i <= src@.len(),
            dst@ == old(dst)@ + src@.take(i as int),
        decreases src@.len() - i,
    {
        dst.push(src[i]);
        i = i + 1;
        assert(dst@ =~= old(dst)@ + src@.take(i as int));
    }
    assert(src@.take(src@.len() as int) =~= src@);
}

impl<V: Copy> VertexBuffers<V> {
    /// Adds a mesh (its vertices, UVs and indices into its own vertices) to the buffers:
    /// vertices and UVs are appended, indices are appended shifted to where the mesh's
    /// vertices now start, and one `zero` deformation per vertex is appended. Returns
    /// where the mesh's indices and vertices start, as 16-bit offsets.
    pub fn push(&mut self, vertices: &[V], uvs: &[V], indices: &[u16], zero: V) -> (r: (u16, u16))
        requires
            forall|i: int| 0 <= i < indices@.len() ==> indices@[i] + (old(self).verts@.len() as u16) <= u16::MAX,
        ensures
            r.0 == old(self).indices@.len() as u16,
            r.1 == old(self).verts@.len() as u16,
            final(self).verts@ == old(self).verts@ + vertices@,
            final(self).uvs@ == old(self).uvs@ + uvs@,
            final(self).indices@ == old(self).indices@ + shifted_indices(indices@, r.1),
            final(self).deforms@ == old(self).deforms@ + Seq::new(vertices@.len(), |i: int| zero),
    {
        #[verifier::truncate]
        let index_offset = self.indices.len() as u16;
        #[verifier::truncate]
        let vert_offset = self.verts.len() as u16;

        append_copies(&mut self.verts, vertices);
        append_copies(&mut self.uvs, uvs);

        let mut i: usize = 0;
        while i < indices.len()
            invariant
                i <= indices@.len(),
                vert_offset == old(self).verts@.len() as u16,
                self.verts@ == old(self).verts@ + vertices@,
                self.uvs@ == old(self).uvs@ + uvs@,
                self.deforms@ == old(self).deforms@,
                forall|j: int| 0 <= j < indices@.len() ==> indices@[j] + vert_offset <= u16::MAX,
                self.indices@ == old(self).indices@ + shifted_indices(indices@.take(i as int), vert_offset),
            decreases indices@.len() - i,
        {
            self.indices.push(indices[i] + vert_offset);
            i = i + 1;
            assert(self.indices@ =~= old(self).indices@ + shifted_indices(indices@.take(i as int), vert_offset));
        }
        assert(indices@.take(indices@.len() as int) =~= indices@);

        assert(old(self).deforms@ + Seq::new(0, |i: int| zero) =~= old(self).deforms@);
        let mut j: usize = 0;
        while j < vertices.len()
            invariant
                j <= vertices@.len(),
                self.verts@ == old(self).verts@ + vertices@,
                self.uvs@ == old(self).uvs@ + uvs@,
                self.indices@ == old(self).indices@ + shifted_indices(indices@, vert_offset),
                self.deforms@ == old(self).deforms@ + Seq::new(j as nat, |i: int| zero),
            decreases vertices@.len() - j,
        {
            self.deforms.push(zero);
            j = j + 1;
            assert(self.deforms@ =~= old(self).deforms@ + Seq::new(j as nat, |i: int| zero));
        }

        (index_offset, vert_offset)
    }
}

} // verus!
