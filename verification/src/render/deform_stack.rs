//! The deformations that sources submit to one node during a frame.

use vstd::prelude::*;
use std::collections::{HashMap, HashSet};

use crate::nodes::node::InoxNodeUuid;

verus! {

broadcast use vstd::std_specs::hash::group_hash_axioms;

/// The UUID of a parameter of a puppet.
#[derive(Debug, Clone, Copy, PartialEq, Eq, Hash, Structural)]
pub struct ParamUuid(pub u32);

/// Where a deformation comes from: a parameter binding, or a mesh group node.
#[derive(Debug, Clone, Copy, PartialEq, Eq, Hash, Structural)]
pub enum DeformSource {
    Param(ParamUuid),
    MeshGroup(InoxNodeUuid),
}

/// A deformation: an offset for each vertex of the node (`V` is the vertex type), or a
/// request to take the deformation of the mesh group that is the source.
pub enum Deform<V> {
    Direct(Vec<V>),
    Source,
}

/// What a node's deformation stack holds: the number of vertices of the node, and for
/// each source that ever submitted, whether it submitted this frame and its last
/// deformation.
pub struct DeformStackView<V> {
    pub deform_len: nat,
    pub stack: Map<DeformSource, (bool, Deform<V>)>,
}

/// The deformations submitted to one node, one slot per source.
pub struct DeformStack<V> {
    deform_len: usize,
    sources: Vec<DeformSource>,
    enabled: Vec<bool>,
    deforms: Vec<Deform<V>>,
}

/// Whether `s` holds no element twice.
pub open spec fn distinct_sources(s: Seq<DeformSource>) -> bool {
    forall|i: int, j: int| 0 <= i < s.len() && 0 <= j < s.len() && i != j ==> s[i] != s[j]
}

impl<V> View for DeformStack<V> {
    type V = DeformStackView<V>;

    closed spec fn view(&self) -> DeformStackView<V> {
        DeformStackView {
            deform_len: self.deform_len as nat,
            stack: Map::new(
                |k: DeformSource| self.sources@.contains(k),
                |k: DeformSource| {
                    let i = self.sources@.index_of(k);
                    (self.enabled@[i], self.deforms@[i])
                },
            ),
        }
    }
}

/// Whether `deform` may be submitted by `src` to a node with `deform_len` vertices: a
/// direct deformation has one offset per vertex, and only a mesh group submits a
/// request for its own deformation.
pub open spec fn admissible_deform<V>(src: DeformSource, deform: Deform<V>, deform_len: nat) -> bool {
    match deform {
        Deform::Direct(d) => d@.len() == deform_len,
        Deform::Source => src is MeshGroup,
    }
}

impl<V> DeformStack<V> {
    /// The three slot vectors have one entry per source, and no source has two slots.
    pub closed spec fn well_formed(&self) -> bool {
        &&& self.sources@.len() == self.enabled@.len()
        &&& self.sources@.len() == self.deforms@.len()
        &&& distinct_sources(self.sources@)
    }

    proof fn lemma_index_of(&self, i: int)
        requires
            self.well_formed(),
            0 <= i < self.sources@.len(),
        ensures
            self.sources@.contains(self.sources@[i]),
            self.sources@.index_of(self.sources@[i]) == i,
    {
        let k = self.sources@[i];
        assert(self.sources@.contains(k));
        let j = self.sources@.index_of(k);
        assert(self.sources@[j] == k);
    }

    /// An empty stack for a node with `deform_len` vertices.
    pub fn new(deform_len: usize) -> (r: Self)
        ensures
            r.well_formed(),
            r@.deform_len == deform_len,
            r@.stack == Map::<DeformSource, (bool, Deform<V>)>::empty(),
    {
        let r = DeformStack { deform_len, sources: Vec::new(), enabled: Vec::new(), deforms: Vec::new() };
        assert(r@.stack =~= Map::<DeformSource, (bool, Deform<V>)>::empty());
        r
    }

    /// The number of vertices of the node.
    pub fn deform_len(&self) -> (r: usize)
        ensures
            r == self@.deform_len,
    {
        self.deform_len
    }

    /// Resets the stack, ready to receive the deformations of one frame: every source
    /// counts as not having submitted yet; the deformations themselves stay.
    pub fn reset(&mut self)
        requires
            old(self).well_formed(),
        ensures
            final(self).well_formed(),
            final(self)@.deform_len == old(self)@.deform_len,
            final(self)@.stack.dom() == old(self)@.stack.dom(),
            forall|k: DeformSource| #[trigger]
                final(self)@.stack.contains_key(k) ==> final(self)@.stack[k] == (
                    false,
                    old(self)@.stack[k].1,
                ),
    {
        let n = self.enabled.len();
        let mut i: usize = 0;
        while i < n
            invariant
                n == self.enabled@.len(),
                i <= n,
                self.sources@ == old(self).sources@,
                self.deforms@ == old(self).deforms@,
                self.deform_len == old(self).deform_len,
                old(self).well_formed(),
                self.well_formed(),
                forall|j: int| 0 <= j < i ==> !self.enabled@[j],
            decreases n - i,
        {
            self.enabled.set(i, false);
            i = i + 1;
        }
        assert(final(self)@.stack.dom() =~= old(self)@.stack.dom());
        assert forall|k: DeformSource| #[trigger] final(self)@.stack.contains_key(k)
            implies final(self)@.stack[k] == (false, old(self)@.stack[k].1) by {
            let j = self.sources@.index_of(k);
            assert(self.sources@[j] == k);
        }
    }

    /// The slot of `src`, if it has one.
    fn slot_of(&self, src: DeformSource) -> (r: Option<usize>)
        ensures
            r matches Some(i) ==> i < self.sources@.len() && self.sources@[i as int] == src,
            r is None ==> !self.sources@.contains(src),
    {
        let mut i: usize = 0;
        while i < self.sources.len()
            invariant
                i <= self.sources@.len(),
                forall|j: int| 0 <= j < i ==> self.sources@[j] != src,
            decreases self.sources@.len() - i,
        {
            if self.sources[i] == src {
                return Some(i);
            }
            i = i + 1;
        }
        None
    }

    /// Submits `deform` from `src` for this frame. A source submits at most once per frame.
    pub fn push(&mut self, src: DeformSource, deform: Deform<V>)
        requires
            old(self).well_formed(),
            admissible_deform(src, deform, old(self)@.deform_len),
            !(old(self)@.stack.contains_key(src) && old(self)@.stack[src].0),
        ensures
            final(self).well_formed(),
            final(self)@.deform_len == old(self)@.deform_len,
            final(self)@.stack == old(self)@.stack.insert(src, (true, deform)),
    {
        let n = self.sources.len();
        let found = self.slot_of(src);
        let i: usize = match found {
            Some(i) => i,
            None => n,
        };
        let ghost old_sources = self.sources@;
        let ghost old_enabled = self.enabled@;
        let ghost old_deforms = self.deforms@;
        if i < n {
            proof {
                assert(self.sources@[i as int] == src);
                self.lemma_index_of(i as int);
            }
            self.enabled.set(i, true);
            self.deforms.set(i, deform);
            assert(self.sources@ == old_sources);
            assert forall|k: DeformSource| #[trigger] old_sources.contains(k) implies self.sources@.index_of(k)
                == old_sources.index_of(k) by {}
            assert(self@.stack =~= old(self)@.stack.insert(src, (true, deform))) by {
                assert forall|k: DeformSource| #[trigger] old_sources.contains(k) && k != src implies old_sources.index_of(k)
                    != i as int by {
                    let j = old_sources.index_of(k);
                    assert(old_sources[j] == k);
                }
            }
        } else {
            assert(!self.sources@.contains(src));
            self.sources.push(src);
            self.enabled.push(true);
            self.deforms.push(deform);
            assert(distinct_sources(self.sources@));
            assert(self@.stack =~= old(self)@.stack.insert(src, (true, deform))) by {
                assert forall|k: DeformSource| #[trigger] self.sources@.contains(k) implies (k == src
                    || old_sources.contains(k)) by {
                    let j = self.sources@.index_of(k);
                    assert(self.sources@[j] == k);
                    if j < old_sources.len() {
                        assert(old_sources[j] == k);
                    }
                }
                assert forall|k: DeformSource| #[trigger] old_sources.contains(k) implies self.sources@.contains(k)
                    && self.sources@.index_of(k) == old_sources.index_of(k) by {
                    let j = old_sources.index_of(k);
                    assert(old_sources[j] == k);
                    assert(self.sources@[j] == k);
                    self.lemma_index_of(j);
                }
                self.lemma_index_of(n as int);
                assert(self.sources@[n as int] == src);
                assert(self@.stack.dom() =~= old(self)@.stack.insert(src, (true, deform)).dom());
            }
        }
    }

    /// The sources that submitted this frame, each once and with its deformation.
    pub fn enabled_deforms(&self) -> (r: Vec<(DeformSource, &Deform<V>)>)
        requires
            self.well_formed(),
        ensures
            forall|i: int|
                0 <= i < r@.len() ==> #[trigger] self@.stack.contains_key(r@[i].0) && self@.stack[r@[i].0]
                    == (true, *r@[i].1),
            forall|k: DeformSource|
                #[trigger] self@.stack.contains_key(k) && self@.stack[k].0 ==> exists|i: int|
                    0 <= i < r@.len() && r@[i].0 == k,
            forall|i: int, j: int| 0 <= i < r@.len() && 0 <= j < r@.len() && i != j ==> r@[i].0 != r@[j].0,
    {
        let mut r: Vec<(DeformSource, &Deform<V>)> = Vec::new();
        let mut slots: Ghost<Seq<int>> = Ghost(Seq::empty());
        let mut i: usize = 0;
        while i < self.sources.len()
            invariant
                self.well_formed(),
                i <= self.sources@.len(),
                slots@.len() == r@.len(),
                forall|m: int| 0 <= m < r@.len() ==> 0 <= #[trigger] slots@[m] < i,
                forall|m: int, n: int| 0 <= m < n < r@.len() ==> slots@[m] < slots@[n],
                forall|m: int|
                    0 <= m < r@.len() ==> r@[m].0 == self.sources@[#[trigger] slots@[m]]
                        && self.enabled@[slots@[m]] && *r@[m].1 == self.deforms@[slots@[m]],
                forall|j: int|
                    0 <= j < i && #[trigger] self.enabled@[j] ==> exists|m: int|
                        0 <= m < r@.len() && slots@[m] == j,
            decreases self.sources@.len() - i,
        {
            let ghost old_slots = slots@;
            if self.enabled[i] {
                r.push((self.sources[i], &self.deforms[i]));
                proof {
                    slots@ = slots@.push(i as int);
                    assert(slots@[r@.len() - 1] == i);
                }
            }
            proof {
                assert forall|j: int| 0 <= j < i + 1 && #[trigger] self.enabled@[j] implies exists|m: int|
                    0 <= m < r@.len() && slots@[m] == j by {
                    if j < i {
                        let m = choose|m: int| 0 <= m < old_slots.len() && old_slots[m] == j;
                        assert(slots@[m] == j);
                    } else {
                        assert(slots@[r@.len() - 1] == j);
                    }
                }
            }
            i = i + 1;
        }
        proof {
            assert forall|m: int| 0 <= m < r@.len() implies #[trigger] self@.stack.contains_key(r@[m].0)
                && self@.stack[r@[m].0] == (true, *r@[m].1) by {
                self.lemma_index_of(slots@[m]);
            }
            assert forall|k: DeformSource| #[trigger] self@.stack.contains_key(k) && self@.stack[k].0 implies exists|m: int|
                0 <= m < r@.len() && r@[m].0 == k by {
                let j = self.sources@.index_of(k);
                assert(self.sources@[j] == k);
                assert(self.enabled@[j]);
                let m = choose|m: int| 0 <= m < r@.len() && slots@[m] == j;
                assert(r@[m].0 == k);
            }
            assert forall|m: int, n: int| 0 <= m < r@.len() && 0 <= n < r@.len() && m != n implies r@[m].0
                != r@[n].0 by {
                if m < n {
                    assert(slots@[m] < slots@[n]);
                } else {
                    assert(slots@[n] < slots@[m]);
                }
            }
        }
        r
    }
}

/// How one submitted deformation enters the combined deformation of a node.
#[derive(Debug, Clone, Copy, PartialEq, Eq, Structural)]
pub enum CombineAction {
    /// Add the direct deformation to the node's vertices.
    Direct,
    /// Carry over the deformation of a part, whose vertices stand at `offset .. offset + len`
    /// of the shared deformation buffer, apart from the node's own.
    FromPart { source: u32, offset: usize, len: usize },
    /// Carry over the deformation buffer of a mesh group.
    FromGroup { source: u32 },
}

/// Whether the vertex ranges `a .. a + n` and `b .. b + m` overlap, as the splitting of the
/// shared buffer decides it: the range that starts later starts before the other ends.
pub open spec fn vertex_ranges_overlap(a: int, n: int, b: int, m: int) -> bool {
    if b < a {
        a < b + m
    } else {
        b < a + n
    }
}

/// What combining does with the deformation `deform` that `src` submitted to node `node`,
/// whose vertices stand at `vert_offset .. vert_offset + vert_len`: a direct deformation is
/// added; a mesh group's deformation is carried over from a part (`parts` gives its vertex
/// offset and length) whose range does not overlap the node's, or else from the group's own
/// buffer (`groups` gives its length), where both nodes have a mesh (`meshes`), the source
/// is another node, and what is carried over is not empty. Otherwise it is skipped.
pub open spec fn combine_action<V>(
    src: DeformSource,
    deform: Deform<V>,
    node: u32,
    vert_offset: int,
    vert_len: int,
    meshes: Set<u32>,
    parts: Map<u32, (u16, usize)>,
    groups: Map<u32, usize>,
) -> Option<CombineAction> {
    match deform {
        Deform::Direct(_) => Some(CombineAction::Direct),
        Deform::Source => {
            let s = match src {
                DeformSource::MeshGroup(u) => u.0,
                DeformSource::Param(_) => node,
            };
            if !meshes.contains(node) || !meshes.contains(s) || s == node {
                None
            } else if parts.contains_key(s) {
                let (offset, len) = parts[s];
                if vertex_ranges_overlap(vert_offset, vert_len, offset as int, len as int) || len == 0 {
                    None
                } else {
                    Some(CombineAction::FromPart { source: s, offset: offset as usize, len })
                }
            } else if groups.contains_key(s) && groups[s] > 0 {
                Some(CombineAction::FromGroup { source: s })
            } else {
                None
            }
        },
    }
}

/// For each deformation that submitted this frame (as `enabled_deforms` lists them), what
/// combining the deformations of node `node` does with it.
pub fn combine_actions<V>(
    enabled: &[(DeformSource, &Deform<V>)],
    node: InoxNodeUuid,
    vert_offset: usize,
    vert_len: usize,
    meshes: &HashSet<u32>,
    parts: &HashMap<u32, (u16, usize)>,
    groups: &HashMap<u32, usize>,
) -> (r: Vec<Option<CombineAction>>)
    requires
        vert_offset + vert_len <= usize::MAX,
        forall|i: int| 0 <= i < enabled@.len() ==> (#[trigger] enabled@[i]).1 is Source ==> enabled@[i].0 is MeshGroup,
    ensures
        r@.len() == enabled@.len(),
        forall|i: int|
            0 <= i < enabled@.len() ==> #[trigger] r@[i] == combine_action(
                enabled@[i].0,
                *enabled@[i].1,
                node.0,
                vert_offset as int,
                vert_len as int,
                meshes@,
                parts@,
                groups@,
            ),
{
    let mut r: Vec<Option<CombineAction>> = Vec::new();
    let mut i: usize = 0;
    while i < enabled.len()
        invariant
            i <= enabled@.len(),
            r@.len() == i,
            vert_offset + vert_len <= usize::MAX,
            forall|j: int| 0 <= j < enabled@.len() ==> (#[trigger] enabled@[j]).1 is Source ==> enabled@[j].0 is MeshGroup,
            forall|j: int|
                0 <= j < i ==> #[trigger] r@[j] == combine_action(
                    enabled@[j].0,
                    *enabled@[j].1,
                    node.0,
                    vert_offset as int,
                    vert_len as int,
                    meshes@,
                    parts@,
                    groups@,
                ),
        decreases enabled@.len() - i,
    {
        let (src, deform) = enabled[i];
        let action = match deform {
            Deform::Direct(_) => Some(CombineAction::Direct),
            Deform::Source => {
                let s = match src {
                    DeformSource::MeshGroup(u) => u.0,
                    DeformSource::Param(_) => node.0,
                };
                if !meshes.contains(&node.0) || !meshes.contains(&s) || s == node.0 {
                    None
                } else {
                    match parts.get(&s) {
                        Some(range) => {
                            let (offset, len) = *range;
                            let start = offset as usize;
                            let overlap = if start < vert_offset {
                                (vert_offset - start) < len
                            } else {
                                start - vert_offset < vert_len
                            };
                            if overlap || len == 0 {
                                None
                            } else {
                                Some(CombineAction::FromPart { source: s, offset: start, len })
                            }
                        },
                        None => match groups.get(&s) {
                            Some(n) => if *n > 0 {
                                Some(CombineAction::FromGroup { source: s })
                            } else {
                                None
                            },
                            None => None,
                        },
                    }
                }
            },
        };
        r.push(action);
        i = i + 1;
    }
    r
}

} // verus!
