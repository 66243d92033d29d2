//! What rendering keeps per node: where a mesh's data sits in the shared buffers, and
//! the children that a composite draws.

use vstd::prelude::*;

use std::collections::{HashMap, HashSet};

use crate::nodes::node::InoxNodeUuid;
use super::nesting::{nearest_composite_spec, nest_drawables, reaches_root, some_depth};
use super::vertex_buffers::{shifted_indices, VertexBuffers};
use super::zsort::{sorted_descending, zsort_descending};

verus! {

broadcast use vstd::std_specs::hash::group_hash_axioms;

/// Where a part's mesh sits in the shared vertex buffers.
#[derive(Debug, Clone, Copy, PartialEq, Eq, Structural)]
pub struct PartRenderCtx {
    pub index_offset: u16,
    pub vert_offset: u16,
    pub index_len: usize,
    pub vert_len: usize,
}

/// What rendering keeps for a node, by the kind of node.
#[derive(Debug, Clone)]
pub enum RenderCtxKind {
    Node,
    Part(PartRenderCtx),
    Composite(Vec<InoxNodeUuid>),
}

/// Additional info per node for rendering a textured mesh: the offset and length of its
/// indices and of its vertices inside the shared buffers, and the blending it starts each
/// frame with (`B` is the blending type).
pub struct TexturedMeshRenderCtx<B> {
    pub index_offset: u16,
    pub vert_offset: u16,
    pub index_len: usize,
    pub vert_len: usize,
    pub base_blending: B,
}

/// Additional info per node for rendering a composite: its children in z order, and the
/// blending it starts each frame with.
pub struct CompositeRenderCtx<B> {
    pub zsorted_children_list: Vec<InoxNodeUuid>,
    pub base_blending: B,
}

/// Adds a part's mesh to the shared buffers and gives where it now sits.
pub fn part_render_ctx<V: Copy>(
    buffers: &mut VertexBuffers<V>,
    vertices: &[V],
    uvs: &[V],
    indices: &[u16],
    zero: V,
) -> (r: PartRenderCtx)
    requires
        forall|i: int|
            0 <= i < indices@.len() ==> indices@[i] + (old(buffers).verts@.len() as u16) <= u16::MAX,
    ensures
        r == (PartRenderCtx {
            index_offset: old(buffers).indices@.len() as u16,
            vert_offset: old(buffers).verts@.len() as u16,
            index_len: indices@.len() as usize,
            vert_len: vertices@.len() as usize,
        }),
        final(buffers).verts@ == old(buffers).verts@ + vertices@,
        final(buffers).uvs@ == old(buffers).uvs@ + uvs@,
        final(buffers).indices@ == old(buffers).indices@ + shifted_indices(indices@, r.vert_offset),
        final(buffers).deforms@ == old(buffers).deforms@ + Seq::new(vertices@.len(), |i: int| zero),
{
    let (index_offset, vert_offset) = buffers.push(vertices, uvs, indices, zero);
    PartRenderCtx { index_offset, vert_offset, index_len: indices.len(), vert_len: vertices.len() }
}

/// The children of a composite without the composite itself, in order.
pub fn composite_children(zsorted: &[InoxNodeUuid], composite: InoxNodeUuid) -> (r: Vec<InoxNodeUuid>)
    ensures
        r@ == zsorted@.filter(|u: InoxNodeUuid| u != composite),
{
    let mut r: Vec<InoxNodeUuid> = Vec::new();
    let mut i: usize = 0;
    while i < zsorted.len()
        invariant
            i <= zsorted@.len(),
            r@ == zsorted@.take(i as int).filter(|u: InoxNodeUuid| u != composite),
        decreases zsorted@.len() - i,
    {
        proof {
            let t = zsorted@.take(i + 1);
            assert(t.drop_last() =~= zsorted@.take(i as int));
            zsorted@.take(i as int).lemma_filter_push(zsorted@[i as int], |u: InoxNodeUuid| u != composite);
            assert(zsorted@.take(i as int).push(zsorted@[i as int]) =~= t);
        }
        if zsorted[i] != composite {
            r.push(zsorted[i]);
        }
        i = i + 1;
    }
    assert(zsorted@.take(zsorted@.len() as int) =~= zsorted@);
    r
}

/// What rendering needs to know of a drawable node: a textured mesh with its vertices,
/// UVs and indices into its own vertices, or a composite.
pub enum DrawableKindInfo<V> {
    TexturedMesh { vertices: Vec<V>, uvs: Vec<V>, indices: Vec<u16> },
    Composite,
}

/// The vertices of a textured mesh; none for a composite.
pub open spec fn mesh_vertices<V>(k: DrawableKindInfo<V>) -> Seq<V> {
    match k {
        DrawableKindInfo::TexturedMesh { vertices, .. } => vertices@,
        DrawableKindInfo::Composite => Seq::empty(),
    }
}

/// The UVs of a textured mesh; none for a composite.
pub open spec fn mesh_uvs<V>(k: DrawableKindInfo<V>) -> Seq<V> {
    match k {
        DrawableKindInfo::TexturedMesh { uvs, .. } => uvs@,
        DrawableKindInfo::Composite => Seq::empty(),
    }
}

/// The indices of a textured mesh; none for a composite.
pub open spec fn mesh_indices<V>(k: DrawableKindInfo<V>) -> Seq<u16> {
    match k {
        DrawableKindInfo::TexturedMesh { indices, .. } => indices@,
        DrawableKindInfo::Composite => Seq::empty(),
    }
}

/// Node `id` is a textured mesh.
pub open spec fn is_textured_mesh<V>(kinds: Map<u32, DrawableKindInfo<V>>, id: u32) -> bool {
    kinds.contains_key(id) && kinds[id] is TexturedMesh
}

/// Node `id` is a composite.
pub open spec fn is_composite<V>(kinds: Map<u32, DrawableKindInfo<V>>, id: u32) -> bool {
    kinds.contains_key(id) && kinds[id] is Composite
}

/// The test for a textured mesh, as a predicate on node ids.
pub open spec fn textured_pred<V>(kinds: Map<u32, DrawableKindInfo<V>>) -> spec_fn(u32) -> bool {
    |id: u32| is_textured_mesh(kinds, id)
}

/// The test for a composite, as a predicate on node ids.
pub open spec fn composite_pred<V>(kinds: Map<u32, DrawableKindInfo<V>>) -> spec_fn(u32) -> bool {
    |id: u32| is_composite(kinds, id)
}

/// The textured meshes of `order`, in order.
pub open spec fn textured_meshes<V>(order: Seq<u32>, kinds: Map<u32, DrawableKindInfo<V>>) -> Seq<u32> {
    order.filter(textured_pred(kinds))
}

/// The composites of `order`, in order.
pub open spec fn composites_in_order<V>(order: Seq<u32>, kinds: Map<u32, DrawableKindInfo<V>>) -> Seq<u32> {
    order.filter(composite_pred(kinds))
}

/// The composites among the nodes of `order`.
pub open spec fn composites_of<V>(order: Seq<u32>, kinds: Map<u32, DrawableKindInfo<V>>) -> Set<u32> {
    Set::new(|c: u32| order.contains(c) && is_composite(kinds, c))
}

/// The vertices of the meshes `ids`, one mesh after the other.
pub open spec fn verts_of<V>(ids: Seq<u32>, kinds: Map<u32, DrawableKindInfo<V>>) -> Seq<V>
    decreases ids.len(),
{
    if ids.len() == 0 {
        Seq::empty()
    } else {
        verts_of(ids.drop_last(), kinds) + mesh_vertices(kinds[ids.last()])
    }
}

/// The UVs of the meshes `ids`, one mesh after the other.
pub open spec fn uvs_of<V>(ids: Seq<u32>, kinds: Map<u32, DrawableKindInfo<V>>) -> Seq<V>
    decreases ids.len(),
{
    if ids.len() == 0 {
        Seq::empty()
    } else {
        uvs_of(ids.drop_last(), kinds) + mesh_uvs(kinds[ids.last()])
    }
}

/// The indices of the meshes `ids`, one mesh after the other, each shifted to where its
/// vertices stand in buffers that held `base` vertices before the first.
pub open spec fn indices_of<V>(ids: Seq<u32>, kinds: Map<u32, DrawableKindInfo<V>>, base: int) -> Seq<u16>
    decreases ids.len(),
{
    if ids.len() == 0 {
        Seq::empty()
    } else {
        let before = ids.drop_last();
        indices_of(before, kinds, base) + shifted_indices(
            mesh_indices(kinds[ids.last()]),
            (base + verts_of(before, kinds).len()) as u16,
        )
    }
}

/// Where mesh `k` of `ids` sits once the meshes are pushed in order onto buffers that
/// held `verts_base` vertices and `indices_base` indices.
pub open spec fn planned_part<V>(
    ids: Seq<u32>,
    kinds: Map<u32, DrawableKindInfo<V>>,
    k: int,
    verts_base: int,
    indices_base: int,
) -> PartRenderCtx {
    let before = ids.take(k);
    let mesh = kinds[ids[k]];
    PartRenderCtx {
        index_offset: (indices_base + indices_of(before, kinds, verts_base).len()) as u16,
        vert_offset: (verts_base + verts_of(before, kinds).len()) as u16,
        index_len: mesh_indices(mesh).len() as usize,
        vert_len: mesh_vertices(mesh).len() as usize,
    }
}

/// Every index of every textured mesh of `order`, shifted to where the mesh's vertices
/// start in buffers that held `verts_base` vertices before, stays within 16 bits.
pub open spec fn meshes_fit<V>(order: Seq<u32>, kinds: Map<u32, DrawableKindInfo<V>>, verts_base: int) -> bool {
    let ids = textured_meshes(order, kinds);
    forall|k: int, j: int|
        0 <= k < ids.len() && 0 <= j < mesh_indices(kinds[ids[k]]).len() ==> #[trigger] mesh_indices(
            kinds[ids[k]],
        )[j] + ((verts_base + verts_of(ids.take(k), kinds).len()) as u16) <= u16::MAX
}

/// The length of the deformation stack that node `id` gets, if any: a textured mesh that a
/// parameter deforms gets one as long as its vertices, a node that is not drawable and has
/// a mesh group gets one as long as the group's mesh.
pub open spec fn deform_stack_len<V>(
    kinds: Map<u32, DrawableKindInfo<V>>,
    deformed: Set<u32>,
    mesh_groups: Map<u32, usize>,
    id: u32,
) -> Option<usize> {
    if kinds.contains_key(id) {
        if kinds[id] is TexturedMesh && deformed.contains(id) {
            Some(mesh_vertices(kinds[id]).len() as usize)
        } else {
            None
        }
    } else if mesh_groups.contains_key(id) {
        Some(mesh_groups[id])
    } else {
        None
    }
}

/// A node's deformation stack entry: its id and the stack's length.
pub open spec fn deform_stack_entry<V>(
    kinds: Map<u32, DrawableKindInfo<V>>,
    deformed: Set<u32>,
    mesh_groups: Map<u32, usize>,
) -> spec_fn(u32) -> Option<(u32, usize)> {
    |id: u32|
        match deform_stack_len(kinds, deformed, mesh_groups, id) {
            Some(n) => Some((id, n)),
            None => None,
        }
}

/// The nodes of `order` that get a deformation stack, in order, with its length.
pub open spec fn planned_deform_stacks<V>(
    order: Seq<u32>,
    kinds: Map<u32, DrawableKindInfo<V>>,
    deformed: Set<u32>,
    mesh_groups: Map<u32, usize>,
) -> Seq<(u32, usize)> {
    order.filter_map(deform_stack_entry(kinds, deformed, mesh_groups))
}

/// Every deformation stack planned for `order` belongs to a node of `order` and has one
/// entry per vertex the node deforms: a textured mesh in `deformed` gets as many as its
/// mesh has vertices, a node that is not drawable as many as its mesh group's mesh; and
/// every such node gets one.
pub proof fn lemma_deform_stack_lengths<V>(
    order: Seq<u32>,
    kinds: Map<u32, DrawableKindInfo<V>>,
    deformed: Set<u32>,
    mesh_groups: Map<u32, usize>,
)
    ensures
        forall|k: int|
            0 <= k < planned_deform_stacks(order, kinds, deformed, mesh_groups).len() ==> {
                let (id, n) = #[trigger] planned_deform_stacks(order, kinds, deformed, mesh_groups)[k];
                &&& order.contains(id)
                &&& (is_textured_mesh(kinds, id) && deformed.contains(id) && n == mesh_vertices(kinds[id]).len() as usize)
                    || (!kinds.contains_key(id) && mesh_groups.contains_key(id) && n == mesh_groups[id])
            },
        forall|i: int|
            0 <= i < order.len() && ((is_textured_mesh(kinds, #[trigger] order[i]) && deformed.contains(order[i])) || (
            !kinds.contains_key(order[i]) && mesh_groups.contains_key(order[i]))) ==> exists|k: int|
                0 <= k < planned_deform_stacks(order, kinds, deformed, mesh_groups).len() && planned_deform_stacks(
                    order,
                    kinds,
                    deformed,
                    mesh_groups,
                )[k].0 == order[i],
    decreases order.len(),
{
    let f = deform_stack_entry(kinds, deformed, mesh_groups);
    let all = planned_deform_stacks(order, kinds, deformed, mesh_groups);
    if order.len() > 0 {
        let init = order.drop_last();
        let last = order.last();
        lemma_deform_stack_lengths(init, kinds, deformed, mesh_groups);
        let before = planned_deform_stacks(init, kinds, deformed, mesh_groups);
        assert(all == match f(last) {
            Some(e) => before + seq![e],
            None => before,
        });
        assert forall|k: int| 0 <= k < all.len() implies {
            let (id, n) = #[trigger] all[k];
            &&& order.contains(id)
            &&& (is_textured_mesh(kinds, id) && deformed.contains(id) && n == mesh_vertices(kinds[id]).len() as usize)
                || (!kinds.contains_key(id) && mesh_groups.contains_key(id) && n == mesh_groups[id])
        } by {
            if k < before.len() {
                assert(all[k] == before[k]);
                let id = before[k].0;
                let j = choose|j: int| 0 <= j < init.len() && init[j] == id;
                assert(order[j] == id);
            } else {
                assert(order[order.len() - 1] == last);
            }
        }
        assert forall|i: int|
            0 <= i < order.len() && ((is_textured_mesh(kinds, #[trigger] order[i]) && deformed.contains(order[i])) || (
            !kinds.contains_key(order[i]) && mesh_groups.contains_key(order[i]))) implies exists|k: int|
                0 <= k < all.len() && all[k].0 == order[i] by {
            if i < init.len() {
                assert(init[i] == order[i]);
                let k = choose|k: int| 0 <= k < before.len() && before[k].0 == init[i];
                assert(all[k] == before[k]);
            } else {
                assert(all[all.len() - 1].0 == last);
            }
        }
    }
}

/// The composite that draws node `id`: its nearest ancestor among the composites of `order`.
pub open spec fn planned_nearest<V>(
    parents: Map<u32, u32>,
    root: u32,
    order: Seq<u32>,
    kinds: Map<u32, DrawableKindInfo<V>>,
    id: u32,
) -> Option<u32> {
    nearest_composite_spec(parents, composites_of(order, kinds), root, id, some_depth(parents, root, id))
}

/// The test for a drawable that `c` draws, as a predicate on node ids.
pub open spec fn under_pred<V>(
    parents: Map<u32, u32>,
    root: u32,
    order: Seq<u32>,
    kinds: Map<u32, DrawableKindInfo<V>>,
    c: Option<u32>,
) -> spec_fn(u32) -> bool {
    |id: u32| kinds.contains_key(id) && planned_nearest(parents, root, order, kinds, id) == c
}

/// The drawables of `order` that composite `c` draws (`Some`), or that the puppet draws
/// itself (`None`), in order.
pub open spec fn drawables_under<V>(
    parents: Map<u32, u32>,
    root: u32,
    order: Seq<u32>,
    kinds: Map<u32, DrawableKindInfo<V>>,
    c: Option<u32>,
) -> Seq<u32> {
    order.filter(under_pred(parents, root, order, kinds, c))
}

fn collect_drawables_under<V>(
    order: &[u32],
    kinds: &HashMap<u32, DrawableKindInfo<V>>,
    nest: &[Option<u32>],
    c: Option<u32>,
    Ghost(parents): Ghost<Map<u32, u32>>,
    Ghost(root): Ghost<u32>,
) -> (r: Vec<u32>)
    requires
        nest@.len() == order@.len(),
        forall|i: int|
            0 <= i < order@.len() ==> #[trigger] nest@[i] == planned_nearest(parents, root, order@, kinds@, order@[i]),
    ensures
        r@ == drawables_under(parents, root, order@, kinds@, c),
{
    let ghost pred = under_pred(parents, root, order@, kinds@, c);
    let mut r: Vec<u32> = Vec::new();
    let mut i: usize = 0;
    while i < order.len()
        invariant
            i <= order@.len(),
            nest@.len() == order@.len(),
            pred == under_pred(parents, root, order@, kinds@, c),
            forall|i: int|
                0 <= i < order@.len() ==> #[trigger] nest@[i] == planned_nearest(parents, root, order@, kinds@, order@[i]),
            r@ == order@.take(i as int).filter(pred),
        decreases order@.len() - i,
    {
        let id = order[i];
        proof {
            order@.take(i as int).lemma_filter_push(id, pred);
            assert(order@.take(i as int).push(id) =~= order@.take(i + 1));
        }
        let same = match (nest[i], c) {
            (None, None) => true,
            (Some(a), Some(b)) => a == b,
            _ => false,
        };
        if same && kinds.contains_key(&id) {
            r.push(id);
        }
        i = i + 1;
    }
    assert(order@.take(order@.len() as int) =~= order@);
    r
}

fn collect_composites<V>(order: &[u32], kinds: &HashMap<u32, DrawableKindInfo<V>>) -> (r: (HashSet<u32>, Vec<u32>))
    ensures
        r.0@ == composites_of(order@, kinds@),
        r.1@ == composites_in_order(order@, kinds@),
{
    let ghost pred = composite_pred(kinds@);
    let mut set: HashSet<u32> = HashSet::new();
    let mut list: Vec<u32> = Vec::new();
    let mut i: usize = 0;
    while i < order.len()
        invariant
            i <= order@.len(),
            pred == composite_pred(kinds@),
            set@ == composites_of(order@.take(i as int), kinds@),
            list@ == order@.take(i as int).filter(pred),
        decreases order@.len() - i,
    {
        let id = order[i];
        let ghost before = order@.take(i as int);
        proof {
            before.lemma_filter_push(id, pred);
            assert(before.push(id) =~= order@.take(i + 1));
        }
        match kinds.get(&id) {
            Some(DrawableKindInfo::Composite) => {
                set.insert(id);
                list.push(id);
            },
            _ => {},
        }
        proof {
            let after = order@.take(i + 1);
            assert forall|c: u32| #[trigger] after.contains(c) <==> before.contains(c) || c == id by {
                if after.contains(c) {
                    let j = choose|j: int| 0 <= j < after.len() && after[j] == c;
                    if j < i {
                        assert(before[j] == c);
                    }
                }
                if before.contains(c) {
                    let j = choose|j: int| 0 <= j < before.len() && before[j] == c;
                    assert(after[j] == c);
                }
                if c == id {
                    assert(after[i as int] == c);
                }
            }
            assert(set@ =~= composites_of(after, kinds@));
        }
        i = i + 1;
    }
    assert(order@.take(order@.len() as int) =~= order@);
    (set, list)
}

/// What rendering sets up for a puppet: where each textured mesh sits in the shared
/// buffers, the children that each composite draws, the drawables that the puppet draws
/// itself, and the nodes that get a deformation stack, with its length.
pub struct RenderCtxPlan {
    /// Each textured mesh, in order, and where its data sits in the buffers.
    pub parts: Vec<(u32, PartRenderCtx)>,
    /// Each composite, in order, and the drawables it draws, in order.
    pub composites: Vec<(u32, Vec<u32>)>,
    /// The drawables without a composite above them, in order.
    pub root_drawables: Vec<u32>,
    /// The same drawables, front first once z values are known (in order until then).
    pub root_drawables_zsorted: Vec<u32>,
    /// Each node that gets a deformation stack, in order, and the stack's length.
    pub deform_stacks: Vec<(u32, usize)>,
}

/// Sets up rendering for the nodes of `order` (the puppet's nodes, parents before
/// children): pushes each textured mesh onto the buffers, with `zero` as its vertices'
/// deformation; gives each composite the drawables whose nearest composite ancestor it is,
/// and the puppet the drawables that have none; and gives a deformation stack to each
/// textured mesh in `deformed` and to each node that is not drawable but has a mesh
/// group (`mesh_groups` gives the length of its mesh).
pub fn render_ctx_new<V: Copy>(
    order: &[u32],
    kinds: &HashMap<u32, DrawableKindInfo<V>>,
    parents: &HashMap<u32, u32>,
    root: u32,
    deformed: &HashSet<u32>,
    mesh_groups: &HashMap<u32, usize>,
    buffers: &mut VertexBuffers<V>,
    zero: V,
) -> (r: RenderCtxPlan)
    requires
        forall|i: int| 0 <= i < order@.len() ==> reaches_root(parents@, root, #[trigger] order@[i]),
        meshes_fit(order@, kinds@, old(buffers).verts@.len() as int),
    ensures
        final(buffers).verts@ == old(buffers).verts@ + verts_of(textured_meshes(order@, kinds@), kinds@),
        final(buffers).uvs@ == old(buffers).uvs@ + uvs_of(textured_meshes(order@, kinds@), kinds@),
        final(buffers).indices@ == old(buffers).indices@ + indices_of(
            textured_meshes(order@, kinds@),
            kinds@,
            old(buffers).verts@.len() as int,
        ),
        final(buffers).deforms@ == old(buffers).deforms@ + Seq::new(
            verts_of(textured_meshes(order@, kinds@), kinds@).len(),
            |i: int| zero,
        ),
        r.parts@.len() == textured_meshes(order@, kinds@).len(),
        forall|k: int|
            0 <= k < r.parts@.len() ==> #[trigger] r.parts@[k] == (
                textured_meshes(order@, kinds@)[k],
                planned_part(
                    textured_meshes(order@, kinds@),
                    kinds@,
                    k,
                    old(buffers).verts@.len() as int,
                    old(buffers).indices@.len() as int,
                ),
            ),
        r.composites@.len() == composites_in_order(order@, kinds@).len(),
        forall|k: int|
            0 <= k < r.composites@.len() ==> (#[trigger] r.composites@[k]).0 == composites_in_order(order@, kinds@)[k]
                && r.composites@[k].1@ == drawables_under(parents@, root, order@, kinds@, Some(r.composites@[k].0)),
        r.root_drawables@ == drawables_under(parents@, root, order@, kinds@, None),
        r.root_drawables_zsorted@ == r.root_drawables@,
        r.deform_stacks@ == planned_deform_stacks(order@, kinds@, deformed@, mesh_groups@),
        forall|k: int|
            0 <= k < r.parts@.len() ==> (#[trigger] r.parts@[k]).1.vert_len == mesh_vertices(kinds@[r.parts@[k].0]).len() as usize
                && r.parts@[k].1.index_len == mesh_indices(kinds@[r.parts@[k].0]).len() as usize,
        forall|k: int|
            0 <= k < r.deform_stacks@.len() ==> {
                let (id, n) = #[trigger] r.deform_stacks@[k];
                &&& order@.contains(id)
                &&& (is_textured_mesh(kinds@, id) && deformed@.contains(id) && n == mesh_vertices(kinds@[id]).len() as usize)
                    || (!kinds@.contains_key(id) && mesh_groups@.contains_key(id) && n == mesh_groups@[id])
            },
{
    let (composite_set, composite_ids) = collect_composites(order, kinds);
    let nest = nest_drawables(parents, &composite_set, root, order);
    let ghost ids = textured_meshes(order@, kinds@);
    let ghost vb = old(buffers).verts@.len() as int;
    let ghost ib = old(buffers).indices@.len() as int;
    let ghost tpred = textured_pred(kinds@);
    let ghost dentry = deform_stack_entry(kinds@, deformed@, mesh_groups@);

    let mut parts: Vec<(u32, PartRenderCtx)> = Vec::new();
    let mut deform_stacks: Vec<(u32, usize)> = Vec::new();
    let mut i: usize = 0;
    proof {
        assert(order@.take(0).filter(tpred) =~= Seq::<u32>::empty());
        assert(old(buffers).deforms@ + Seq::new(0, |i: int| zero) =~= old(buffers).deforms@);
    }
    while i < order.len()
        invariant
            i <= order@.len(),
            ids == textured_meshes(order@, kinds@),
            tpred == textured_pred(kinds@),
            dentry == deform_stack_entry(kinds@, deformed@, mesh_groups@),
            vb == old(buffers).verts@.len(),
            ib == old(buffers).indices@.len(),
            meshes_fit(order@, kinds@, vb),
            ({
                let done = order@.take(i as int).filter(tpred);
                &&& buffers.verts@ == old(buffers).verts@ + verts_of(done, kinds@)
                &&& buffers.uvs@ == old(buffers).uvs@ + uvs_of(done, kinds@)
                &&& buffers.indices@ == old(buffers).indices@ + indices_of(done, kinds@, vb)
                &&& buffers.deforms@ == old(buffers).deforms@ + Seq::new(verts_of(done, kinds@).len(), |i: int| zero)
                &&& parts@.len() == done.len()
                &&& forall|k: int|
                    0 <= k < parts@.len() ==> #[trigger] parts@[k] == (done[k], planned_part(done, kinds@, k, vb, ib))
            }),
            deform_stacks@ == order@.take(i as int).filter_map(dentry),
        decreases order@.len() - i,
    {
        let id = order[i];
        let ghost before = order@.take(i as int);
        let ghost done = before.filter(tpred);
        proof {
            before.lemma_filter_push(id, tpred);
            assert(before.push(id) =~= order@.take(i + 1));
            order@.lemma_filter_map_take_succ(dentry, i as int);
            lemma_filter_prefix(order@, i + 1, tpred);
        }
        match kinds.get(&id) {
            Some(DrawableKindInfo::TexturedMesh { vertices, uvs, indices }) => {
                let ghost k = done.len() as int;
                proof {
                    let next = order@.take(i + 1).filter(tpred);
                    assert(next == done.push(id));
                    assert(ids.take(next.len() as int) == next);
                    assert(ids.take(next.len() as int)[k] == ids[k]);
                    assert(ids[k] == id);
                    assert(ids.take(k) =~= done);
                    assert forall|j: int| 0 <= j < indices@.len() implies indices@[j] + (buffers.verts@.len() as u16)
                        <= u16::MAX by {
                        assert(mesh_indices(kinds@[ids[k]])[j] == indices@[j]);
                    }
                }
                let ctx = part_render_ctx(buffers, vertices.as_slice(), uvs.as_slice(), indices.as_slice(), zero);
                parts.push((id, ctx));
                if deformed.contains(&id) {
                    deform_stacks.push((id, vertices.len()));
                }
                proof {
                    let next = done.push(id);
                    assert(next.drop_last() =~= done);
                    assert(buffers.verts@ =~= old(buffers).verts@ + verts_of(next, kinds@));
                    assert(buffers.uvs@ =~= old(buffers).uvs@ + uvs_of(next, kinds@));
                    assert(buffers.indices@ =~= old(buffers).indices@ + indices_of(next, kinds@, vb));
                    assert(buffers.deforms@ =~= old(buffers).deforms@ + Seq::new(
                        verts_of(next, kinds@).len(),
                        |i: int| zero,
                    ));
                    assert forall|m: int| 0 <= m < parts@.len() implies #[trigger] parts@[m] == (
                        next[m],
                        planned_part(next, kinds@, m, vb, ib),
                    ) by {
                        if m < k {
                            assert(next.take(m) =~= done.take(m));
                        } else {
                            assert(next.take(m) =~= done);
                        }
                    }
                }
            },
            Some(DrawableKindInfo::Composite) => {},
            None => {
                match mesh_groups.get(&id) {
                    Some(n) => {
                        deform_stacks.push((id, *n));
                    },
                    None => {},
                }
            },
        }
        i = i + 1;
    }
    assert(order@.take(order@.len() as int) =~= order@);

    let root_drawables = collect_drawables_under(order, kinds, nest.as_slice(), None, Ghost(parents@), Ghost(root));
    let mut composites: Vec<(u32, Vec<u32>)> = Vec::new();
    let mut c: usize = 0;
    while c < composite_ids.len()
        invariant
            c <= composite_ids@.len(),
            composite_ids@ == composites_in_order(order@, kinds@),
            nest@.len() == order@.len(),
            forall|i: int|
                0 <= i < order@.len() ==> #[trigger] nest@[i] == planned_nearest(parents@, root, order@, kinds@, order@[i]),
            composites@.len() == c,
            forall|k: int|
                0 <= k < c ==> (#[trigger] composites@[k]).0 == composite_ids@[k] && composites@[k].1@
                    == drawables_under(parents@, root, order@, kinds@, Some(composites@[k].0)),
        decreases composite_ids@.len() - c,
    {
        let id = composite_ids[c];
        let children = collect_drawables_under(order, kinds, nest.as_slice(), Some(id), Ghost(parents@), Ghost(root));
        composites.push((id, children));
        c = c + 1;
    }
    let root_drawables_zsorted = collect_drawables_under(
        order,
        kinds,
        nest.as_slice(),
        None,
        Ghost(parents@),
        Ghost(root),
    );
    proof {
        lemma_deform_stack_lengths(order@, kinds@, deformed@, mesh_groups@);
    }
    RenderCtxPlan { parts, composites, root_drawables, root_drawables_zsorted, deform_stacks }
}

/// The filtered prefix of a sequence is a prefix of the filtered sequence.
proof fn lemma_filter_prefix(s: Seq<u32>, i: int, pred: spec_fn(u32) -> bool)
    requires
        0 <= i <= s.len(),
    ensures
        s.take(i).filter(pred).len() <= s.filter(pred).len(),
        s.filter(pred).take(s.take(i).filter(pred).len() as int) == s.take(i).filter(pred),
{
    assert(s =~= s.take(i) + s.skip(i));
    Seq::filter_distributes_over_add(s.take(i), s.skip(i), pred);
    assert(s.filter(pred).take(s.take(i).filter(pred).len() as int) =~= s.take(i).filter(pred));
}

/// The keys of `ids`, one for each.
pub open spec fn keys_for(ids: Seq<u32>, keys: Map<u32, i64>) -> Seq<i64> {
    ids.map_values(|id: u32| keys[id])
}

/// Every node of `ids` has a key.
pub open spec fn all_keyed(ids: Seq<u32>, keys: Map<u32, i64>) -> bool {
    forall|i: int| 0 <= i < ids.len() ==> keys.contains_key(#[trigger] ids[i])
}

fn lookup_keys(ids: &[u32], keys: &HashMap<u32, i64>) -> (r: Vec<i64>)
    requires
        all_keyed(ids@, keys@),
    ensures
        r@ == keys_for(ids@, keys@),
{
    let mut r: Vec<i64> = Vec::new();
    let mut i: usize = 0;
    while i < ids.len()
        invariant
            i <= ids@.len(),
            all_keyed(ids@, keys@),
            r@ =~= keys_for(ids@.take(i as int), keys@),
        decreases ids@.len() - i,
    {
        let id = ids[i];
        assert(keys@.contains_key(id));
        let k = *keys.get(&id).unwrap();
        r.push(k);
        i = i + 1;
        assert(r@ =~= keys_for(ids@.take(i as int), keys@));
    }
    assert(ids@.take(ids@.len() as int) =~= ids@);
    r
}

/// Brings the z order up to date: the drawables without a composite, and each composite's
/// children, are ordered front first by their keys (`keys` gives each node's z value as an
/// integer of the same order). The drawables without a composite are ordered from their
/// tree order; each composite's children from their current order. Nodes of equal z keep
/// their relative order. Nothing else changes.
pub fn render_ctx_update(plan: &mut RenderCtxPlan, keys: &HashMap<u32, i64>)
    requires
        all_keyed(old(plan).root_drawables@, keys@),
        forall|k: int| 0 <= k < old(plan).composites@.len() ==> all_keyed(#[trigger] old(plan).composites@[k].1@, keys@),
    ensures
        final(plan).parts@ == old(plan).parts@,
        final(plan).deform_stacks@ == old(plan).deform_stacks@,
        final(plan).root_drawables@ == old(plan).root_drawables@,
        sorted_descending(
            old(plan).root_drawables@,
            keys_for(old(plan).root_drawables@, keys@),
            final(plan).root_drawables_zsorted@,
        ),
        final(plan).root_drawables_zsorted@.to_multiset() == old(plan).root_drawables@.to_multiset(),
        final(plan).composites@.len() == old(plan).composites@.len(),
        forall|k: int|
            0 <= k < final(plan).composites@.len() ==> (#[trigger] final(plan).composites@[k]).0 == old(plan).composites@[k].0
                && sorted_descending(
                old(plan).composites@[k].1@,
                keys_for(old(plan).composites@[k].1@, keys@),
                final(plan).composites@[k].1@,
            ) && final(plan).composites@[k].1@.to_multiset() == old(plan).composites@[k].1@.to_multiset(),
{
    let root_keys = lookup_keys(plan.root_drawables.as_slice(), keys);
    plan.root_drawables_zsorted = zsort_descending(plan.root_drawables.as_slice(), root_keys.as_slice());
    let mut k: usize = 0;
    while k < plan.composites.len()
        invariant
            k <= plan.composites@.len(),
            plan.parts@ == old(plan).parts@,
            plan.deform_stacks@ == old(plan).deform_stacks@,
            plan.root_drawables@ == old(plan).root_drawables@,
            sorted_descending(
                old(plan).root_drawables@,
                keys_for(old(plan).root_drawables@, keys@),
                plan.root_drawables_zsorted@,
            ),
            plan.root_drawables_zsorted@.to_multiset() == old(plan).root_drawables@.to_multiset(),
            plan.composites@.len() == old(plan).composites@.len(),
            forall|j: int| 0 <= j < old(plan).composites@.len() ==> all_keyed(#[trigger] old(plan).composites@[j].1@, keys@),
            forall|j: int| k <= j < plan.composites@.len() ==> #[trigger] plan.composites@[j] == old(plan).composites@[j],
            forall|j: int|
                0 <= j < k ==> (#[trigger] plan.composites@[j]).0 == old(plan).composites@[j].0 && sorted_descending(
                    old(plan).composites@[j].1@,
                    keys_for(old(plan).composites@[j].1@, keys@),
                    plan.composites@[j].1@,
                ) && plan.composites@[j].1@.to_multiset() == old(plan).composites@[j].1@.to_multiset(),
        decreases old(plan).composites@.len() - k,
    {
        let id = plan.composites[k].0;
        let child_keys = lookup_keys(plan.composites[k].1.as_slice(), keys);
        let sorted = zsort_descending(plan.composites[k].1.as_slice(), child_keys.as_slice());
        plan.composites.set(k, (id, sorted));
        k = k + 1;
    }
}

} // verus!
