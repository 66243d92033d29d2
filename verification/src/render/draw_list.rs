//! The order in which the drawables of a puppet are drawn, and a renderer that records it.

use vstd::prelude::*;
use std::collections::HashMap;

use crate::nodes::node::InoxNodeUuid;
use crate::nodes::node_data::Mask;

verus! {

broadcast use vstd::std_specs::hash::group_hash_axioms;

/// One call of the rendering backend. Nodes are named by UUID; the backend finds their
/// components itself.
#[derive(Debug, Clone, Copy, PartialEq, Eq, Structural)]
pub enum DrawCommand {
    /// Begin the masks of the node.
    BeginMasks(InoxNodeUuid),
    /// Get prepared for drawing one mask.
    BeginMask(Mask),
    /// Get prepared for drawing the masked content.
    BeginMaskedContent,
    /// End masking.
    EndMask,
    /// Draw the content of a textured mesh.
    DrawTexturedMesh { as_mask: bool, id: InoxNodeUuid },
    /// Begin drawing the children of a composite.
    BeginComposite { as_mask: bool, id: InoxNodeUuid },
    /// Finish drawing the children of a composite.
    FinishComposite { as_mask: bool, id: InoxNodeUuid },
}

/// A rendering backend: the calls that drawing a puppet makes, in order.
pub trait InoxRenderer {
    /// Begin masking.
    fn on_begin_masks(&mut self, node: InoxNodeUuid);
    /// Get prepared for rendering a singular mask.
    fn on_begin_mask(&mut self, mask: Mask);
    /// Get prepared for rendering masked content.
    fn on_begin_masked_content(&mut self);
    /// End masking.
    fn on_end_mask(&mut self);
    /// Draw textured mesh content.
    fn draw_textured_mesh_content(&mut self, as_mask: bool, id: InoxNodeUuid);
    /// Begin compositing: get prepared for rendering the children of a composite.
    fn begin_composite_content(&mut self, as_mask: bool, id: InoxNodeUuid);
    /// End compositing.
    fn finish_composite_content(&mut self, as_mask: bool, id: InoxNodeUuid);
}

/// A renderer that records the calls it receives.
pub struct DrawList {
    pub commands: Vec<DrawCommand>,
}

impl DrawList {
    pub fn new() -> (r: Self)
        ensures
            r.commands@ == Seq::<DrawCommand>::empty(),
    {
        DrawList { commands: Vec::new() }
    }

    pub fn clear(&mut self)
        ensures
            final(self).commands@ == Seq::<DrawCommand>::empty(),
    {
        self.commands.clear();
    }
}

impl InoxRenderer for DrawList {
    fn on_begin_masks(&mut self, node: InoxNodeUuid)
        ensures
            final(self).commands@ == old(self).commands@.push(DrawCommand::BeginMasks(node)),
    {
        self.commands.push(DrawCommand::BeginMasks(node));
    }

    fn on_begin_mask(&mut self, mask: Mask)
        ensures
            final(self).commands@ == old(self).commands@.push(DrawCommand::BeginMask(mask)),
    {
        self.commands.push(DrawCommand::BeginMask(mask));
    }

    fn on_begin_masked_content(&mut self)
        ensures
            final(self).commands@ == old(self).commands@.push(DrawCommand::BeginMaskedContent),
    {
        self.commands.push(DrawCommand::BeginMaskedContent);
    }

    fn on_end_mask(&mut self)
        ensures
            final(self).commands@ == old(self).commands@.push(DrawCommand::EndMask),
    {
        self.commands.push(DrawCommand::EndMask);
    }

    fn draw_textured_mesh_content(&mut self, as_mask: bool, id: InoxNodeUuid)
        ensures
            final(self).commands@ == old(self).commands@.push(DrawCommand::DrawTexturedMesh { as_mask, id }),
    {
        self.commands.push(DrawCommand::DrawTexturedMesh { as_mask, id });
    }

    fn begin_composite_content(&mut self, as_mask: bool, id: InoxNodeUuid)
        ensures
            final(self).commands@ == old(self).commands@.push(DrawCommand::BeginComposite { as_mask, id }),
    {
        self.commands.push(DrawCommand::BeginComposite { as_mask, id });
    }

    fn finish_composite_content(&mut self, as_mask: bool, id: InoxNodeUuid)
        ensures
            final(self).commands@ == old(self).commands@.push(DrawCommand::FinishComposite { as_mask, id }),
    {
        self.commands.push(DrawCommand::FinishComposite { as_mask, id });
    }
}

/// What drawing reads of a drawable node: whether it is a composite (else a textured
/// mesh), its masks if it has any, and the children of a composite in z order.
pub struct DrawableNode {
    pub composite: bool,
    pub masks: Option<Vec<Mask>>,
    pub children: Vec<InoxNodeUuid>,
}

/// The masks of a node, none where it has no masks.
pub open spec fn mask_seq(n: DrawableNode) -> Seq<Mask> {
    match n.masks {
        Some(v) => v@,
        None => Seq::empty(),
    }
}

/// `r` ranks the drawables of `s`: every mask source and every child of a composite is
/// a drawable of `s` of lower rank than the node that draws it.
pub open spec fn ranked(s: Map<u32, DrawableNode>, r: Map<u32, nat>) -> bool {
    forall|k: u32| #[trigger]
        s.contains_key(k) ==> {
            &&& r.contains_key(k)
            &&& forall|i: int|
                0 <= i < mask_seq(s[k]).len() ==> {
                    let src = #[trigger] mask_seq(s[k])[i].source.0;
                    s.contains_key(src) && r.contains_key(src) && r[src] < r[k]
                }
            &&& s[k].composite ==> forall|i: int|
                0 <= i < s[k].children@.len() ==> {
                    let c = #[trigger] s[k].children@[i].0;
                    s.contains_key(c) && r.contains_key(c) && r[c] < r[k]
                }
        }
}

/// Drawing `s` terminates: no drawable is, through masks and composites, drawn as part of
/// itself.
pub open spec fn well_ordered(s: Map<u32, DrawableNode>) -> bool {
    exists|r: Map<u32, nat>| ranked(s, r)
}

/// A ranking of the drawables of `s`, where there is one.
pub open spec fn scene_rank(s: Map<u32, DrawableNode>) -> Map<u32, nat> {
    choose|r: Map<u32, nat>| ranked(s, r)
}

/// The calls that drawing node `id` makes.
pub open spec fn node_cmds(s: Map<u32, DrawableNode>, r: Map<u32, nat>, id: u32, as_mask: bool) -> Seq<
    DrawCommand,
>
    decreases r[id] + 1, 1nat,
    when ranked(s, r) && s.contains_key(id)
{
    let n = s[id];
    let body = if n.composite {
        composite_cmds(s, r, id, as_mask)
    } else {
        seq![DrawCommand::DrawTexturedMesh { as_mask, id: InoxNodeUuid(id) }]
    };
    if n.masks is Some {
        seq![DrawCommand::BeginMasks(InoxNodeUuid(id))] + masks_cmds(s, r, mask_seq(n), r[id]) + seq![
            DrawCommand::BeginMaskedContent,
        ] + body + seq![DrawCommand::EndMask]
    } else {
        body
    }
}

/// The calls that drawing composite `id` makes: nothing where it has no children.
pub open spec fn composite_cmds(s: Map<u32, DrawableNode>, r: Map<u32, nat>, id: u32, as_mask: bool) -> Seq<
    DrawCommand,
>
    decreases r[id] + 1, 0nat,
    when ranked(s, r) && s.contains_key(id) && s[id].composite
{
    let children = s[id].children@;
    if children.len() == 0 {
        Seq::empty()
    } else {
        seq![DrawCommand::BeginComposite { as_mask, id: InoxNodeUuid(id) }] + list_cmds(
            s,
            r,
            children,
            as_mask,
            r[id],
        ) + seq![DrawCommand::FinishComposite { as_mask, id: InoxNodeUuid(id) }]
    }
}

/// The calls that drawing masks `ms` makes, each source drawn as a mask.
pub open spec fn masks_cmds(s: Map<u32, DrawableNode>, r: Map<u32, nat>, ms: Seq<Mask>, bound: nat) -> Seq<
    DrawCommand,
>
    decreases bound, ms.len() + 1,
    when ranked(s, r) && forall|i: int|
        0 <= i < ms.len() ==> s.contains_key(#[trigger] ms[i].source.0) && r.contains_key(ms[i].source.0)
            && r[ms[i].source.0] < bound
{
    if ms.len() == 0 {
        Seq::empty()
    } else {
        masks_cmds(s, r, ms.drop_last(), bound) + seq![DrawCommand::BeginMask(ms.last())] + node_cmds(
            s,
            r,
            ms.last().source.0,
            true,
        )
    }
}

/// The calls that drawing nodes `ids` in order makes.
pub open spec fn list_cmds(
    s: Map<u32, DrawableNode>,
    r: Map<u32, nat>,
    ids: Seq<InoxNodeUuid>,
    as_mask: bool,
    bound: nat,
) -> Seq<DrawCommand>
    decreases bound, ids.len() + 1,
    when ranked(s, r) && forall|i: int|
        0 <= i < ids.len() ==> s.contains_key(#[trigger] ids[i].0) && r.contains_key(ids[i].0) && r[ids[i].0]
            < bound
{
    if ids.len() == 0 {
        Seq::empty()
    } else {
        list_cmds(s, r, ids.drop_last(), as_mask, bound) + node_cmds(s, r, ids.last().0, as_mask)
    }
}

/// The calls that drawing the root drawables `roots` in order makes.
pub open spec fn roots_cmds(s: Map<u32, DrawableNode>, r: Map<u32, nat>, roots: Seq<InoxNodeUuid>) -> Seq<
    DrawCommand,
>
    decreases roots.len(),
{
    if roots.len() == 0 {
        Seq::empty()
    } else {
        roots_cmds(s, r, roots.drop_last()) + node_cmds(s, r, roots.last().0, false)
    }
}

/// What a `DrawScene` holds: the drawables by UUID, and the root drawables in z order.
pub struct DrawSceneView {
    pub nodes: Map<u32, DrawableNode>,
    pub roots: Seq<InoxNodeUuid>,
}

/// The drawables of a puppet, as drawing reads them, and its root drawables in z order.
pub struct DrawScene {
    nodes: HashMap<u32, DrawableNode>,
    ids: Vec<u32>,
    roots: Vec<InoxNodeUuid>,
}

impl View for DrawScene {
    type V = DrawSceneView;

    closed spec fn view(&self) -> DrawSceneView {
        DrawSceneView { nodes: self.nodes@, roots: self.roots@ }
    }
}

/// Drawable `d` has been ranked: it sits at some position `j` of `ids` that is done, with
/// a rank below `bound`.
pub open spec fn ranked_below(ids: Seq<u32>, done: Seq<bool>, ranks: Seq<usize>, d: u32, bound: int) -> bool {
    exists|j: int| 0 <= j < ids.len() && ids[j] == d && done[j] && ranks[j] < bound
}

/// Every mask source and, for a composite, every child of `n` is ranked below `bound`.
pub open spec fn deps_below(n: DrawableNode, ids: Seq<u32>, done: Seq<bool>, ranks: Seq<usize>, bound: int) -> bool {
    &&& forall|i: int|
        0 <= i < mask_seq(n).len() ==> ranked_below(ids, done, ranks, #[trigger] mask_seq(n)[i].source.0, bound)
    &&& n.composite ==> forall|i: int|
        0 <= i < n.children@.len() ==> ranked_below(ids, done, ranks, #[trigger] n.children@[i].0, bound)
}

/// How many entries of `s` are set.
pub open spec fn count_set(s: Seq<bool>) -> nat
    decreases s.len(),
{
    if s.len() == 0 {
        0
    } else {
        count_set(s.drop_last()) + (if s.last() {
            1nat
        } else {
            0nat
        })
    }
}

proof fn lemma_count_set(s: Seq<bool>, i: int)
    requires
        0 <= i < s.len(),
        !s[i],
    ensures
        count_set(s.update(i, true)) == count_set(s) + 1,
        count_set(s) < s.len(),
    decreases s.len(),
{
    let t = s.update(i, true);
    if i < s.len() - 1 {
        assert(t.drop_last() =~= s.drop_last().update(i, true));
        lemma_count_set(s.drop_last(), i);
    } else {
        assert(t.drop_last() =~= s.drop_last());
        lemma_count_bound(s.drop_last());
    }
}

proof fn lemma_count_bound(s: Seq<bool>)
    ensures
        count_set(s) <= s.len(),
        count_set(s) == s.len() ==> forall|i: int| 0 <= i < s.len() ==> #[trigger] s[i],
    decreases s.len(),
{
    if s.len() > 0 {
        lemma_count_bound(s.drop_last());
        if count_set(s) == s.len() {
            assert forall|i: int| 0 <= i < s.len() implies #[trigger] s[i] by {
                if i < s.len() - 1 {
                    assert(s.drop_last()[i] == s[i]);
                }
            }
        }
    }
}

proof fn lemma_count_none(m: nat)
    ensures
        count_set(Seq::new(m, |j: int| false)) == 0,
    decreases m,
{
    if m > 0 {
        assert(Seq::new(m, |j: int| false).drop_last() =~= Seq::new((m - 1) as nat, |j: int| false));
        lemma_count_none((m - 1) as nat);
    }
}

proof fn lemma_count_all(s: Seq<bool>)
    requires
        forall|i: int| 0 <= i < s.len() ==> #[trigger] s[i],
    ensures
        count_set(s) == s.len(),
    decreases s.len(),
{
    if s.len() > 0 {
        let t = s.drop_last();
        assert forall|i: int| 0 <= i < t.len() implies #[trigger] t[i] by {
            assert(t[i] == s[i]);
        }
        lemma_count_all(t);
        assert(s.last() == s[s.len() - 1]);
    }
}

/// The facts about a stuck ranking pass that show that no ranking exists.
pub open spec fn stuck_pass(
    s: Map<u32, DrawableNode>,
    ids: Seq<u32>,
    done: Seq<bool>,
    ranks: Seq<usize>,
    bound: int,
) -> bool {
    &&& forall|i: int| 0 <= i < ids.len() ==> s.contains_key(#[trigger] ids[i])
    &&& forall|k: u32| #[trigger] s.contains_key(k) ==> ids.contains(k)
    &&& forall|a: int, b: int| 0 <= a < b < ids.len() ==> ids[a] != ids[b]
    &&& done.len() == ids.len()
    &&& ranks.len() == ids.len()
    &&& forall|j: int| 0 <= j < ids.len() && #[trigger] done[j] ==> ranks[j] < bound
    &&& forall|j: int| 0 <= j < ids.len() ==> #[trigger] done[j] || !deps_below(s[ids[j]], ids, done, ranks, bound)
}

proof fn lemma_dep_done(
    s: Map<u32, DrawableNode>,
    ids: Seq<u32>,
    done: Seq<bool>,
    ranks: Seq<usize>,
    bound: int,
    r: Map<u32, nat>,
    b: nat,
    d: u32,
)
    requires
        stuck_pass(s, ids, done, ranks, bound),
        ranked(s, r),
        forall|j: int| 0 <= j < ids.len() && !done[j] ==> r[#[trigger] ids[j]] >= b,
        s.contains_key(d),
        r[d] + 1 < b + 1,
        r[d] < b,
    ensures
        ranked_below(ids, done, ranks, d, bound),
{
    assert(ids.contains(d));
    let p = choose|p: int| 0 <= p < ids.len() && ids[p] == d;
    if !done[p] {
        assert(r[ids[p]] >= b);
    }
    assert(done[p] && ranks[p] < bound);
}

proof fn lemma_undone_rank_at_least(
    s: Map<u32, DrawableNode>,
    ids: Seq<u32>,
    done: Seq<bool>,
    ranks: Seq<usize>,
    bound: int,
    r: Map<u32, nat>,
    b: nat,
)
    requires
        stuck_pass(s, ids, done, ranks, bound),
        ranked(s, r),
    ensures
        forall|j: int| 0 <= j < ids.len() && !done[j] ==> r[#[trigger] ids[j]] >= b,
    decreases b,
{
    if b > 0 {
        lemma_undone_rank_at_least(s, ids, done, ranks, bound, r, (b - 1) as nat);
        assert forall|j: int| 0 <= j < ids.len() && !done[j] implies r[#[trigger] ids[j]] >= b by {
            let k = ids[j];
            if r[k] < b {
                assert(s.contains_key(k));
                let n = s[k];
                assert forall|i: int| 0 <= i < mask_seq(n).len() implies ranked_below(
                    ids,
                    done,
                    ranks,
                    #[trigger] mask_seq(n)[i].source.0,
                    bound,
                ) by {
                    let d = mask_seq(n)[i].source.0;
                    assert(s.contains_key(d) && r.contains_key(d) && r[d] < r[k]);
                    lemma_dep_done(s, ids, done, ranks, bound, r, (b - 1) as nat, d);
                }
                if n.composite {
                    assert forall|i: int| 0 <= i < n.children@.len() implies ranked_below(
                        ids,
                        done,
                        ranks,
                        #[trigger] n.children@[i].0,
                        bound,
                    ) by {
                        let d = n.children@[i].0;
                        assert(s.contains_key(d) && r.contains_key(d) && r[d] < r[k]);
                        lemma_dep_done(s, ids, done, ranks, bound, r, (b - 1) as nat, d);
                    }
                }
                assert(deps_below(n, ids, done, ranks, bound));
                assert(done[j] || !deps_below(s[ids[j]], ids, done, ranks, bound));
            }
        }
    }
}

/// A ranking pass that is stuck before every drawable is ranked shows that the scene is
/// not well ordered.
proof fn lemma_stuck_not_well_ordered(
    s: Map<u32, DrawableNode>,
    ids: Seq<u32>,
    done: Seq<bool>,
    ranks: Seq<usize>,
    bound: int,
    j0: int,
)
    requires
        stuck_pass(s, ids, done, ranks, bound),
        0 <= j0 < ids.len(),
        !done[j0],
    ensures
        !well_ordered(s),
{
    if well_ordered(s) {
        let r = choose|r: Map<u32, nat>| ranked(s, r);
        lemma_undone_rank_at_least(s, ids, done, ranks, bound, r, r[ids[j0]] + 1);
        assert(r[ids[j0]] >= r[ids[j0]] + 1);
    }
}

fn position_of(ids: &Vec<u32>, k: u32) -> (r: Option<usize>)
    ensures
        r matches Some(i) ==> i < ids@.len() && ids@[i as int] == k,
        r is None ==> !ids@.contains(k),
{
    let mut i: usize = 0;
    while i < ids.len()
        invariant
            i <= ids@.len(),
            forall|j: int| 0 <= j < i ==> ids@[j] != k,
        decreases ids@.len() - i,
    {
        if ids[i] == k {
            return Some(i);
        }
        i = i + 1;
    }
    None
}

fn is_ranked_below(ids: &Vec<u32>, done: &Vec<bool>, ranks: &Vec<usize>, d: u32, bound: usize) -> (r: bool)
    requires
        done@.len() == ids@.len(),
        ranks@.len() == ids@.len(),
        forall|a: int, b: int| 0 <= a < b < ids@.len() ==> ids@[a] != ids@[b],
    ensures
        r == ranked_below(ids@, done@, ranks@, d, bound as int),
{
    match position_of(ids, d) {
        Some(j) => {
            assert(forall|w: int| 0 <= w < ids@.len() && ids@[w] == d ==> w == j);
            done[j] && ranks[j] < bound
        },
        None => false,
    }
}

fn deps_ranked_below(
    node: &DrawableNode,
    ids: &Vec<u32>,
    done: &Vec<bool>,
    ranks: &Vec<usize>,
    bound: usize,
) -> (r: bool)
    requires
        done@.len() == ids@.len(),
        ranks@.len() == ids@.len(),
        forall|a: int, b: int| 0 <= a < b < ids@.len() ==> ids@[a] != ids@[b],
    ensures
        r == deps_below(*node, ids@, done@, ranks@, bound as int),
{
    match &node.masks {
        Some(ms) => {
            let mut i: usize = 0;
            while i < ms.len()
                invariant
                    done@.len() == ids@.len(),
                    ranks@.len() == ids@.len(),
                    forall|a: int, b: int| 0 <= a < b < ids@.len() ==> ids@[a] != ids@[b],
                    mask_seq(*node) == ms@,
                    i <= ms@.len(),
                    forall|k: int| 0 <= k < i ==> ranked_below(ids@, done@, ranks@, #[trigger] ms@[k].source.0, bound as int),
                decreases ms@.len() - i,
            {
                if !is_ranked_below(ids, done, ranks, ms[i].source.0, bound) {
                    assert(!ranked_below(ids@, done@, ranks@, mask_seq(*node)[i as int].source.0, bound as int));
                    return false;
                }
                i = i + 1;
            }
        },
        None => {},
    }
    if node.composite {
        let mut i: usize = 0;
        while i < node.children.len()
            invariant
                done@.len() == ids@.len(),
                ranks@.len() == ids@.len(),
                forall|a: int, b: int| 0 <= a < b < ids@.len() ==> ids@[a] != ids@[b],
                node.composite,
                i <= node.children@.len(),
                forall|k: int| 0 <= k < i ==> ranked_below(ids@, done@, ranks@, #[trigger] node.children@[k].0, bound as int),
            decreases node.children@.len() - i,
        {
            if !is_ranked_below(ids, done, ranks, node.children[i].0, bound) {
                assert(!ranked_below(ids@, done@, ranks@, node.children@[i as int].0, bound as int));
                return false;
            }
            i = i + 1;
        }
    }
    true
}

impl DrawScene {
    /// `ids` lists each drawable of the scene once.
    pub closed spec fn well_formed(&self) -> bool {
        &&& forall|i: int| 0 <= i < self.ids@.len() ==> self.nodes@.contains_key(#[trigger] self.ids@[i])
        &&& forall|k: u32| #[trigger] self.nodes@.contains_key(k) ==> self.ids@.contains(k)
        &&& forall|a: int, b: int| 0 <= a < b < self.ids@.len() ==> self.ids@[a] != self.ids@[b]
    }

    pub fn new() -> (r: Self)
        ensures
            r.well_formed(),
            r@.nodes == Map::<u32, DrawableNode>::empty(),
            r@.roots == Seq::<InoxNodeUuid>::empty(),
    {
        DrawScene { nodes: HashMap::new(), ids: Vec::new(), roots: Vec::new() }
    }

    /// Records what drawing reads of drawable `id`.
    pub fn insert(&mut self, id: InoxNodeUuid, node: DrawableNode)
        requires
            old(self).well_formed(),
        ensures
            final(self).well_formed(),
            final(self)@.nodes == old(self)@.nodes.insert(id.0, node),
            final(self)@.roots == old(self)@.roots,
    {
        if !self.nodes.contains_key(&id.0) {
            self.ids.push(id.0);
            assert(self.ids@.last() == id.0);
        }
        self.nodes.insert(id.0, node);
        assert forall|k: u32| #[trigger] self.nodes@.contains_key(k) implies self.ids@.contains(k) by {
            if k == id.0 {
                let i = self.ids@.index_of(id.0);
                if old(self).nodes@.contains_key(id.0) {
                    assert(old(self).ids@.contains(id.0));
                } else {
                    assert(self.ids@[self.ids@.len() - 1] == id.0);
                }
            } else {
                assert(old(self).ids@.contains(k));
                let j = choose|j: int| 0 <= j < old(self).ids@.len() && old(self).ids@[j] == k;
                assert(self.ids@[j] == k);
            }
        }
    }

    /// Whether drawing the scene terminates: whether every drawable can be ranked above
    /// its mask sources and children, which then are all drawables of the scene.
    pub fn is_well_ordered(&self) -> (r: bool)
        requires
            self.well_formed(),
        ensures
            r == well_ordered(self@.nodes),
    {
        let n = self.ids.len();
        let mut done: Vec<bool> = Vec::new();
        let mut ranks: Vec<usize> = Vec::new();
        let mut i: usize = 0;
        while i < n
            invariant
                n == self.ids@.len(),
                i <= n,
                done@ == Seq::new(i as nat, |j: int| false),
                ranks@ == Seq::new(i as nat, |j: int| 0usize),
            decreases n - i,
        {
            done.push(false);
            ranks.push(0);
            i = i + 1;
            assert(done@ =~= Seq::new(i as nat, |j: int| false));
            assert(ranks@ =~= Seq::new(i as nat, |j: int| 0usize));
        }
        proof {
            lemma_count_none(n as nat);
        }
        let mut next: usize = 0;
        loop
            invariant
                self.well_formed(),
                n == self.ids@.len(),
                done@.len() == n,
                ranks@.len() == n,
                next == count_set(done@),
                next <= n,
                forall|j: int| 0 <= j < n && #[trigger] done@[j] ==> ranks@[j] < next,
                forall|j: int|
                    0 <= j < n && #[trigger] done@[j] ==> deps_below(
                        self.nodes@[self.ids@[j]],
                        self.ids@,
                        done@,
                        ranks@,
                        ranks@[j] as int,
                    ),
            ensures
                next == count_set(done@),
                next == n ==> forall|j: int| 0 <= j < n ==> #[trigger] done@[j],
                next < n ==> stuck_pass(self.nodes@, self.ids@, done@, ranks@, next as int),
                forall|j: int|
                    0 <= j < n && #[trigger] done@[j] ==> deps_below(
                        self.nodes@[self.ids@[j]],
                        self.ids@,
                        done@,
                        ranks@,
                        ranks@[j] as int,
                    ),
            decreases n - next,
        {
            if next == n {
                proof {
                    lemma_count_bound(done@);
                }
                break;
            }
            let start = next;
            let mut i: usize = 0;
            while i < n
                invariant
                    self.well_formed(),
                    n == self.ids@.len(),
                    done@.len() == n,
                    ranks@.len() == n,
                    next == count_set(done@),
                    start <= next <= n,
                    i <= n,
                    next == start ==> forall|j: int|
                        0 <= j < i ==> #[trigger] done@[j] || !deps_below(
                            self.nodes@[self.ids@[j]],
                            self.ids@,
                            done@,
                            ranks@,
                            next as int,
                        ),
                    forall|j: int| 0 <= j < n && #[trigger] done@[j] ==> ranks@[j] < next,
                    forall|j: int|
                        0 <= j < n && #[trigger] done@[j] ==> deps_below(
                            self.nodes@[self.ids@[j]],
                            self.ids@,
                            done@,
                            ranks@,
                            ranks@[j] as int,
                        ),
                decreases n - i,
            {
                if !done[i] {
                    let node = self.nodes.get(&self.ids[i]).unwrap();
                    if deps_ranked_below(node, &self.ids, &done, &ranks, next) {
                        let ghost old_done = done@;
                        let ghost old_ranks = ranks@;
                        proof {
                            lemma_count_set(done@, i as int);
                        }
                        done.set(i, true);
                        ranks.set(i, next);
                        next = next + 1;
                        proof {
                            assert forall|j: int|
                                0 <= j < n && #[trigger] done@[j] implies deps_below(
                                    self.nodes@[self.ids@[j]],
                                    self.ids@,
                                    done@,
                                    ranks@,
                                    ranks@[j] as int,
                                ) by {
                                let nd = self.nodes@[self.ids@[j]];
                                let bound = ranks@[j] as int;
                                assert forall|d: u32|
                                    ranked_below(self.ids@, old_done, old_ranks, d, old_ranks[j] as int) || (j == i
                                        && ranked_below(self.ids@, old_done, old_ranks, d, (next - 1) as int))
                                    implies ranked_below(self.ids@, done@, ranks@, d, bound) by {
                                    if ranked_below(self.ids@, old_done, old_ranks, d, old_ranks[j] as int) && (j != i
                                        || !ranked_below(self.ids@, old_done, old_ranks, d, (next - 1) as int)) {
                                        let w = choose|w: int|
                                            0 <= w < self.ids@.len() && self.ids@[w] == d && old_done[w] && old_ranks[w]
                                                < old_ranks[j] as int;
                                        assert(done@[w] && ranks@[w] == old_ranks[w]);
                                    } else {
                                        let w = choose|w: int|
                                            0 <= w < self.ids@.len() && self.ids@[w] == d && old_done[w] && old_ranks[w]
                                                < (next - 1) as int;
                                        assert(done@[w] && ranks@[w] == old_ranks[w]);
                                    }
                                }
                                if j == i {
                                    assert(deps_below(nd, self.ids@, old_done, old_ranks, (next - 1) as int));
                                } else {
                                    assert(old_done[j]);
                                    assert(deps_below(nd, self.ids@, old_done, old_ranks, old_ranks[j] as int));
                                }
                            }
                        }
                    }
                }
                i = i + 1;
            }
            if next == start {
                break;
            }
        }
        if next < n {
            proof {
                if forall|j: int| 0 <= j < n ==> #[trigger] done@[j] {
                    lemma_count_all(done@);
                }
                let j0 = choose|j: int| 0 <= j < n && !#[trigger] done@[j];
                lemma_stuck_not_well_ordered(self.nodes@, self.ids@, done@, ranks@, next as int, j0);
            }
            return false;
        }
        proof {
            let s = self.nodes@;
            let ids = self.ids@;
            let r = Map::new(|k: u32| s.contains_key(k), |k: u32| ranks@[ids.index_of(k)] as nat);
            assert forall|a: int| 0 <= a < ids.len() implies ids.index_of(#[trigger] ids[a]) == a by {
                assert(ids.contains(ids[a]));
                let b = ids.index_of(ids[a]);
                assert(ids[b] == ids[a]);
            }
            assert forall|k: u32| #[trigger] s.contains_key(k) implies {
                &&& r.contains_key(k)
                &&& forall|i: int|
                    0 <= i < mask_seq(s[k]).len() ==> {
                        let src = #[trigger] mask_seq(s[k])[i].source.0;
                        s.contains_key(src) && r.contains_key(src) && r[src] < r[k]
                    }
                &&& s[k].composite ==> forall|i: int|
                    0 <= i < s[k].children@.len() ==> {
                        let c = #[trigger] s[k].children@[i].0;
                        s.contains_key(c) && r.contains_key(c) && r[c] < r[k]
                    }
            } by {
                assert(ids.contains(k));
                let a = ids.index_of(k);
                assert(ids[a] == k);
                assert(done@[a]);
                assert(deps_below(s[k], ids, done@, ranks@, ranks@[a] as int));
                assert forall|d: u32| ranked_below(ids, done@, ranks@, d, ranks@[a] as int) implies s.contains_key(d)
                    && r.contains_key(d) && r[d] < r[k] by {
                    let w = choose|w: int| 0 <= w < ids.len() && ids[w] == d && done@[w] && ranks@[w] < ranks@[a] as int;
                    assert(ids.index_of(ids[w]) == w);
                }
            }
            assert(ranked(s, r));
        }
        true
    }

    /// Appends `id` to the root drawables, which are drawn in the order they were added.
    pub fn push_root(&mut self, id: InoxNodeUuid)
        requires
            old(self).well_formed(),
        ensures
            final(self).well_formed(),
            final(self)@.nodes == old(self)@.nodes,
            final(self)@.roots == old(self)@.roots.push(id),
    {
        self.roots.push(id);
    }

    /// Whether every root drawable is a drawable of the scene.
    pub fn roots_present(&self) -> (r: bool)
        ensures
            r == forall|i: int| 0 <= i < self@.roots.len() ==> self@.nodes.contains_key(#[trigger] self@.roots[i].0),
    {
        let mut i: usize = 0;
        while i < self.roots.len()
            invariant
                i <= self@.roots.len(),
                forall|j: int| 0 <= j < i ==> self@.nodes.contains_key(#[trigger] self@.roots[j].0),
            decreases self@.roots.len() - i,
        {
            if !self.nodes.contains_key(&self.roots[i].0) {
                return false;
            }
            i = i + 1;
        }
        true
    }

    /// Draws drawable `id`, after its masks where it has any: begin the masks, draw each
    /// mask's source as a mask, begin the masked content, draw the node, end the masks.
    pub fn draw_drawable(&self, renderer: &mut DrawList, as_mask: bool, id: InoxNodeUuid)
        requires
            well_ordered(self@.nodes),
            self@.nodes.contains_key(id.0),
        ensures
            final(renderer).commands@ == old(renderer).commands@ + node_cmds(
                self@.nodes,
                scene_rank(self@.nodes),
                id.0,
                as_mask,
            ),
        decreases scene_rank(self@.nodes)[id.0] + 1, 1nat,
    {
        let ghost s = self@.nodes;
        let ghost r = scene_rank(s);
        let ghost start = renderer.commands@;
        let node = self.nodes.get(&id.0).unwrap();
        assert(ranked(s, r));
        let has_masks = match &node.masks {
            Some(ms) => {
                renderer.on_begin_masks(id);
                let mut i: usize = 0;
                while i < ms.len()
                    invariant
                        well_ordered(s),
                        s == self@.nodes,
                        r == scene_rank(s),
                        ranked(s, r),
                        s.contains_key(id.0),
                        mask_seq(s[id.0]) == ms@,
                        i <= ms@.len(),
                        renderer.commands@ == start + seq![DrawCommand::BeginMasks(id)] + masks_cmds(
                            s,
                            r,
                            ms@.take(i as int),
                            r[id.0],
                        ),
                    decreases ms@.len() - i,
                {
                    let m = ms[i];
                    assert(mask_seq(s[id.0])[i as int].source.0 == m.source.0);
                    renderer.on_begin_mask(m);
                    self.draw_drawable(renderer, true, m.source);
                    proof {
                        let t = ms@.take(i + 1);
                        assert(t.drop_last() =~= ms@.take(i as int));
                        assert(t.last() == m);
                    }
                    i = i + 1;
                }
                assert(ms@.take(ms@.len() as int) =~= ms@);
                renderer.on_begin_masked_content();
                true
            },
            None => false,
        };
        if node.composite {
            self.draw_composite(renderer, as_mask, id);
        } else {
            renderer.draw_textured_mesh_content(as_mask, id);
        }
        if has_masks {
            renderer.on_end_mask();
        }
    }

    /// Draws composite `id`: begin it, draw its children in z order, finish it; nothing
    /// at all where it has no children.
    pub fn draw_composite(&self, renderer: &mut DrawList, as_mask: bool, id: InoxNodeUuid)
        requires
            well_ordered(self@.nodes),
            self@.nodes.contains_key(id.0),
            self@.nodes[id.0].composite,
        ensures
            final(renderer).commands@ == old(renderer).commands@ + composite_cmds(
                self@.nodes,
                scene_rank(self@.nodes),
                id.0,
                as_mask,
            ),
        decreases scene_rank(self@.nodes)[id.0] + 1, 0nat,
    {
        let ghost s = self@.nodes;
        let ghost r = scene_rank(s);
        let ghost start = renderer.commands@;
        let node = self.nodes.get(&id.0).unwrap();
        assert(ranked(s, r));
        let children = &node.children;
        if children.len() == 0 {
            assert(renderer.commands@ =~= start + composite_cmds(s, r, id.0, as_mask));
            return;
        }
        renderer.begin_composite_content(as_mask, id);
        let mut i: usize = 0;
        while i < children.len()
            invariant
                well_ordered(s),
                s == self@.nodes,
                r == scene_rank(s),
                ranked(s, r),
                s.contains_key(id.0),
                s[id.0].composite,
                s[id.0].children@ == children@,
                i <= children@.len(),
                renderer.commands@ == start + seq![DrawCommand::BeginComposite { as_mask, id }] + list_cmds(
                    s,
                    r,
                    children@.take(i as int),
                    as_mask,
                    r[id.0],
                ),
            decreases children@.len() - i,
        {
            let c = children[i];
            assert(s[id.0].children@[i as int].0 == c.0);
            self.draw_drawable(renderer, as_mask, c);
            proof {
                let t = children@.take(i + 1);
                assert(t.drop_last() =~= children@.take(i as int));
                assert(t.last() == c);
            }
            i = i + 1;
        }
        assert(children@.take(children@.len() as int) =~= children@);
        renderer.finish_composite_content(as_mask, id);
    }

    /// Draws every root drawable in z order: this draws the whole puppet.
    pub fn draw(&self) -> (r: DrawList)
        requires
            well_ordered(self@.nodes),
            forall|i: int| 0 <= i < self@.roots.len() ==> self@.nodes.contains_key(#[trigger] self@.roots[i].0),
        ensures
            r.commands@ == roots_cmds(self@.nodes, scene_rank(self@.nodes), self@.roots),
            r.commands@ == per_root_cmds(self@.nodes, scene_rank(self@.nodes), self@.roots).flatten(),
    {
        proof {
            lemma_roots_in_order(self@.nodes, scene_rank(self@.nodes), self@.roots);
        }
        let mut list = DrawList::new();
        let mut i: usize = 0;
        while i < self.roots.len()
            invariant
                well_ordered(self@.nodes),
                forall|j: int| 0 <= j < self@.roots.len() ==> self@.nodes.contains_key(#[trigger] self@.roots[j].0),
                i <= self@.roots.len(),
                list.commands@ == roots_cmds(self@.nodes, scene_rank(self@.nodes), self@.roots.take(i as int)),
            decreases self@.roots.len() - i,
        {
            let id = self.roots[i];
            self.draw_drawable(&mut list, false, id);
            proof {
                let t = self@.roots.take(i + 1);
                assert(t.drop_last() =~= self@.roots.take(i as int));
                assert(t.last() == id);
            }
            i = i + 1;
        }
        assert(self@.roots.take(self@.roots.len() as int) =~= self@.roots);
        list
    }

    /// Draws the whole puppet, where drawing ends and every root is a drawable of the scene;
    /// `None` otherwise.
    pub fn try_draw(&self) -> (r: Option<DrawList>)
        requires
            self.well_formed(),
        ensures
            r is Some <==> well_ordered(self@.nodes) && forall|i: int|
                0 <= i < self@.roots.len() ==> self@.nodes.contains_key(#[trigger] self@.roots[i].0),
            r matches Some(l) ==> l.commands@ == roots_cmds(self@.nodes, scene_rank(self@.nodes), self@.roots),
    {
        if self.roots_present() && self.is_well_ordered() {
            Some(self.draw())
        } else {
            None
        }
    }
}

/// Drawing a masked drawable begins with beginning its masks and ends with ending them;
/// drawing an unmasked composite without children makes no call at all.
pub proof fn lemma_mask_bracket(s: Map<u32, DrawableNode>, r: Map<u32, nat>, id: u32, as_mask: bool)
    requires
        ranked(s, r),
        s.contains_key(id),
    ensures
        s[id].masks is Some ==> {
            let cmds = node_cmds(s, r, id, as_mask);
            &&& cmds.len() >= 3
            &&& cmds[0] == DrawCommand::BeginMasks(InoxNodeUuid(id))
            &&& cmds.last() == DrawCommand::EndMask
        },
        s[id].masks is None && s[id].composite && s[id].children@.len() == 0 ==> node_cmds(s, r, id, as_mask)
            == Seq::<DrawCommand>::empty(),
{
}

/// The calls that drawing each root drawable of `roots` makes, one root after the other.
pub open spec fn per_root_cmds(s: Map<u32, DrawableNode>, r: Map<u32, nat>, roots: Seq<InoxNodeUuid>) -> Seq<
    Seq<DrawCommand>,
> {
    Seq::new(roots.len(), |i: int| node_cmds(s, r, roots[i].0, false))
}

/// Drawing the puppet draws its root drawables in the order of the roots list, none of
/// them as a mask: the calls are those that drawing `roots[0]` makes, then those of
/// `roots[1]`, and so on.
pub proof fn lemma_roots_in_order(s: Map<u32, DrawableNode>, r: Map<u32, nat>, roots: Seq<InoxNodeUuid>)
    ensures
        roots_cmds(s, r, roots) == per_root_cmds(s, r, roots).flatten(),
    decreases roots.len(),
{
    let parts = per_root_cmds(s, r, roots);
    parts.lemma_flatten_and_flatten_alt_are_equivalent();
    if roots.len() > 0 {
        lemma_roots_in_order(s, r, roots.drop_last());
        let init = per_root_cmds(s, r, roots.drop_last());
        init.lemma_flatten_and_flatten_alt_are_equivalent();
        assert(parts.drop_last() =~= init);
    }
}

/// Drawing a textured mesh without masks makes exactly one call: drawing its content,
/// as a mask or not as asked.
pub proof fn lemma_plain_mesh(s: Map<u32, DrawableNode>, r: Map<u32, nat>, id: u32, as_mask: bool)
    requires
        ranked(s, r),
        s.contains_key(id),
        !s[id].composite,
        s[id].masks is None,
    ensures
        node_cmds(s, r, id, as_mask) == seq![DrawCommand::DrawTexturedMesh { as_mask, id: InoxNodeUuid(id) }],
{
}

/// The calls that drawing each node of `ids` makes, one node after the other.
pub open spec fn per_node_cmds(s: Map<u32, DrawableNode>, r: Map<u32, nat>, ids: Seq<InoxNodeUuid>, as_mask: bool) -> Seq<
    Seq<DrawCommand>,
> {
    Seq::new(ids.len(), |i: int| node_cmds(s, r, ids[i].0, as_mask))
}

/// A composite with children draws them in the order of its children list, between
/// beginning and finishing the composite; each child is drawn as a mask exactly when the
/// composite is.
pub proof fn lemma_children_in_order(s: Map<u32, DrawableNode>, r: Map<u32, nat>, id: u32, as_mask: bool)
    requires
        ranked(s, r),
        s.contains_key(id),
        s[id].composite,
        s[id].children@.len() > 0,
    ensures
        composite_cmds(s, r, id, as_mask) == seq![DrawCommand::BeginComposite { as_mask, id: InoxNodeUuid(id) }]
            + per_node_cmds(s, r, s[id].children@, as_mask).flatten() + seq![
            DrawCommand::FinishComposite { as_mask, id: InoxNodeUuid(id) },
        ],
{
    let children = s[id].children@;
    assert forall|i: int| 0 <= i < children.len() implies s.contains_key(#[trigger] children[i].0) && r.contains_key(
        children[i].0,
    ) && r[children[i].0] < r[id] by {
        assert(s[id].children@[i].0 == children[i].0);
    }
    lemma_list_in_order(s, r, children, as_mask, r[id]);
}

proof fn lemma_list_in_order(
    s: Map<u32, DrawableNode>,
    r: Map<u32, nat>,
    ids: Seq<InoxNodeUuid>,
    as_mask: bool,
    bound: nat,
)
    requires
        ranked(s, r),
        forall|i: int|
            0 <= i < ids.len() ==> s.contains_key(#[trigger] ids[i].0) && r.contains_key(ids[i].0) && r[ids[i].0]
                < bound,
    ensures
        list_cmds(s, r, ids, as_mask, bound) == per_node_cmds(s, r, ids, as_mask).flatten(),
    decreases ids.len(),
{
    let parts = per_node_cmds(s, r, ids, as_mask);
    parts.lemma_flatten_and_flatten_alt_are_equivalent();
    if ids.len() > 0 {
        let init = ids.drop_last();
        assert forall|i: int| 0 <= i < init.len() implies s.contains_key(#[trigger] init[i].0) && r.contains_key(
            init[i].0,
        ) && r[init[i].0] < bound by {
            assert(init[i] == ids[i]);
        }
        lemma_list_in_order(s, r, init, as_mask, bound);
        per_node_cmds(s, r, init, as_mask).lemma_flatten_and_flatten_alt_are_equivalent();
        assert(parts.drop_last() =~= per_node_cmds(s, r, init, as_mask));
    }
}

/// For each mask of `ms`: begin the mask, then the calls that drawing its source as a
/// mask makes.
pub open spec fn per_mask_cmds(s: Map<u32, DrawableNode>, r: Map<u32, nat>, ms: Seq<Mask>) -> Seq<Seq<DrawCommand>> {
    Seq::new(ms.len(), |i: int| seq![DrawCommand::BeginMask(ms[i])] + node_cmds(s, r, ms[i].source.0, true))
}

/// A masked drawable draws its masks in the order of its mask list, each source as a mask,
/// between beginning the masks and beginning the masked content, then itself, then ends
/// the masks.
pub proof fn lemma_masks_in_order(s: Map<u32, DrawableNode>, r: Map<u32, nat>, id: u32, as_mask: bool)
    requires
        ranked(s, r),
        s.contains_key(id),
        s[id].masks is Some,
    ensures
        node_cmds(s, r, id, as_mask) == seq![DrawCommand::BeginMasks(InoxNodeUuid(id))] + per_mask_cmds(
            s,
            r,
            mask_seq(s[id]),
        ).flatten() + seq![DrawCommand::BeginMaskedContent] + (if s[id].composite {
            composite_cmds(s, r, id, as_mask)
        } else {
            seq![DrawCommand::DrawTexturedMesh { as_mask, id: InoxNodeUuid(id) }]
        }) + seq![DrawCommand::EndMask],
{
    let ms = mask_seq(s[id]);
    assert forall|i: int| 0 <= i < ms.len() implies s.contains_key(#[trigger] ms[i].source.0) && r.contains_key(
        ms[i].source.0,
    ) && r[ms[i].source.0] < r[id] by {
        assert(mask_seq(s[id])[i] == ms[i]);
    }
    lemma_mask_list_in_order(s, r, ms, r[id]);
}

proof fn lemma_mask_list_in_order(s: Map<u32, DrawableNode>, r: Map<u32, nat>, ms: Seq<Mask>, bound: nat)
    requires
        ranked(s, r),
        forall|i: int|
            0 <= i < ms.len() ==> s.contains_key(#[trigger] ms[i].source.0) && r.contains_key(ms[i].source.0)
                && r[ms[i].source.0] < bound,
    ensures
        masks_cmds(s, r, ms, bound) == per_mask_cmds(s, r, ms).flatten(),
    decreases ms.len(),
{
    let parts = per_mask_cmds(s, r, ms);
    parts.lemma_flatten_and_flatten_alt_are_equivalent();
    if ms.len() > 0 {
        let init = ms.drop_last();
        assert forall|i: int| 0 <= i < init.len() implies s.contains_key(#[trigger] init[i].source.0) && r.contains_key(
            init[i].source.0,
        ) && r[init[i].source.0] < bound by {
            assert(init[i] == ms[i]);
        }
        lemma_mask_list_in_order(s, r, init, bound);
        per_mask_cmds(s, r, init).lemma_flatten_and_flatten_alt_are_equivalent();
        assert(parts.drop_last() =~= per_mask_cmds(s, r, init));
        assert(parts.last() == seq![DrawCommand::BeginMask(ms.last())] + node_cmds(s, r, ms.last().source.0, true));
    }
}

} // verus!
