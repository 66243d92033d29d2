//! Which composite draws a drawable: the nearest composite among its ancestors. A drawable
//! without one is a root drawable, drawn by the puppet itself.

use vstd::prelude::*;
use std::collections::{HashMap, HashSet};

verus! {

broadcast use vstd::std_specs::hash::group_hash_axioms;

/// `depth` ranks the nodes of a tree given by `parents` (child to parent): every ranked
/// node other than `root` has a parent, which is ranked lower.
pub open spec fn depth_ranked(parents: Map<u32, u32>, root: u32, depth: Map<u32, nat>) -> bool {
    forall|k: u32|
        #[trigger] depth.contains_key(k) && k != root ==> parents.contains_key(k) && depth.contains_key(parents[k])
            && depth[parents[k]] < depth[k]
}

/// Walking up from `node` towards `root` ends: `node` is ranked by some ranking.
pub open spec fn reaches_root(parents: Map<u32, u32>, root: u32, node: u32) -> bool {
    exists|depth: Map<u32, nat>| depth_ranked(parents, root, depth) && depth.contains_key(node)
}

/// A ranking under which `node` is ranked, where there is one.
pub open spec fn some_depth(parents: Map<u32, u32>, root: u32, node: u32) -> Map<u32, nat> {
    choose|depth: Map<u32, nat>| depth_ranked(parents, root, depth) && depth.contains_key(node)
}

/// The nearest ancestor of `node` that is a composite, walking up to `root`.
pub open spec fn nearest_composite_spec(
    parents: Map<u32, u32>,
    composites: Set<u32>,
    root: u32,
    node: u32,
    depth: Map<u32, nat>,
) -> Option<u32>
    decreases depth[node],
    when depth_ranked(parents, root, depth) && depth.contains_key(node)
{
    if node == root {
        None
    } else {
        let parent = parents[node];
        if composites.contains(parent) {
            Some(parent)
        } else {
            nearest_composite_spec(parents, composites, root, parent, depth)
        }
    }
}

/// The nearest composite of a node does not depend on the ranking that shows that walking
/// up ends, and when there is one it is a composite.
pub proof fn lemma_nearest_any_depth(
    parents: Map<u32, u32>,
    composites: Set<u32>,
    root: u32,
    node: u32,
    d1: Map<u32, nat>,
    d2: Map<u32, nat>,
)
    requires
        depth_ranked(parents, root, d1),
        d1.contains_key(node),
        depth_ranked(parents, root, d2),
        d2.contains_key(node),
    ensures
        nearest_composite_spec(parents, composites, root, node, d1) == nearest_composite_spec(
            parents,
            composites,
            root,
            node,
            d2,
        ),
        nearest_composite_spec(parents, composites, root, node, d1) matches Some(c) ==> composites.contains(c),
    decreases d1[node],
{
    if node != root {
        let parent = parents[node];
        if !composites.contains(parent) {
            lemma_nearest_any_depth(parents, composites, root, parent, d1, d2);
        }
    }
}

/// The nearest composite ancestor of `node`, walking up to `root`; `None` where there is
/// none below the root.
pub fn nearest_composite(parents: &HashMap<u32, u32>, composites: &HashSet<u32>, root: u32, node: u32) -> (r:
    Option<u32>)
    requires
        reaches_root(parents@, root, node),
    ensures
        r == nearest_composite_spec(parents@, composites@, root, node, some_depth(parents@, root, node)),
{
    let ghost depth = some_depth(parents@, root, node);
    let mut current = node;
    while current != root
        invariant
            depth == some_depth(parents@, root, node),
            depth_ranked(parents@, root, depth),
            depth.contains_key(current),
            nearest_composite_spec(parents@, composites@, root, node, depth) == nearest_composite_spec(
                parents@,
                composites@,
                root,
                current,
                depth,
            ),
        decreases depth[current],
    {
        let parent = *parents.get(&current).unwrap();
        assert(parent == parents@[current]);
        if composites.contains(&parent) {
            assert(composites@.contains(parent));
            assert(nearest_composite_spec(parents@, composites@, root, current, depth) == Some(parent));
            return Some(parent);
        }
        current = parent;
    }
    None
}

/// For each drawable of `order`, the nearest composite that draws it, or `None` for a root
/// drawable.
pub fn nest_drawables(parents: &HashMap<u32, u32>, composites: &HashSet<u32>, root: u32, order: &[u32]) -> (r: Vec<
    Option<u32>,
>)
    requires
        forall|i: int| 0 <= i < order@.len() ==> reaches_root(parents@, root, #[trigger] order@[i]),
    ensures
        r@.len() == order@.len(),
        forall|i: int|
            0 <= i < order@.len() ==> #[trigger] r@[i] == nearest_composite_spec(
                parents@,
                composites@,
                root,
                order@[i],
                some_depth(parents@, root, order@[i]),
            ),
{
    let mut r: Vec<Option<u32>> = Vec::new();
    let mut i: usize = 0;
    while i < order.len()
        invariant
            i <= order@.len(),
            r@.len() == i,
            forall|j: int| 0 <= j < order@.len() ==> reaches_root(parents@, root, #[trigger] order@[j]),
            forall|j: int|
                0 <= j < i ==> #[trigger] r@[j] == nearest_composite_spec(
                    parents@,
                    composites@,
                    root,
                    order@[j],
                    some_depth(parents@, root, order@[j]),
                ),
        decreases order@.len() - i,
    {
        let c = nearest_composite(parents, composites, root, order[i]);
        r.push(c);
        i = i + 1;
    }
    r
}

} // verus!
