//! The node hierarchy of a puppet description: which members each kind of node needs, and
//! the tree of nodes with each node's uuid, name, type, parent and children.
//!
//! Numbers that stand for floating point values (positions, z values, colours) are only
//! checked to be numbers here; their values stay in the JSON data.

use vstd::prelude::*;

use super::json_data::{
    deserialize_puppet_meta, get, get_bool, get_object, get_str, get_u32, json_bool, json_object, json_str, json_u32,
    lookup, meta_complete, meta_matches, JsonData,
};
use crate::puppet::PuppetMeta;
use crate::nodes::node_data::{spec_blend_mode, BlendMode};
use crate::strings::str_eq;

verus! {

/// The value is a number.
pub open spec fn json_number(v: Option<JsonData>) -> bool {
    v matches Some(JsonData::Number(_))
}

/// The members of an array value; any other value has none.
pub open spec fn json_members(v: JsonData) -> Seq<JsonData> {
    match v {
        JsonData::Array(a) => a@,
        _ => Seq::empty(),
    }
}

/// The value is an array of exactly `n` numbers.
pub open spec fn json_numbers(v: Option<JsonData>, n: nat) -> bool {
    match v {
        Some(JsonData::Array(a)) => a@.len() == n && forall|i: int| 0 <= i < n ==> (#[trigger] a@[i]) is Number,
        _ => false,
    }
}

/// The value of a number that is a whole, non-negative number without exponent and fits
/// in a `usize`.
pub open spec fn json_usize(v: JsonData) -> Option<usize> {
    match v {
        JsonData::Number(n) => if n.positive && n.exponent == 0 && n.mantissa <= usize::MAX {
            Some(n.mantissa as usize)
        } else {
            None
        },
        _ => None,
    }
}

/// The value is present and has an even number of members (a value that is not an array
/// has none), so that its numbers pair up into two-dimensional vectors.
pub open spec fn json_pairs(v: Option<JsonData>) -> bool {
    v is Some && json_members(v.unwrap()).len() % 2 == 0
}

/// A transform: translation and rotation of three numbers, scale of two, and an optional
/// pixel-snapping flag.
pub open spec fn transform_valid(t: Seq<(String, JsonData)>) -> bool {
    &&& json_numbers(lookup(t, "trans"@), 3)
    &&& json_numbers(lookup(t, "rot"@), 3)
    &&& json_numbers(lookup(t, "scale"@), 2)
    &&& (lookup(t, "pixel_snap"@) is None || json_bool(lookup(t, "pixel_snap"@)) is Some)
}

/// What every drawable has: a known blend mode, a tint and a screen tint of three numbers,
/// a mask threshold and an opacity. Masks are optional, and a mask that cannot be read is
/// left out.
pub open spec fn drawable_valid(o: Seq<(String, JsonData)>) -> bool {
    &&& json_str(lookup(o, "blend_mode"@)) matches Some(s) && spec_blend_mode(s) is Some
    &&& json_numbers(lookup(o, "tint"@), 3)
    &&& json_numbers(lookup(o, "screenTint"@), 3)
    &&& json_number(lookup(o, "mask_threshold"@))
    &&& json_number(lookup(o, "opacity"@))
}

/// The texture list of a part: its first member, the albedo texture, is a texture index,
/// and so are the emissive and bump map textures that follow where present.
pub open spec fn textures_valid(v: Option<JsonData>) -> bool {
    &&& v is Some
    &&& json_members(v.unwrap()).len() >= 1
    &&& forall|i: int|
        0 <= i < 3 && i < json_members(v.unwrap()).len() ==> json_usize(#[trigger] json_members(v.unwrap())[i]) is Some
}

/// The mesh of a part: vertices and UVs as pairs of numbers, indices, and an origin of two
/// numbers.
pub open spec fn mesh_valid(m: Seq<(String, JsonData)>) -> bool {
    &&& json_pairs(lookup(m, "verts"@))
    &&& json_pairs(lookup(m, "uvs"@))
    &&& lookup(m, "indices"@) is Some
    &&& json_numbers(lookup(m, "origin"@), 2)
}

/// A part: its textures, what every drawable has, and its mesh under `mesh`.
pub open spec fn part_valid(o: Seq<(String, JsonData)>) -> bool {
    &&& textures_valid(lookup(o, "textures"@))
    &&& drawable_valid(o)
    &&& json_object(lookup(o, "mesh"@)) matches Some(m) && mesh_valid(m)
}

/// A simple physics node: its parameter, model type and map mode, five numbers and an
/// output scale of two numbers.
pub open spec fn physics_valid(o: Seq<(String, JsonData)>) -> bool {
    &&& json_u32(lookup(o, "param"@)) is Some
    &&& json_str(lookup(o, "model_type"@)) is Some
    &&& json_str(lookup(o, "map_mode"@)) is Some
    &&& json_number(lookup(o, "gravity"@))
    &&& json_number(lookup(o, "length"@))
    &&& json_number(lookup(o, "frequency"@))
    &&& json_number(lookup(o, "angle_damping"@))
    &&& json_number(lookup(o, "length_damping"@))
    &&& json_numbers(lookup(o, "output_scale"@), 2)
}

/// What a node of type `t` needs beyond what every node has; a type that the library does
/// not know needs nothing more.
pub open spec fn node_data_valid(t: Seq<char>, o: Seq<(String, JsonData)>) -> bool {
    if t == "Part"@ {
        part_valid(o)
    } else if t == "Composite"@ {
        drawable_valid(o)
    } else if t == "SimplePhysics"@ {
        physics_valid(o)
    } else {
        true
    }
}

/// What every node has: a type, a uuid, a name, an enabled flag, a z value, a transform
/// and a lock-to-root flag, and what its type needs.
pub open spec fn node_fields_valid(o: Seq<(String, JsonData)>) -> bool {
    &&& json_str(lookup(o, "type"@)) is Some
    &&& json_u32(lookup(o, "uuid"@)) is Some
    &&& json_str(lookup(o, "name"@)) is Some
    &&& json_bool(lookup(o, "enabled"@)) is Some
    &&& json_number(lookup(o, "zsort"@))
    &&& json_object(lookup(o, "transform"@)) matches Some(t) && transform_valid(t)
    &&& json_bool(lookup(o, "lockToRoot"@)) is Some
    &&& node_data_valid(json_str(lookup(o, "type"@)).unwrap(), o)
}

fn is_number(v: Option<&JsonData>) -> (r: bool)
    ensures
        r == json_number(match v {
            Some(x) => Some(*x),
            None => None,
        }),
{
    match v {
        Some(JsonData::Number(_)) => true,
        _ => false,
    }
}

fn are_numbers(v: Option<&JsonData>, n: usize) -> (r: bool)
    ensures
        r == json_numbers(
            match v {
                Some(x) => Some(*x),
                None => None,
            },
            n as nat,
        ),
{
    match v {
        Some(JsonData::Array(a)) => {
            if a.len() != n {
                return false;
            }
            let mut i: usize = 0;
            while i < n
                invariant
                    a@.len() == n,
                    v matches Some(y) && *y == JsonData::Array(*a),
                    i <= n,
                    forall|k: int| 0 <= k < i ==> (#[trigger] a@[k]) is Number,
                decreases n - i,
            {
                match &a[i] {
                    JsonData::Number(_) => {},
                    _ => {
                        assert(!(a@[i as int] is Number));
                        assert(!json_numbers(Some(JsonData::Array(*a)), n as nat));
                        return false;
                    },
                }
                i = i + 1;
            }
            true
        },
        _ => false,
    }
}

fn usize_of(v: &JsonData) -> (r: Option<usize>)
    ensures
        r == json_usize(*v),
{
    match v {
        JsonData::Number(n) => {
            if n.positive && n.exponent == 0 && n.mantissa as u128 <= usize::MAX as u128 {
                Some(n.mantissa as usize)
            } else {
                None
            }
        },
        _ => None,
    }
}

fn member_count(v: &JsonData) -> (r: usize)
    ensures
        r == json_members(*v).len(),
{
    match v {
        JsonData::Array(a) => a.len(),
        _ => 0,
    }
}

fn are_pairs(v: Option<&JsonData>) -> (r: bool)
    ensures
        r == json_pairs(match v {
            Some(x) => Some(*x),
            None => None,
        }),
{
    match v {
        Some(x) => member_count(x) % 2 == 0,
        None => false,
    }
}

fn transform_ok(t: &[(String, JsonData)]) -> (r: bool)
    ensures
        r == transform_valid(t@),
{
    let snap_ok = match get(t, "pixel_snap") {
        None => true,
        Some(_) => get_bool(t, "pixel_snap").is_some(),
    };
    are_numbers(get(t, "trans"), 3) && are_numbers(get(t, "rot"), 3) && are_numbers(get(t, "scale"), 2) && snap_ok
}

fn drawable_ok(o: &[(String, JsonData)]) -> (r: bool)
    ensures
        r == drawable_valid(o@),
{
    let blend_ok = match get_str(o, "blend_mode") {
        Some(s) => BlendMode::try_from(s).is_ok(),
        None => false,
    };
    blend_ok && are_numbers(get(o, "tint"), 3) && are_numbers(get(o, "screenTint"), 3) && is_number(
        get(o, "mask_threshold"),
    ) && is_number(get(o, "opacity"))
}

fn textures_ok(v: Option<&JsonData>) -> (r: bool)
    ensures
        r == textures_valid(match v {
            Some(x) => Some(*x),
            None => None,
        }),
{
    match v {
        None => false,
        Some(x) => {
            let n = member_count(x);
            if n < 1 {
                return false;
            }
            match x {
                JsonData::Array(a) => {
                    let mut i: usize = 0;
                    while i < 3 && i < n
                        invariant
                            n == a@.len(),
                            *x == JsonData::Array(*a),
                            v matches Some(y) && *y == *x,
                            i <= 3,
                            forall|k: int| 0 <= k < i && k < n ==> json_usize(#[trigger] a@[k]) is Some,
                        decreases 3 - i,
                    {
                        if usize_of(&a[i]).is_none() {
                            assert(json_members(*x) == a@);
                            assert(json_usize(json_members(*x)[i as int]) is None);
                            assert(!textures_valid(Some(*x)));
                            return false;
                        }
                        i = i + 1;
                    }
                    assert(json_members(*x) == a@);
                    true
                },
                _ => false,
            }
        },
    }
}

fn part_ok(o: &[(String, JsonData)]) -> (r: bool)
    ensures
        r == part_valid(o@),
{
    let mesh_ok = match get_object(o, "mesh") {
        Some(m) => are_pairs(get(m, "verts")) && are_pairs(get(m, "uvs")) && get(m, "indices").is_some()
            && are_numbers(get(m, "origin"), 2),
        None => false,
    };
    textures_ok(get(o, "textures")) && drawable_ok(o) && mesh_ok
}

fn physics_ok(o: &[(String, JsonData)]) -> (r: bool)
    ensures
        r == physics_valid(o@),
{
    get_u32(o, "param").is_some() && get_str(o, "model_type").is_some() && get_str(o, "map_mode").is_some()
        && is_number(get(o, "gravity")) && is_number(get(o, "length")) && is_number(get(o, "frequency"))
        && is_number(get(o, "angle_damping")) && is_number(get(o, "length_damping")) && are_numbers(
        get(o, "output_scale"),
        2,
    )
}

/// A node of a puppet's tree: its uuid, name and type, the position of its parent in the
/// tree's list of nodes (none for the root), and the positions of its children, in the
/// order the description lists them.
#[derive(Debug)]
pub struct TreeNode {
    pub uuid: u32,
    pub name: String,
    pub node_type: String,
    pub parent: Option<usize>,
    pub children: Vec<usize>,
}

/// A node of the tree as plain values.
pub struct TreeNodeView {
    pub uuid: u32,
    pub name: Seq<char>,
    pub node_type: Seq<char>,
    pub parent: Option<int>,
    pub children: Seq<int>,
}

/// A position, or none.
pub open spec fn opt_pos(p: Option<usize>) -> Option<int> {
    match p {
        Some(i) => Some(i as int),
        None => None,
    }
}

impl View for TreeNode {
    type V = TreeNodeView;

    open spec fn view(&self) -> TreeNodeView {
        TreeNodeView {
            uuid: self.uuid,
            name: self.name@,
            node_type: self.node_type@,
            parent: opt_pos(self.parent),
            children: self.children@.map_values(|c: usize| c as int),
        }
    }
}

/// The nodes of a puppet, the root first and every node before its descendants, each
/// subtree in the order the description lists it.
#[derive(Debug)]
pub struct NodeTree {
    pub nodes: Vec<TreeNode>,
}

/// The views of `nodes`.
pub open spec fn tree_view(nodes: Seq<TreeNode>) -> Seq<TreeNodeView> {
    nodes.map_values(|n: TreeNode| n@)
}

impl View for NodeTree {
    type V = Seq<TreeNodeView>;

    open spec fn view(&self) -> Seq<TreeNodeView> {
        tree_view(self.nodes@)
    }
}

/// The value that `lookup` finds is the value of one of the object's members.
pub proof fn lemma_lookup_in(obj: Seq<(String, JsonData)>, key: Seq<char>)
    ensures
        lookup(obj, key) matches Some(v) ==> exists|k: int| 0 <= k < obj.len() && obj[k].1 == v,
    decreases obj.len(),
{
    if obj.len() > 0 {
        if obj[0].0@ != key {
            lemma_lookup_in(obj.drop_first(), key);
            if let Some(v) = lookup(obj, key) {
                let k = choose|k: int| 0 <= k < obj.drop_first().len() && obj.drop_first()[k].1 == v;
                assert(obj[k + 1].1 == v);
            }
        }
    }
}

/// The nodes of the subtree that the node object `o` describes, in the order of the tree's
/// list, when its parent stands at `parent` and the subtree starts at position `base`;
/// `None` where a node of it lacks a member it needs, or a child is not an object.
pub open spec fn spec_subtree(o: Seq<(String, JsonData)>, parent: Option<int>, base: int) -> Option<
    Seq<TreeNodeView>,
>
    decreases o, 0int,
{
    if !node_fields_valid(o) {
        None
    } else {
        match lookup(o, "children"@) {
            None => None,
            Some(c) => {
                let kids = match c {
                    JsonData::Array(a) => {
                        proof {
                            lemma_lookup_in(o, "children"@);
                            let k = choose|k: int| 0 <= k < o.len() && o[k].1 == c;
                            assert(decreases_to!(o => o[k]));
                            assert(decreases_to!(o[k] => o[k].1));
                            assert(decreases_to!(c => a));
                            assert(decreases_to!(a => a@));
                        }
                        spec_children(a@, 0, base, base + 1)
                    },
                    _ => Some((Seq::empty(), Seq::empty())),
                };
                match kids {
                    None => None,
                    Some((rest, positions)) => Some(
                        seq![
                            TreeNodeView {
                                uuid: json_u32(lookup(o, "uuid"@)).unwrap(),
                                name: json_str(lookup(o, "name"@)).unwrap(),
                                node_type: json_str(lookup(o, "type"@)).unwrap(),
                                parent,
                                children: positions,
                            },
                        ] + rest,
                    ),
                }
            },
        }
    }
}

/// The subtrees of the children `ms[i..]` of the node at `parent`, one after the other from
/// position `next` on, and the positions where they start.
pub open spec fn spec_children(ms: Seq<JsonData>, i: int, parent: int, next: int) -> Option<
    (Seq<TreeNodeView>, Seq<int>),
>
    decreases ms, ms.len() - i,
{
    if i < 0 || i >= ms.len() {
        Some((Seq::empty(), Seq::empty()))
    } else {
        match ms[i] {
            JsonData::Object(co) => {
                proof {
                    assert(decreases_to!(ms => ms[i]));
                    assert(decreases_to!(co => co@));
                }
                match spec_subtree(co@, Some(parent), next) {
                    None => None,
                    Some(sub) => match spec_children(ms, i + 1, parent, next + sub.len()) {
                        None => None,
                        Some((rest, positions)) => Some((sub + rest, seq![next] + positions)),
                    },
                }
            },
            _ => None,
        }
    }
}

/// The tree that the root node object `obj` describes.
pub open spec fn spec_node_tree(obj: Seq<(String, JsonData)>) -> Option<Seq<TreeNodeView>> {
    spec_subtree(obj, None, 0)
}

fn read_node_fields(o: &[(String, JsonData)]) -> (r: Option<(u32, String, String)>)
    ensures
        r is Some <==> node_fields_valid(o@),
        r matches Some((u, n, t)) ==> Some(u) == json_u32(lookup(o@, "uuid"@)) && Some(n@) == json_str(
            lookup(o@, "name"@),
        ) && Some(t@) == json_str(lookup(o@, "type"@)),
{
    let t = get_str(o, "type")?;
    let uuid = get_u32(o, "uuid")?;
    let name = get_str(o, "name")?;
    if get_bool(o, "enabled").is_none() || !is_number(get(o, "zsort")) || get_bool(o, "lockToRoot").is_none() {
        return None;
    }
    let transform = get_object(o, "transform")?;
    if !transform_ok(transform) {
        return None;
    }
    let data_ok = if str_eq(t, "Part") {
        part_ok(o)
    } else if str_eq(t, "Composite") {
        drawable_ok(o)
    } else if str_eq(t, "SimplePhysics") {
        physics_ok(o)
    } else {
        true
    };
    if !data_ok {
        return None;
    }
    Some((uuid, name.to_owned(), t.to_owned()))
}

fn read_subtree(o: &[(String, JsonData)], parent: Option<usize>, nodes: &mut Vec<TreeNode>) -> (ok: bool)
    ensures
        match spec_subtree(o@, opt_pos(parent), old(nodes)@.len() as int) {
            None => !ok,
            Some(sub) => ok && tree_view(final(nodes)@) == tree_view(old(nodes)@) + sub,
        },
    decreases o@, 0int,
{
    let (uuid, name, node_type) = match read_node_fields(o) {
        Some(f) => f,
        None => return false,
    };
    let children = match get(o, "children") {
        Some(c) => c,
        None => return false,
    };
    let base = nodes.len();
    let ghost before = tree_view(nodes@);
    nodes.push(TreeNode { uuid, name: String::new(), node_type: String::new(), parent, children: Vec::new() });
    let mut positions: Vec<usize> = Vec::new();
    match children {
        JsonData::Array(a) => {
            let ghost ms = a@;
            let ghost total = spec_children(ms, 0, base as int, base + 1);
            proof {
                lemma_lookup_in(o@, "children"@);
            }
            let mut i: usize = 0;
            while i < a.len()
                invariant
                    ms == a@,
                    i <= a@.len(),
                    *children == JsonData::Array(*a),
                    lookup(o@, "children"@) == Some(*children),
                    exists|k: int| 0 <= k < o@.len() && o@[k].1 == *children,
                    nodes@.len() >= base + 1,
                    base == old(nodes)@.len(),
                    tree_view(nodes@).take(base as int) == before,
                    before.len() == base,
                    total == spec_children(ms, 0, base as int, base + 1),
                    match total {
                        None => spec_children(ms, i as int, base as int, nodes@.len() as int) is None,
                        Some((all, all_positions)) => match spec_children(ms, i as int, base as int, nodes@.len() as int) {
                            None => false,
                            Some((rest, later)) => all == tree_view(nodes@).skip(base + 1) + rest && all_positions
                                == positions@.map_values(|c: usize| c as int) + later,
                        },
                    },
                decreases a@.len() - i,
            {
                let ghost next = nodes@.len() as int;
                let ghost cur = spec_children(ms, i as int, base as int, next);
                let ghost nodes_before = tree_view(nodes@);
                match &a[i] {
                    JsonData::Object(co) => {
                        proof {
                            let k = choose|k: int| 0 <= k < o@.len() && o@[k].1 == *children;
                            assert(decreases_to!(o@ => o@[k]));
                            assert(decreases_to!(o@[k] => o@[k].1));
                            assert(decreases_to!(*children => *a));
                            assert(decreases_to!(*a => a@));
                            assert(decreases_to!(a@ => a@[i as int]));
                            assert(decreases_to!(*co => co@));
                        }
                        let start = nodes.len();
                        if !read_subtree(co.as_slice(), Some(base), nodes) {
                            proof {
                                assert(ms[i as int] == JsonData::Object(*co));
                                assert(cur is None);
                                assert(total is None);
                                assert(spec_subtree(o@, opt_pos(parent), base as int) is None);
                            }
                            return false;
                        }
                        proof {
                            let sub = spec_subtree(co@, Some(base as int), next).unwrap();
                            assert(tree_view(nodes@) == nodes_before + sub);
                            assert(tree_view(nodes@).take(base as int) =~= before) by {
                                assert(nodes_before.take(base as int) == before);
                            }
                            assert(tree_view(nodes@).skip(base + 1) =~= nodes_before.skip(base + 1) + sub);
                            if let Some((all, all_positions)) = total {
                                let (rest, later) = cur.unwrap();
                                let (rest2, later2) = spec_children(ms, i + 1, base as int, next + sub.len()).unwrap();
                                assert(rest == sub + rest2);
                                assert(later == seq![next] + later2);
                                assert(all == tree_view(nodes@).skip(base + 1) + rest2);
                                assert(positions@.map_values(|c: usize| c as int).push(start as int) + later2
                                    =~= positions@.map_values(|c: usize| c as int) + later);
                            }
                        }
                        proof {
                            let old_positions = positions@;
                            assert(old_positions.push(start).map_values(|c: usize| c as int) =~= old_positions.map_values(
                                |c: usize| c as int,
                            ).push(start as int));
                        }
                        positions.push(start);
                    },
                    _ => {
                        proof {
                            assert(!(ms[i as int] is Object));
                            assert(cur is None);
                            assert(total is None);
                            assert(spec_subtree(o@, opt_pos(parent), base as int) is None);
                        }
                        return false;
                    },
                }
                i = i + 1;
            }
            proof {
                if let Some((all, all_positions)) = total {
                    assert(all =~= tree_view(nodes@).skip(base + 1));
                    assert(all_positions =~= positions@.map_values(|c: usize| c as int));
                }
            }
        },
        _ => {},
    }
    let ghost kids = match children {
        JsonData::Array(a) => spec_children(a@, 0, base as int, base + 1),
        _ => Some((Seq::<TreeNodeView>::empty(), Seq::<int>::empty())),
    };
    proof {
        if !(*children is Array) {
            assert(tree_view(nodes@).skip(base + 1) =~= Seq::<TreeNodeView>::empty());
            assert(positions@.map_values(|c: usize| c as int) =~= Seq::<int>::empty());
        }
    }
    let ghost mid = tree_view(nodes@);
    nodes.set(base, TreeNode { uuid, name, node_type, parent, children: positions });
    proof {
        let (all, _) = kids.unwrap();
        assert(mid.take(base as int) == before);
        assert(mid.skip(base + 1) == all);
        assert(tree_view(nodes@) =~= before + seq![nodes@[base as int]@] + all);
    }
    true
}

/// Within the stretch `s` of a tree's list of nodes that starts at position `base`: each
/// node's parent is `outer` or comes before it in the stretch; each child that a node
/// lists comes after it in the stretch and names it as its parent; and each node whose
/// parent is in the stretch is among that parent's children.
pub open spec fn stretch_linked(s: Seq<TreeNodeView>, base: int, outer: Option<int>) -> bool {
    &&& forall|j: int|
        0 <= j < s.len() ==> (#[trigger] s[j]).parent == outer || (s[j].parent matches Some(p) && base <= p < base
            + j)
    &&& forall|i: int, k: int|
        0 <= i < s.len() && 0 <= k < s[i].children.len() ==> base + i < #[trigger] s[i].children[k] < base + s.len()
            && s[s[i].children[k] - base].parent == Some(base + i)
    &&& forall|j: int|
        0 <= j < s.len() && (#[trigger] s[j]).parent is Some && base <= s[j].parent.unwrap() < base + s.len()
            ==> s[s[j].parent.unwrap() - base].children.contains(base + j)
}

/// The list of nodes is a tree: the first node is the root and has no parent, every other
/// node has a parent before it, and parents and children name each other.
pub open spec fn tree_linked(t: Seq<TreeNodeView>) -> bool {
    &&& t.len() >= 1
    &&& t[0].parent is None
    &&& forall|j: int| 1 <= j < t.len() ==> (#[trigger] t[j]).parent is Some
    &&& stretch_linked(t, 0, None)
}

/// What the children of a node at `parent` give, when they start at position `next`:
/// their stretch is linked, `pos` lists exactly those of its nodes whose parent is `parent`.
pub open spec fn children_linked(rest: Seq<TreeNodeView>, pos: Seq<int>, parent: int, next: int) -> bool {
    &&& stretch_linked(rest, next, Some(parent))
    &&& forall|m: int|
        0 <= m < pos.len() ==> next <= #[trigger] pos[m] < next + rest.len() && rest[pos[m] - next].parent == Some(
            parent,
        )
    &&& forall|j: int| 0 <= j < rest.len() && (#[trigger] rest[j]).parent == Some(parent) ==> pos.contains(next + j)
}

/// What a subtree at position `base`, whose root's parent is `parent`, gives.
pub open spec fn subtree_linked(sub: Seq<TreeNodeView>, parent: Option<int>, base: int) -> bool {
    &&& sub.len() >= 1
    &&& sub[0].parent == parent
    &&& forall|j: int| 1 <= j < sub.len() ==> (#[trigger] sub[j]).parent is Some && base <= sub[j].parent.unwrap() < base + j
    &&& stretch_linked(sub, base, parent)
}

proof fn lemma_prepend_parents(node: TreeNodeView, rest: Seq<TreeNodeView>, parent: Option<int>, base: int)
    requires
        parent matches Some(q) ==> q < base,
        node.parent == parent,
        stretch_linked(rest, base + 1, Some(base)),
    ensures
        forall|j: int|
            1 <= j < (seq![node] + rest).len() ==> (#[trigger] (seq![node] + rest)[j]).parent is Some && base <= (seq![
                node,
            ] + rest)[j].parent.unwrap() < base + j,
        forall|j: int|
            0 <= j < (seq![node] + rest).len() ==> (#[trigger] (seq![node] + rest)[j]).parent == parent || ((seq![node]
                + rest)[j].parent matches Some(p) && base <= p < base + j),
{
    let sub = seq![node] + rest;
    assert forall|j: int| 1 <= j < sub.len() implies (#[trigger] sub[j]).parent is Some && base
        <= sub[j].parent.unwrap() < base + j by {
        assert(sub[j] == rest[j - 1]);
    }
    assert forall|j: int| 0 <= j < sub.len() implies (#[trigger] sub[j]).parent == parent || (sub[j].parent matches Some(
        p,
    ) && base <= p < base + j) by {
        if j > 0 {
            assert(sub[j] == rest[j - 1]);
        }
    }
}

proof fn lemma_prepend_children(node: TreeNodeView, rest: Seq<TreeNodeView>, base: int)
    requires
        children_linked(rest, node.children, base, base + 1),
    ensures
        forall|i: int, k: int|
            0 <= i < (seq![node] + rest).len() && 0 <= k < (seq![node] + rest)[i].children.len() ==> base + i
                < #[trigger] (seq![node] + rest)[i].children[k] < base + (seq![node] + rest).len() && (seq![node]
                + rest)[(seq![node] + rest)[i].children[k] - base].parent == Some(base + i),
{
    let sub = seq![node] + rest;
    let next = base + 1;
    let pos = node.children;
    assert forall|i: int, k: int| 0 <= i < sub.len() && 0 <= k < sub[i].children.len() implies base + i
        < #[trigger] sub[i].children[k] < base + sub.len() && sub[sub[i].children[k] - base].parent == Some(base + i) by {
        if i == 0 {
            assert(sub[0] == node);
            let q = pos[k];
            assert(sub[q - base] == rest[q - next]);
        } else {
            assert(sub[i] == rest[i - 1]);
            let q = rest[i - 1].children[k];
            assert(sub[q - base] == rest[q - next]);
        }
    }
}

proof fn lemma_prepend_listed(node: TreeNodeView, rest: Seq<TreeNodeView>, parent: Option<int>, base: int)
    requires
        parent matches Some(q) ==> q < base,
        node.parent == parent,
        children_linked(rest, node.children, base, base + 1),
    ensures
        forall|j: int|
            0 <= j < (seq![node] + rest).len() && (#[trigger] (seq![node] + rest)[j]).parent is Some && base <= (seq![
                node,
            ] + rest)[j].parent.unwrap() < base + (seq![node] + rest).len() ==> (seq![node] + rest)[(seq![node]
                + rest)[j].parent.unwrap() - base].children.contains(base + j),
{
    let sub = seq![node] + rest;
    let next = base + 1;
    assert forall|j: int| 0 <= j < sub.len() && (#[trigger] sub[j]).parent is Some && base <= sub[j].parent.unwrap()
        < base + sub.len() implies sub[sub[j].parent.unwrap() - base].children.contains(base + j) by {
        let p = sub[j].parent.unwrap();
        if j > 0 {
            assert(sub[j] == rest[j - 1]);
            if p > base {
                assert(sub[p - base] == rest[p - next]);
            } else {
                assert(sub[0] == node);
            }
        }
    }
}

proof fn lemma_prepend_root(node: TreeNodeView, rest: Seq<TreeNodeView>, parent: Option<int>, base: int)
    requires
        parent matches Some(q) ==> q < base,
        node.parent == parent,
        children_linked(rest, node.children, base, base + 1),
    ensures
        subtree_linked(seq![node] + rest, parent, base),
{
    lemma_prepend_parents(node, rest, parent, base);
    lemma_prepend_children(node, rest, base);
    lemma_prepend_listed(node, rest, parent, base);
    assert((seq![node] + rest)[0] == node);
}

proof fn lemma_append_sibling(
    sub: Seq<TreeNodeView>,
    rest2: Seq<TreeNodeView>,
    pos2: Seq<int>,
    parent: int,
    next: int,
)
    requires
        parent < next,
        subtree_linked(sub, Some(parent), next),
        children_linked(rest2, pos2, parent, next + sub.len()),
    ensures
        children_linked(sub + rest2, seq![next] + pos2, parent, next),
{
    let rest = sub + rest2;
    let pos = seq![next] + pos2;
    let l = sub.len() as int;
    assert forall|j: int| 0 <= j < rest.len() implies (#[trigger] rest[j]).parent == Some(parent) || (
    rest[j].parent matches Some(p) && next <= p < next + j) by {
        if j < l {
            assert(rest[j] == sub[j]);
        } else {
            assert(rest[j] == rest2[j - l]);
        }
    }
    assert forall|a: int, k: int| 0 <= a < rest.len() && 0 <= k < rest[a].children.len() implies next + a
        < #[trigger] rest[a].children[k] < next + rest.len() && rest[rest[a].children[k] - next].parent == Some(next + a) by {
        if a < l {
            assert(rest[a] == sub[a]);
            let q = sub[a].children[k];
            assert(rest[q - next] == sub[q - next]);
        } else {
            assert(rest[a] == rest2[a - l]);
            let q = rest2[a - l].children[k];
            assert(rest[q - next] == rest2[q - next - l]);
        }
    }
    assert forall|j: int| 0 <= j < rest.len() && (#[trigger] rest[j]).parent is Some && next <= rest[j].parent.unwrap()
        < next + rest.len() implies rest[rest[j].parent.unwrap() - next].children.contains(next + j) by {
        let p = rest[j].parent.unwrap();
        if j < l {
            assert(rest[j] == sub[j]);
            assert(rest[p - next] == sub[p - next]);
        } else {
            assert(rest[j] == rest2[j - l]);
            assert(rest[p - next] == rest2[p - next - l]);
        }
    }
    assert forall|m: int| 0 <= m < pos.len() implies next <= #[trigger] pos[m] < next + rest.len() && rest[pos[m]
        - next].parent == Some(parent) by {
        if m == 0 {
            assert(rest[0] == sub[0]);
        } else {
            assert(pos[m] == pos2[m - 1]);
            assert(rest[pos2[m - 1] - next] == rest2[pos2[m - 1] - next - l]);
        }
    }
    assert forall|j: int| 0 <= j < rest.len() && (#[trigger] rest[j]).parent == Some(parent) implies pos.contains(
        next + j,
    ) by {
        if j == 0 {
            assert(pos[0] == next);
        } else if j < l {
            assert(rest[j] == sub[j]);
        } else {
            assert(rest[j] == rest2[j - l]);
            let m = choose|m: int| 0 <= m < pos2.len() && pos2[m] == next + l + (j - l);
            assert(pos[m + 1] == pos2[m]);
        }
    }
}

proof fn lemma_subtree_linked(o: Seq<(String, JsonData)>, parent: Option<int>, base: int)
    requires
        parent matches Some(q) ==> q < base,
    ensures
        spec_subtree(o, parent, base) matches Some(sub) ==> subtree_linked(sub, parent, base),
    decreases o, 0int,
{
    if let Some(sub) = spec_subtree(o, parent, base) {
        let c = lookup(o, "children"@).unwrap();
        let (rest, pos) = match c {
            JsonData::Array(a) => {
                lemma_lookup_in(o, "children"@);
                let k = choose|k: int| 0 <= k < o.len() && o[k].1 == c;
                assert(decreases_to!(o => o[k]));
                assert(decreases_to!(o[k] => o[k].1));
                assert(decreases_to!(c => a));
                assert(decreases_to!(a => a@));
                lemma_children_linked(a@, 0, base, base + 1);
                spec_children(a@, 0, base, base + 1).unwrap()
            },
            _ => (Seq::<TreeNodeView>::empty(), Seq::<int>::empty()),
        };
        assert(sub == seq![sub[0]] + rest);
        lemma_prepend_root(sub[0], rest, parent, base);
    }
}

proof fn lemma_children_linked(ms: Seq<JsonData>, i: int, parent: int, next: int)
    requires
        parent < next,
    ensures
        spec_children(ms, i, parent, next) matches Some((rest, pos)) ==> children_linked(rest, pos, parent, next),
    decreases ms, ms.len() - i,
{
    if 0 <= i < ms.len() {
        if let JsonData::Object(co) = ms[i] {
            assert(decreases_to!(ms => ms[i]));
            assert(decreases_to!(co => co@));
            lemma_subtree_linked(co@, Some(parent), next);
            if let Some(sub) = spec_subtree(co@, Some(parent), next) {
                let l = sub.len() as int;
                lemma_children_linked(ms, i + 1, parent, next + l);
                if let Some((rest2, pos2)) = spec_children(ms, i + 1, parent, next + l) {
                    lemma_append_sibling(sub, rest2, pos2, parent, next);
                }
            }
        }
    }
}

/// The node tree that a description gives is a tree: the root comes first without a
/// parent, every other node has a parent before it, each child a node lists names it as
/// parent, and each node is among its parent's children.
pub proof fn lemma_node_tree_linked(obj: Seq<(String, JsonData)>)
    ensures
        spec_node_tree(obj) matches Some(t) ==> tree_linked(t),
{
    lemma_subtree_linked(obj, None, 0);
}

/// The first node of a tree is the root object itself: its uuid, name and type are the
/// root object's members of those names, it has no parent, and it has one child for each
/// member of its `children` array. A tree is only read from a root that has every member
/// a node needs.
pub proof fn lemma_node_tree_root(obj: Seq<(String, JsonData)>)
    ensures
        spec_node_tree(obj) matches Some(t) ==> {
            &&& node_fields_valid(obj)
            &&& t.len() >= 1
            &&& json_u32(lookup(obj, "uuid"@)) == Some(t[0].uuid)
            &&& json_str(lookup(obj, "name"@)) == Some(t[0].name)
            &&& json_str(lookup(obj, "type"@)) == Some(t[0].node_type)
            &&& t[0].parent is None
            &&& lookup(obj, "children"@) matches Some(c) && t[0].children.len() == json_members(c).len()
        },
{
    if let Some(t) = spec_node_tree(obj) {
        let c = lookup(obj, "children"@).unwrap();
        if let JsonData::Array(a) = c {
            lemma_children_count(a@, 0, 0, 1);
        }
    }
}

proof fn lemma_children_count(ms: Seq<JsonData>, i: int, parent: int, next: int)
    requires
        0 <= i <= ms.len(),
    ensures
        spec_children(ms, i, parent, next) matches Some((rest, pos)) ==> pos.len() == ms.len() - i,
    decreases ms.len() - i,
{
    if i < ms.len() {
        if let JsonData::Object(co) = ms[i] {
            if let Some(sub) = spec_subtree(co@, Some(parent), next) {
                lemma_children_count(ms, i + 1, parent, next + sub.len());
            }
        }
    }
}

/// Reads the node tree of a puppet from its root node object (the `nodes` member of its
/// description). Every node needs the members that `node_fields_valid` lists and a
/// `children` member, whose members, where it is an array, are the node's children, each
/// a node object. `None` where any node falls short.
pub fn deserialize_node_tree(obj: &[(String, JsonData)]) -> (r: Option<NodeTree>)
    ensures
        r is Some <==> spec_node_tree(obj@) is Some,
        r matches Some(t) ==> t@ == spec_node_tree(obj@).unwrap(),
{
    let mut nodes: Vec<TreeNode> = Vec::new();
    let ok = read_subtree(obj, None, &mut nodes);
    if ok {
        assert(tree_view(Seq::<TreeNode>::empty()) =~= Seq::<TreeNodeView>::empty());
        Some(NodeTree { nodes })
    } else {
        None
    }
}

/// Whether a puppet description is complete: an object with meta information, physics
/// settings (pixels per meter and gravity, numbers), a node tree and parameters.
pub open spec fn puppet_complete(puppet: JsonData) -> bool {
    match puppet {
        JsonData::Object(o) => {
            &&& json_object(lookup(o@, "meta"@)) matches Some(m) && meta_complete(m)
            &&& json_object(lookup(o@, "physics"@)) matches Some(p) && json_number(lookup(p, "pixelsPerMeter"@))
                && json_number(lookup(p, "gravity"@))
            &&& json_object(lookup(o@, "nodes"@)) matches Some(n) && spec_node_tree(n) is Some
            &&& lookup(o@, "param"@) is Some
        },
        _ => false,
    }
}

/// The meta object of a complete puppet description.
pub open spec fn puppet_meta_object(puppet: JsonData) -> Seq<(String, JsonData)> {
    match puppet {
        JsonData::Object(o) => json_object(lookup(o@, "meta"@)).unwrap(),
        _ => Seq::empty(),
    }
}

/// The node tree of a complete puppet description.
pub open spec fn puppet_nodes(puppet: JsonData) -> Seq<TreeNodeView> {
    match puppet {
        JsonData::Object(o) => spec_node_tree(json_object(lookup(o@, "nodes"@)).unwrap()).unwrap(),
        _ => Seq::empty(),
    }
}

/// What the library reads of a puppet description: its meta information and its nodes.
#[derive(Debug)]
pub struct PuppetDescription {
    pub meta: PuppetMeta,
    pub nodes: NodeTree,
}

/// Reads a puppet description: its meta information and node tree, once it has checked
/// the physics settings and that there are parameters.
pub fn deserialize_puppet(puppet: &JsonData) -> (r: Option<PuppetDescription>)
    ensures
        r is Some <==> puppet_complete(*puppet),
        r matches Some(d) ==> meta_matches(d.meta, puppet_meta_object(*puppet)) && d.nodes@ == puppet_nodes(*puppet),
{
    let o = match puppet {
        JsonData::Object(o) => o.as_slice(),
        _ => return None,
    };
    let meta = deserialize_puppet_meta(get_object(o, "meta")?)?;
    let physics = get_object(o, "physics")?;
    if !is_number(get(physics, "pixelsPerMeter")) || !is_number(get(physics, "gravity")) {
        return None;
    }
    let nodes = deserialize_node_tree(get_object(o, "nodes")?)?;
    if get(o, "param").is_none() {
        return None;
    }
    Some(PuppetDescription { meta, nodes })
}

} // verus!
