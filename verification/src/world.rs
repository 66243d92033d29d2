//! Storage of one kind of component for the nodes of a puppet.

use vstd::prelude::*;
use std::collections::HashMap;

use crate::nodes::node::InoxNodeUuid;

verus! {

broadcast use vstd::std_specs::hash::group_hash_axioms;

/// The components of one type that the nodes of a puppet own: at most one per node.
/// Each node is mapped to the index of its component in a dense vector.
pub struct ComponentColumn<T> {
    owners: HashMap<u32, usize>,
    values: Vec<T>,
}

impl<T> View for ComponentColumn<T> {
    type V = Map<u32, T>;

    /// The component of each node that has one, by the node's UUID.
    closed spec fn view(&self) -> Map<u32, T> {
        Map::new(|k: u32| self.owners@.contains_key(k), |k: u32| self.values@[self.owners@[k] as int])
    }
}

/// The components after adding `v` for node `k`: a node keeps the first one it was given.
pub open spec fn added<T>(m: Map<u32, T>, k: u32, v: T) -> Map<u32, T> {
    if m.contains_key(k) {
        m
    } else {
        m.insert(k, v)
    }
}

/// Adding two components of one type to a node keeps the first: the node then has the
/// first one, and every other node keeps what it had.
pub proof fn lemma_first_component_kept<T>(m: Map<u32, T>, k: u32, v1: T, v2: T)
    requires
        !m.contains_key(k),
    ensures
        added(added(m, k, v1), k, v2) == m.insert(k, v1),
        added(added(m, k, v1), k, v2)[k] == v1,
{
}

impl<T> ComponentColumn<T> {
    /// Every owner points into the vector, and no two owners share a component.
    pub closed spec fn well_formed(&self) -> bool {
        &&& forall|k: u32| #[trigger] self.owners@.contains_key(k) ==> self.owners@[k] < self.values@.len()
        &&& forall|k1: u32, k2: u32|
            #[trigger] self.owners@.contains_key(k1) && #[trigger] self.owners@.contains_key(k2) && k1
                != k2 ==> self.owners@[k1] != self.owners@[k2]
    }

    pub fn new() -> (r: Self)
        ensures
            r.well_formed(),
            r@ == Map::<u32, T>::empty(),
    {
        let r = ComponentColumn { owners: HashMap::new(), values: Vec::new() };
        assert(r@ =~= Map::<u32, T>::empty());
        r
    }

    /// Adds the component of `node`. A node keeps the first component of a type that it
    /// was given: adding a second one is discarded.
    pub fn add(&mut self, node: InoxNodeUuid, v: T)
        requires
            old(self).well_formed(),
        ensures
            final(self).well_formed(),
            final(self)@ == added(old(self)@, node.0, v),
    {
        if self.owners.contains_key(&node.0) {
            return;
        }
        let index = self.values.len();
        let ghost old_owners = self.owners@;
        let ghost old_values = self.values@;
        self.owners.insert(node.0, index);
        self.values.push(v);
        assert(self@ =~= old(self)@.insert(node.0, v)) by {
            assert forall|k: u32| #[trigger] old_owners.contains_key(k) implies self.values@[old_owners[k] as int]
                == old_values[old_owners[k] as int] by {}
        }
    }

    /// The component of `node`, if it has one.
    pub fn get(&self, node: InoxNodeUuid) -> (r: Option<&T>)
        requires
            self.well_formed(),
        ensures
            r == (if self@.contains_key(node.0) {
                Some(&self@[node.0])
            } else {
                None
            }),
    {
        match self.owners.get(&node.0) {
            Some(i) => Some(&self.values[*i]),
            None => None,
        }
    }

    /// The component of `node`, which must have one.
    pub fn get_unchecked(&self, node: InoxNodeUuid) -> (r: &T)
        requires
            self.well_formed(),
            self@.contains_key(node.0),
        ensures
            *r == self@[node.0],
    {
        match self.owners.get(&node.0) {
            Some(i) => &self.values[*i],
            None => {
                assert(false);
                &self.values[0]
            },
        }
    }
}

impl<T> ComponentColumn<T> {
    /// A mutable view of the component of `node`, if it has one; writing through it
    /// changes that component and nothing else.
    pub fn get_mut(&mut self, node: InoxNodeUuid) -> (r: Option<&mut T>)
        requires
            old(self).well_formed(),
        ensures
            final(self).well_formed(),
            r is Some <==> old(self)@.contains_key(node.0),
            r is None ==> final(self)@ == old(self)@,
            r matches Some(x) ==> *x == old(self)@[node.0] && final(self)@ == old(self)@.insert(
                node.0,
                *final(x),
            ),
    {
        match self.owners.get(&node.0) {
            Some(i) => {
                let i = *i;
                let ghost old_owners = self.owners@;
                let ghost old_values = self.values@;
                let r = &mut self.values[i];
                proof {
                    let updated = Map::new(
                        |k: u32| old_owners.contains_key(k),
                        |k: u32| old_values.update(i as int, *final(r))[old_owners[k] as int],
                    );
                    assert(updated =~= old(self)@.insert(node.0, *final(r))) by {
                        assert forall|k: u32| #[trigger] old_owners.contains_key(k) && k != node.0
                            implies old_owners[k] != i by {}
                    }
                }
                Some(r)
            },
            None => None,
        }
    }

    /// A mutable view of the component of `node`, which must have one.
    pub fn get_mut_unchecked(&mut self, node: InoxNodeUuid) -> (r: &mut T)
        requires
            old(self).well_formed(),
            old(self)@.contains_key(node.0),
        ensures
            final(self).well_formed(),
            *r == old(self)@[node.0],
            final(self)@ == old(self)@.insert(node.0, *final(r)),
    {
        let i = *self.owners.get(&node.0).unwrap();
        let ghost old_owners = self.owners@;
        let ghost old_values = self.values@;
        let r = &mut self.values[i];
        proof {
            let updated = Map::new(
                |k: u32| old_owners.contains_key(k),
                |k: u32| old_values.update(i as int, *final(r))[old_owners[k] as int],
            );
            assert(updated =~= old(self)@.insert(node.0, *final(r))) by {
                assert forall|k: u32| #[trigger] old_owners.contains_key(k) && k != node.0
                    implies old_owners[k] != i by {}
            }
        }
        r
    }
}

/// `s` with every occurrence of `c` taken out, the rest in order.
pub open spec fn without(s: Seq<u64>, c: u64) -> Seq<u64>
    decreases s.len(),
{
    if s.len() == 0 {
        s
    } else if s.last() == c {
        without(s.drop_last(), c)
    } else {
        without(s.drop_last(), c).push(s.last())
    }
}

/// The part of a world that one worker may touch: the nodes it may see (`None`: all of
/// them) and the component types it may see (`None`: all of them), each component type
/// named by the key of its column.
pub struct Partition {
    pub nodes: Option<Vec<InoxNodeUuid>>,
    pub components: Option<Vec<u64>>,
}

/// The nodes a partition lists, in order; none when it is not limited by node.
pub open spec fn listed_nodes(nodes: Option<Vec<InoxNodeUuid>>) -> Seq<InoxNodeUuid> {
    match nodes {
        Some(v) => v@,
        None => Seq::empty(),
    }
}

/// Whether a partition limited to `components` (`None`: unlimited) holds component `c`.
pub open spec fn holds_component(components: Option<Vec<u64>>, c: u64) -> bool {
    match components {
        Some(v) => v@.contains(c),
        None => true,
    }
}

fn copy_nodes(v: &Vec<InoxNodeUuid>) -> (r: Vec<InoxNodeUuid>)
    ensures
        r@ == v@,
{
    let mut r: Vec<InoxNodeUuid> = Vec::new();
    let mut i: usize = 0;
    while i < v.len()
        invariant
            i <= v.len(),
            r@ == v@.take(i as int),
        decreases v.len() - i,
    {
        r.push(v[i]);
        i = i + 1;
        assert(r@ =~= v@.take(i as int));
    }
    assert(v@.take(v.len() as int) =~= v@);
    r
}

fn copy_without(v: &[u64], c: u64) -> (r: Vec<u64>)
    ensures
        r@ == without(v@, c),
{
    let mut r: Vec<u64> = Vec::new();
    let mut i: usize = 0;
    while i < v.len()
        invariant
            i <= v.len(),
            r@ == without(v@.take(i as int), c),
        decreases v.len() - i,
    {
        assert(v@.take(i + 1).drop_last() =~= v@.take(i as int));
        if v[i] != c {
            r.push(v[i]);
        }
        i = i + 1;
    }
    assert(v@.take(v.len() as int) =~= v@);
    r
}

fn seq_has(v: &[u64], c: u64) -> (r: bool)
    ensures
        r == v@.contains(c),
{
    let mut i: usize = 0;
    while i < v.len()
        invariant
            i <= v.len(),
            forall|j: int| 0 <= j < i ==> v@[j] != c,
        decreases v.len() - i,
    {
        if v[i] == c {
            assert(v@[i as int] == c);
            return true;
        }
        i = i + 1;
    }
    false
}

impl Partition {
    /// A partition limited to `nodes` and to `components` (`None`: no limit).
    /// Partitions handed to concurrent workers must list disjoint nodes.
    pub fn new_unchecked(nodes: Option<Vec<InoxNodeUuid>>, components: Option<Vec<u64>>) -> (r: Self)
        ensures
            r.nodes == nodes,
            r.components == components,
    {
        Partition { nodes, components }
    }

    /// The nodes the partition is limited to, in order; empty when it is not limited by
    /// node (use `contains` to ask about one node).
    pub fn nodes(&self) -> (r: Vec<InoxNodeUuid>)
        ensures
            r@ == listed_nodes(self.nodes),
    {
        match &self.nodes {
            Some(v) => copy_nodes(v),
            None => Vec::new(),
        }
    }

    /// Whether the partition may touch `node`.
    pub fn contains(&self, node: InoxNodeUuid) -> (r: bool)
        ensures
            r == (self.nodes is None || listed_nodes(self.nodes).contains(node)),
    {
        match &self.nodes {
            None => true,
            Some(v) => {
                let mut i: usize = 0;
                while i < v.len()
                    invariant
                        i <= v.len(),
                        listed_nodes(self.nodes) == v@,
                        forall|j: int| 0 <= j < i ==> v@[j] != node,
                    decreases v.len() - i,
                {
                    if v[i] == node {
                        assert(v@[i as int] == node);
                        return true;
                    }
                    i = i + 1;
                }
                false
            },
        }
    }

    /// Whether the partition may touch the component type whose column key is `type_id`.
    pub fn contains_type_id(&self, type_id: u64) -> (r: bool)
        ensures
            r == holds_component(self.components, type_id),
    {
        match &self.components {
            Some(v) => seq_has(v.as_slice(), type_id),
            None => true,
        }
    }

    /// Whether the partition may touch the component of type `type_id` (a column key) of
    /// `node`: it must hold both the node and the component type.
    pub fn allows(&self, node: InoxNodeUuid, type_id: u64) -> (r: bool)
        ensures
            r == ((self.nodes is None || listed_nodes(self.nodes).contains(node)) && holds_component(
                self.components,
                type_id,
            )),
    {
        self.contains(node) && self.contains_type_id(type_id)
    }

    /// Splits the partition by component type `c`: the first part holds `c` alone (or
    /// nothing, where this partition does not hold `c`), the second every other component
    /// type of this partition. `world_components` lists the keys of the world's columns,
    /// which is what an unlimited partition holds. Both parts keep the nodes.
    pub fn split_by_component(self, c: u64, world_components: &[u64]) -> (r: (Partition, Partition))
        ensures
            r.0.nodes is Some == self.nodes is Some,
            listed_nodes(r.0.nodes) == listed_nodes(self.nodes),
            r.1.nodes == self.nodes,
            r.0.components matches Some(v) && v@ == (if holds_component(self.components, c) {
                seq![c]
            } else {
                Seq::<u64>::empty()
            }),
            r.1.components matches Some(v) && v@ == (if !holds_component(self.components, c) {
                self.components.unwrap()@
            } else {
                match self.components {
                    Some(own) => without(own@, c),
                    None => without(world_components@, c),
                }
            }),
    {
        let has_c = self.contains_type_id(c);
        let mut c_list: Vec<u64> = Vec::new();
        if has_c {
            c_list.push(c);
        }
        assert(c_list@ =~= (if has_c { seq![c] } else { Seq::<u64>::empty() }));
        let not_c: Vec<u64> = if has_c {
            match &self.components {
                Some(own) => copy_without(own.as_slice(), c),
                None => copy_without(world_components, c),
            }
        } else {
            match self.components {
                Some(own) => own,
                None => {
                    assert(false);
                    Vec::new()
                },
            }
        };
        let first_nodes = match &self.nodes {
            Some(v) => Some(copy_nodes(v)),
            None => None,
        };
        (
            Partition { nodes: first_nodes, components: Some(c_list) },
            Partition { nodes: self.nodes, components: Some(not_c) },
        )
    }
}

proof fn lemma_without_contains(s: Seq<u64>, c: u64, x: u64)
    ensures
        without(s, c).contains(x) <==> (s.contains(x) && x != c),
    decreases s.len(),
{
    if s.len() > 0 {
        let init = s.drop_last();
        let last = s.last();
        let w = without(init, c);
        lemma_without_contains(init, c, x);
        assert(s.contains(x) <==> (init.contains(x) || last == x)) by {
            if s.contains(x) {
                let i = choose|i: int| 0 <= i < s.len() && s[i] == x;
                if i < s.len() - 1 {
                    assert(init[i] == x);
                }
            }
            if init.contains(x) {
                let j = choose|j: int| 0 <= j < init.len() && init[j] == x;
                assert(s[j] == x);
            }
            if last == x {
                assert(s[s.len() - 1] == x);
            }
        }
        if last != c {
            assert(without(s, c) == w.push(last));
            assert(w.push(last).contains(x) <==> (w.contains(x) || last == x)) by {
                if w.push(last).contains(x) {
                    let i = choose|i: int| 0 <= i < w.push(last).len() && w.push(last)[i] == x;
                    if i < w.len() {
                        assert(w[i] == x);
                    }
                }
                if w.contains(x) {
                    let j = choose|j: int| 0 <= j < w.len() && w[j] == x;
                    assert(w.push(last)[j] == x);
                }
                if last == x {
                    assert(w.push(last)[w.len() as int] == x);
                }
            }
        } else {
            assert(without(s, c) == w);
        }
    } else {
        assert(!s.contains(x));
    }
}

/// Splitting a partition by a component type that it holds gives two parts that hold no
/// component type in common and that together hold exactly what it held (the world's
/// types, where it was not limited by type).
pub proof fn lemma_split_disjoint(components: Option<Vec<u64>>, c: u64, world_components: Seq<u64>, x: u64)
    requires
        holds_component(components, c),
    ensures
        ({
            let first = seq![c];
            let second = match components {
                Some(own) => without(own@, c),
                None => without(world_components, c),
            };
            let all = match components {
                Some(own) => own@,
                None => world_components.push(c),
            };
            &&& !(first.contains(x) && second.contains(x))
            &&& (first.contains(x) || second.contains(x)) <==> all.contains(x) || x == c
        }),
{
    match components {
        Some(own) => lemma_without_contains(own@, c, x),
        None => {
            lemma_without_contains(world_components, c, x);
            if world_components.contains(x) {
                let i = choose|i: int| 0 <= i < world_components.len() && world_components[i] == x;
                assert(world_components.push(c)[i] == x);
            }
            if world_components.push(c).contains(x) && x != c {
                let i = choose|i: int| 0 <= i < world_components.push(c).len() && world_components.push(c)[i] == x;
                assert(world_components[i] == x);
            }
            assert(world_components.push(c)[world_components.len() as int] == c);
        },
    }
    if seq![c].contains(x) {
        let i = choose|i: int| 0 <= i < 1 && seq![c][i] == x;
        assert(x == c);
    }
    if x == c {
        assert(seq![c][0] == c);
    }
}

/// `s` with every repeated node left out, first occurrences in order.
pub open spec fn dedup_nodes(s: Seq<InoxNodeUuid>) -> Seq<InoxNodeUuid>
    decreases s.len(),
{
    if s.len() == 0 {
        s
    } else {
        let d = dedup_nodes(s.drop_last());
        if d.contains(s.last()) {
            d
        } else {
            d.push(s.last())
        }
    }
}

/// How many nodes each worker gets: the nodes shared evenly among the threads, at least one.
pub open spec fn batch_len(count: nat, threads: nat) -> nat {
    if count / threads > 0 {
        count / threads
    } else {
        1
    }
}

/// How many batches of `size` it takes to hold `len` nodes.
pub open spec fn batch_count(len: int, size: int) -> int {
    (len + size - 1) / size
}

/// Batch `i` of `nodes` when cut into batches of `size`: the last one may be shorter.
pub open spec fn batch(nodes: Seq<InoxNodeUuid>, size: nat, i: int) -> Seq<InoxNodeUuid> {
    let start = if i * size < nodes.len() {
        i * size
    } else {
        nodes.len() as int
    };
    let end = if start + size < nodes.len() {
        start + size
    } else {
        nodes.len() as int
    };
    nodes.subrange(start, end)
}

proof fn lemma_dedup_distinct(s: Seq<InoxNodeUuid>)
    ensures
        forall|a: int, b: int|
            0 <= a < b < dedup_nodes(s).len() ==> dedup_nodes(s)[a] != dedup_nodes(s)[b],
        forall|x: InoxNodeUuid| dedup_nodes(s).contains(x) <==> s.contains(x),
    decreases s.len(),
{
    if s.len() > 0 {
        let init = s.drop_last();
        lemma_dedup_distinct(init);
        let d = dedup_nodes(init);
        assert forall|x: InoxNodeUuid| dedup_nodes(s).contains(x) <==> s.contains(x) by {
            assert(d.contains(x) <==> init.contains(x));
            if s.contains(x) {
                let i = choose|i: int| 0 <= i < s.len() && s[i] == x;
                if i < s.len() - 1 {
                    assert(init[i] == x);
                    assert(init.contains(x));
                    let j = choose|j: int| 0 <= j < d.len() && d[j] == x;
                    if !d.contains(s.last()) {
                        assert(d.push(s.last())[j] == x);
                    }
                } else if !d.contains(s.last()) {
                    assert(d.push(s.last())[d.len() as int] == x);
                }
            }
            if dedup_nodes(s).contains(x) {
                let j = choose|j: int| 0 <= j < dedup_nodes(s).len() && dedup_nodes(s)[j] == x;
                if j < d.len() {
                    assert(d[j] == x);
                    assert(d.contains(x));
                    assert(init.contains(x));
                    let i = choose|i: int| 0 <= i < init.len() && init[i] == x;
                    assert(s[i] == x);
                } else {
                    assert(s[s.len() - 1] == x);
                }
            }
        }
    }
}

/// The nodes of `nodes`, each once, cut into batches of `batch_len` nodes for `threads`
/// workers. A node is in at most one batch, so workers on different batches touch
/// different nodes.
pub fn disjoint_batches(nodes: &[InoxNodeUuid], threads: usize) -> (r: Vec<Vec<InoxNodeUuid>>)
    requires
        threads >= 1,
    ensures
        ({
            let d = dedup_nodes(nodes@);
            let size = batch_len(d.len(), threads as nat);
            &&& r@.len() == batch_count(d.len() as int, size as int)
            &&& forall|i: int| 0 <= i < r@.len() ==> (#[trigger] r@[i])@ == batch(d, size, i)
        }),
{
    let mut unique: Vec<InoxNodeUuid> = Vec::new();
    let mut i: usize = 0;
    while i < nodes.len()
        invariant
            i <= nodes@.len(),
            unique@ == dedup_nodes(nodes@.take(i as int)),
        decreases nodes@.len() - i,
    {
        let node = nodes[i];
        let mut seen = false;
        let mut j: usize = 0;
        while j < unique.len()
            invariant
                j <= unique@.len(),
                seen == (exists|k: int| 0 <= k < j && unique@[k] == node),
            decreases unique@.len() - j,
        {
            if unique[j] == node {
                seen = true;
            }
            j = j + 1;
        }
        assert(nodes@.take(i + 1).drop_last() =~= nodes@.take(i as int));
        assert(nodes@.take(i + 1).last() == node);
        if !seen {
            unique.push(node);
        }
        i = i + 1;
    }
    assert(nodes@.take(nodes@.len() as int) =~= nodes@);
    let ghost d = unique@;
    let count = unique.len();
    let size: usize = if count / threads > 0 { count / threads } else { 1 };
    assert(size == batch_len(d.len(), threads as nat));

    let mut batches: Vec<Vec<InoxNodeUuid>> = Vec::new();
    let mut start: usize = 0;
    while start < count
        invariant
            count == unique@.len(),
            d == unique@,
            size >= 1,
            start <= count,
            start == batches@.len() * size || start == count,
            start < count ==> start == batches@.len() * size,
            forall|b: int| 0 <= b < batches@.len() ==> (#[trigger] batches@[b])@ == batch(d, size as nat, b),
            start == count ==> batches@.len() == batch_count(count as int, size as int),
            start < count ==> batches@.len() == start as int / size as int,
        decreases count - start,
    {
        let end = if count - start > size { start + size } else { count };
        let mut chunk: Vec<InoxNodeUuid> = Vec::new();
        let mut k = start;
        while k < end
            invariant
                start <= k <= end,
                end <= count,
                count == unique@.len(),
                chunk@ == unique@.subrange(start as int, k as int),
            decreases end - k,
        {
            chunk.push(unique[k]);
            k = k + 1;
            assert(chunk@ =~= unique@.subrange(start as int, k as int));
        }
        let ghost b = batches@.len() as int;
        proof {
            assert(start == b * size);
            assert(chunk@ == batch(d, size as nat, b));
            assert(start as int / size as int == b) by {
                vstd::arithmetic::div_mod::lemma_fundamental_div_mod_converse(start as int, size as int, b, 0);
            }
        }
        batches.push(chunk);
        proof {
            assert((b + 1) * size == b * size + size) by (nonlinear_arith);
            if end == count {
                assert(batch_count(count as int, size as int) == b + 1) by {
                    vstd::arithmetic::div_mod::lemma_fundamental_div_mod_converse(
                        (count + size - 1) as int,
                        size as int,
                        b + 1,
                        (count + size - 1) - (b + 1) * size,
                    );
                }
            } else {
                assert((start + size) as int / size as int == b + 1) by {
                    vstd::arithmetic::div_mod::lemma_fundamental_div_mod_converse((start + size) as int, size as int, b + 1, 0);
                }
            }
        }
        start = end;
    }
    if count == 0 {
        assert(batch_count(count as int, size as int) == 0) by {
            vstd::arithmetic::div_mod::lemma_fundamental_div_mod_converse((size - 1) as int, size as int, 0, (size - 1) as int);
        }
    }
    batches
}

/// Batches cut from the same deduplicated nodes share no node: a node sits in one batch.
pub proof fn lemma_batches_disjoint(nodes: Seq<InoxNodeUuid>, size: nat, i: int, j: int, x: InoxNodeUuid)
    requires
        size >= 1,
        0 <= i < j,
        batch(dedup_nodes(nodes), size, i).contains(x),
    ensures
        !batch(dedup_nodes(nodes), size, j).contains(x),
{
    let d = dedup_nodes(nodes);
    lemma_dedup_distinct(nodes);
    let bi = batch(d, size, i);
    let bj = batch(d, size, j);
    assert(0 <= i * size && i * size + size <= j * size) by (nonlinear_arith)
        requires
            0 <= i < j,
            size >= 1,
    ;
    if bj.contains(x) {
        let a = choose|a: int| 0 <= a < bi.len() && bi[a] == x;
        let c = choose|c: int| 0 <= c < bj.len() && bj[c] == x;
        assert(i * size < d.len());
        assert(j * size < d.len());
        assert(d[i * size + a] == x);
        assert(d[j * size + c] == x);
    }
}

} // verus!
