//! Ordering drawables by their z value: the one in front first, ties kept in their order.
//!
//! Z values are floating point numbers; the library orders them by integer keys that
//! compare as the z values do.

use vstd::prelude::*;

verus! {

/// `perm` lists positions of `keys` by descending key and, among equal keys, by ascending
/// position; every position it lists is one of `keys`.
pub open spec fn stable_descending(keys: Seq<i64>, perm: Seq<int>) -> bool {
    &&& perm.len() == keys.len()
    &&& forall|k: int| 0 <= k < perm.len() ==> 0 <= #[trigger] perm[k] < keys.len()
    &&& forall|a: int, b: int|
        0 <= a < b < perm.len() ==> keys[#[trigger] perm[a]] > keys[#[trigger] perm[b]] || (keys[perm[a]]
            == keys[perm[b]] && perm[a] < perm[b])
}

/// `r` is `items` ordered by descending key (`keys[i]` is the key of `items[i]`), items of
/// equal key in the order they have in `items`.
pub open spec fn sorted_descending<T>(items: Seq<T>, keys: Seq<i64>, r: Seq<T>) -> bool {
    exists|perm: Seq<int>|
        #[trigger] stable_descending(keys, perm) && r.len() == perm.len() && forall|k: int|
            0 <= k < r.len() ==> r[k] == items[perm[k]]
}

/// The key of `id`: the key at its position in `ids`.
pub open spec fn key_of<T>(ids: Seq<T>, keys: Seq<i64>, id: T) -> i64 {
    keys[ids.index_of(id)]
}

proof fn lemma_index_of_distinct<T>(s: Seq<T>, j: int)
    requires
        s.no_duplicates(),
        0 <= j < s.len(),
    ensures
        s.index_of(s[j]) == j,
{
    assert(s.contains(s[j]));
    let i = s.index_of(s[j]);
    assert(s[i] == s[j]);
}

/// `ids` ordered by descending key, `keys[i]` being the key of `ids[i]`; ids of equal key
/// keep their order. This is a stable sort.
pub fn zsort_descending<T: Copy>(ids: &[T], keys: &[i64]) -> (r: Vec<T>)
    requires
        ids@.len() == keys@.len(),
    ensures
        sorted_descending(ids@, keys@, r@),
        r@.to_multiset() == ids@.to_multiset(),
        ids@.no_duplicates() ==> forall|a: int, b: int|
            0 <= a < b < r@.len() ==> key_of(ids@, keys@, #[trigger] r@[a]) >= key_of(ids@, keys@, #[trigger] r@[b]),
{
    let n = ids.len();
    let mut order: Vec<usize> = Vec::new();
    let mut out: Vec<T> = Vec::new();
    let mut i: usize = 0;
    assert(out@ =~= ids@.take(0));
    while i < n
        invariant
            n == ids@.len(),
            n == keys@.len(),
            i <= n,
            order@.len() == i,
            out@.len() == i,
            forall|k: int| 0 <= k < i ==> #[trigger] order@[k] < i,
            forall|k: int| 0 <= k < i ==> #[trigger] out@[k] == ids@[order@[k] as int],
            forall|a: int, b: int|
                0 <= a < b < i ==> keys@[#[trigger] order@[a] as int] > keys@[#[trigger] order@[b] as int] || (
                keys@[order@[a] as int] == keys@[order@[b] as int] && order@[a] < order@[b]),
            out@.to_multiset() == ids@.take(i as int).to_multiset(),
        decreases n - i,
    {
        let key = keys[i];
        let mut p: usize = 0;
        while p < order.len() && keys[order[p]] >= key
            invariant
                n == keys@.len(),
                order@.len() == i,
                i < n,
                p <= order@.len(),
                forall|k: int| 0 <= k < i ==> #[trigger] order@[k] < i,
                forall|q: int| 0 <= q < p ==> keys@[#[trigger] order@[q] as int] >= key,
            decreases order@.len() - p,
        {
            p = p + 1;
        }
        let ghost old_order = order@;
        let ghost old_out = out@;
        order.insert(p, i);
        out.insert(p, ids[i]);
        proof {
            old_order.insert_ensures(p as int, i);
            old_out.insert_ensures(p as int, ids@[i as int]);
            assert forall|k: int| 0 <= k < i + 1 implies #[trigger] order@[k] < i + 1 by {
                if k > p {
                    assert(order@[k] == old_order[k - 1]);
                }
            }
            assert forall|k: int| 0 <= k < i + 1 implies #[trigger] out@[k] == ids@[order@[k] as int] by {
                if k > p {
                    assert(order@[k] == old_order[k - 1]);
                    assert(out@[k] == old_out[k - 1]);
                }
            }
            assert forall|a: int, b: int| 0 <= a < b < i + 1 implies keys@[#[trigger] order@[a] as int]
                > keys@[#[trigger] order@[b] as int] || (keys@[order@[a] as int] == keys@[order@[b] as int]
                && order@[a] < order@[b]) by {
                if b < p {
                } else if b == p {
                    assert(order@[a] == old_order[a]);
                    assert(keys@[old_order[a] as int] >= key);
                } else if a < p {
                    assert(order@[a] == old_order[a]);
                    assert(order@[b] == old_order[b - 1]);
                } else if a == p {
                    assert(order@[b] == old_order[b - 1]);
                    assert(keys@[old_order[p as int] as int] < key);
                    if b - 1 > p {
                        assert(keys@[old_order[p as int] as int] >= keys@[old_order[b - 1] as int]);
                    }
                } else {
                    assert(order@[a] == old_order[a - 1]);
                    assert(order@[b] == old_order[b - 1]);
                }
            }
            vstd::seq_lib::to_multiset_insert(old_out, p as int, ids@[i as int]);
            assert(ids@.take(i + 1) =~= ids@.take(i as int).push(ids@[i as int]));
            vstd::seq_lib::to_multiset_build(ids@.take(i as int), ids@[i as int]);
        }
        i = i + 1;
    }
    proof {
        assert(ids@.take(n as int) =~= ids@);
        let perm = Seq::new(n as nat, |k: int| order@[k] as int);
        assert(stable_descending(keys@, perm));
        assert(sorted_descending(ids@, keys@, out@));
        if ids@.no_duplicates() {
            assert forall|a: int, b: int| 0 <= a < b < out@.len() implies key_of(ids@, keys@, #[trigger] out@[a])
                >= key_of(ids@, keys@, #[trigger] out@[b]) by {
                lemma_index_of_distinct(ids@, order@[a] as int);
                lemma_index_of_distinct(ids@, order@[b] as int);
            }
        }
    }
    out
}

} // verus!
