//! Stable ordering of indices by a two-part key.
//!
//! Both the drawing order of a page (by layer, then insertion order) and the
//! order of timeline events (by time, then kind, then insertion order) are
//! "sort by key, keep the input order among equal keys". Ties are broken
//! by the input index, so exactly one order satisfies [`stable_order`].
use vstd::prelude::*;
use vstd::seq_lib::seq_to_set_is_finite;
use vstd::set_lib::{lemma_int_range, lemma_subset_equality, set_int_range};

verus! {

/// Lexicographic `<` on two-part keys.
pub open spec fn pair_lt(a: (u64, u64), b: (u64, u64)) -> bool {
    a.0 < b.0 || (a.0 == b.0 && a.1 < b.1)
}

/// Entry `a` comes before entry `b`: smaller key, or equal key and earlier.
pub open spec fn entry_before(keys: Seq<(u64, u64)>, a: int, b: int) -> bool {
    pair_lt(keys[a], keys[b]) || (keys[a] == keys[b] && a < b)
}

/// `order` lists indices of `keys` by key and then by input position.
pub open spec fn sorted_indices(keys: Seq<(u64, u64)>, order: Seq<usize>) -> bool {
    &&& forall|i: int| 0 <= i < order.len() ==> #[trigger] order[i] < keys.len()
    &&& forall|i: int, j: int|
        0 <= i < j < order.len() ==> entry_before(keys, #[trigger] order[i] as int, #[trigger] order[j] as int)
}

/// `order` lists every index of `keys` exactly once, by key and then by
/// input position: the stable sort of the indices.
pub open spec fn stable_order(keys: Seq<(u64, u64)>, order: Seq<usize>) -> bool {
    &&& order.len() == keys.len()
    &&& sorted_indices(keys, order)
}

/// `order` holds distinct values below `n`, `n` of them: each of `0..n` once.
pub open spec fn is_permutation_of_range(order: Seq<usize>, n: int) -> bool {
    &&& order.len() == n
    &&& forall|i: int| 0 <= i < n ==> #[trigger] order[i] < n
    &&& forall|i: int, j: int| 0 <= i < j < n ==> #[trigger] order[i] != #[trigger] order[j]
}

/// A stable order lists each index once.
pub proof fn lemma_stable_order_is_permutation(keys: Seq<(u64, u64)>, order: Seq<usize>)
    requires
        stable_order(keys, order),
    ensures
        is_permutation_of_range(order, keys.len() as int),
{
    assert forall|i: int, j: int| 0 <= i < j < keys.len() implies #[trigger] order[i] != #[trigger] order[j] by {
        assert(entry_before(keys, order[i] as int, order[j] as int));
    }
}

/// `x` occurs in `order`.
pub open spec fn lists(order: Seq<usize>, x: int) -> bool {
    exists|i: int| 0 <= i < order.len() && order[i] as int == x
}

/// A permutation of `0..n` lists every index of `0..n`.
pub proof fn lemma_permutation_covers(order: Seq<usize>, n: int)
    requires
        is_permutation_of_range(order, n),
    ensures
        forall|x: int| 0 <= x < n ==> #[trigger] lists(order, x),
{
    let s = order.map_values(|v: usize| v as int);
    assert(s.no_duplicates()) by {
        assert forall|i: int, j: int| 0 <= i < s.len() && 0 <= j < s.len() && i != j implies s[i] != s[j] by {
            if i < j {
                assert(order[i] != order[j]);
            } else {
                assert(order[j] != order[i]);
            }
        }
    }
    s.unique_seq_to_set();
    lemma_int_range(0, n);
    assert(s.to_set().subset_of(set_int_range(0, n))) by {
        assert forall|x: int| s.to_set().contains(x) implies set_int_range(0, n).contains(x) by {
            assert(s.contains(x));
            let i = choose|i: int| 0 <= i < s.len() && s[i] == x;
            assert(order[i] < n);
        }
    }
    assert(s.to_set().finite()) by {
        seq_to_set_is_finite(s);
    }
    lemma_subset_equality(s.to_set(), set_int_range(0, n));
    assert forall|x: int| 0 <= x < n implies #[trigger] lists(order, x) by {
        assert(set_int_range(0, n).contains(x));
        assert(s.to_set().contains(x));
        assert(s.contains(x));
        let i = choose|i: int| 0 <= i < s.len() && s[i] == x;
        assert(order[i] as int == x);
    }
}

/// The keys never decrease: no entry has a smaller key than one before it.
pub open spec fn keys_ordered(keys: Seq<(u64, u64)>) -> bool {
    forall|i: int, j: int| 0 <= i < j < keys.len() ==> !pair_lt(#[trigger] keys[j], #[trigger] keys[i])
}

/// The positions `0..n` in their own order.
pub open spec fn identity_order(n: nat) -> Seq<usize> {
    Seq::new(n, |i: int| i as usize)
}

/// Where the keys never decrease, the input order is the stable order.
pub proof fn lemma_identity_is_stable(keys: Seq<(u64, u64)>)
    requires
        keys_ordered(keys),
        keys.len() <= usize::MAX,
    ensures
        stable_order(keys, identity_order(keys.len())),
{
    let order = identity_order(keys.len());
    assert forall|i: int, j: int| 0 <= i < j < order.len() implies entry_before(
        keys,
        #[trigger] order[i] as int,
        #[trigger] order[j] as int,
    ) by {
        assert(order[i] as int == i);
        assert(order[j] as int == j);
        assert(!pair_lt(keys[j], keys[i]));
    }
}

/// Exactly one order is stable: sorting by key with ties broken by the
/// input position gives the same result however it is computed.
pub proof fn lemma_stable_order_unique(keys: Seq<(u64, u64)>, o1: Seq<usize>, o2: Seq<usize>)
    requires
        stable_order(keys, o1),
        stable_order(keys, o2),
    ensures
        o1 == o2,
{
    let n = keys.len() as int;
    lemma_stable_order_is_permutation(keys, o1);
    lemma_stable_order_is_permutation(keys, o2);
    lemma_permutation_covers(o1, n);
    lemma_permutation_covers(o2, n);
    assert forall|i: int| 0 <= i < n implies o1[i] == o2[i] by {
        lemma_stable_order_prefix_agrees(keys, o1, o2, i);
    }
    assert(o1 =~= o2);
}

proof fn lemma_stable_order_prefix_agrees(keys: Seq<(u64, u64)>, o1: Seq<usize>, o2: Seq<usize>, i: int)
    requires
        stable_order(keys, o1),
        stable_order(keys, o2),
        is_permutation_of_range(o1, keys.len() as int),
        is_permutation_of_range(o2, keys.len() as int),
        forall|x: int| 0 <= x < keys.len() ==> #[trigger] lists(o1, x),
        forall|x: int| 0 <= x < keys.len() ==> #[trigger] lists(o2, x),
        0 <= i < keys.len(),
    ensures
        o1[i] == o2[i],
    decreases i,
{
    if i > 0 {
        lemma_stable_order_prefix_agrees(keys, o1, o2, i - 1);
    }
    assert forall|j: int| 0 <= j < i implies o1[j] == o2[j] by {
        lemma_stable_order_prefix_agrees(keys, o1, o2, j);
    }
    let a = o1[i] as int;
    let b = o2[i] as int;
    if a != b {
        assert(lists(o2, a));
        let j = choose|j: int| 0 <= j < o2.len() && o2[j] as int == a;
        assert(lists(o1, b));
        let k = choose|k: int| 0 <= k < o1.len() && o1[k] as int == b;
        if j < i {
            assert(o1[j] == o2[j]);
            assert(o1[j] != o1[i]);
        } else {
            assert(j > i);
            assert(entry_before(keys, b, a));
            if k < i {
                assert(o2[k] == o1[k]);
                assert(o2[k] != o2[i]);
            } else {
                assert(k > i);
                assert(entry_before(keys, a, b));
            }
        }
    }
}

/// The stable order of the indices of `keys` (insertion sort).
pub fn stable_sort_indices(keys: &Vec<(u64, u64)>) -> (order: Vec<usize>)
    ensures
        stable_order(keys@, order@),
{
    let n = keys.len();
    let mut order: Vec<usize> = Vec::new();
    let mut i: usize = 0;
    while i < n
        invariant
            n == keys@.len(),
            i <= n,
            order@.len() == i,
            forall|a: int| 0 <= a < order@.len() ==> #[trigger] order@[a] < i,
            sorted_indices(keys@, order@),
        decreases n - i,
    {
        // Position after every entry whose key is not larger than keys[i].
        let mut p = order.len();
        while p > 0 && pair_gt_exec(keys[order[p - 1]], keys[i])
            invariant
                n == keys@.len(),
                i < n,
                p <= order@.len(),
                order@.len() == i,
                forall|a: int| 0 <= a < order@.len() ==> #[trigger] order@[a] < i,
                sorted_indices(keys@, order@),
                forall|a: int| p <= a < order@.len() ==> pair_lt(keys@[i as int], keys@[#[trigger] order@[a] as int]),
            decreases p,
        {
            p = p - 1;
        }
        let ghost old_order = order@;
        proof {
            if p > 0 {
                assert(!pair_lt(keys@[i as int], keys@[order@[p - 1] as int]));
            }
            assert forall|a: int| 0 <= a < p implies entry_before(keys@, #[trigger] old_order[a] as int, i as int) by {
                if a < p - 1 {
                    assert(entry_before(keys@, old_order[a] as int, old_order[p - 1] as int));
                }
            }
        }
        order.insert(p, i);
        proof {
            assert forall|a: int, b: int| 0 <= a < b < order@.len() implies entry_before(
                keys@,
                #[trigger] order@[a] as int,
                #[trigger] order@[b] as int,
            ) by {
                if a < p && b < p {
                    assert(order@[a] == old_order[a] && order@[b] == old_order[b]);
                } else if a < p && b == p {
                } else if a < p && b > p {
                    assert(order@[b] == old_order[b - 1]);
                    assert(order@[a] == old_order[a]);
                } else if a == p {
                    assert(order@[b] == old_order[b - 1]);
                    assert(pair_lt(keys@[i as int], keys@[old_order[b - 1] as int]));
                } else {
                    assert(order@[a] == old_order[a - 1] && order@[b] == old_order[b - 1]);
                }
            }
        }
        i = i + 1;
    }
    order
}

fn pair_gt_exec(a: (u64, u64), b: (u64, u64)) -> (r: bool)
    ensures
        r == pair_lt(b, a),
{
    b.0 < a.0 || (b.0 == a.0 && b.1 < a.1)
}

} // verus!
