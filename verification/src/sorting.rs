//! Stable descending order of items by an integer key.
use vstd::prelude::*;

verus! {

/// Item `a` comes before item `b`: a larger key first, and on equal keys the
/// earlier item first (a stable order).
pub open spec fn comes_before(keys: Seq<i64>, a: int, b: int) -> bool {
    keys[a] > keys[b] || (keys[a] == keys[b] && a < b)
}

/// `order` lists item indices in stable descending key order.
pub open spec fn is_desc_order(keys: Seq<i64>, order: Seq<usize>) -> bool {
    &&& forall|i: int| 0 <= i < order.len() ==> (#[trigger] order[i] as int) < keys.len()
    &&& forall|i: int, j: int|
        0 <= i < j < order.len() ==> comes_before(keys, #[trigger] order[i] as int, #[trigger] order[j] as int)
}

/// `order` is a permutation of all item indices in stable descending key order.
pub open spec fn is_sorted_permutation(keys: Seq<i64>, order: Seq<usize>) -> bool {
    &&& order.len() == keys.len()
    &&& is_desc_order(keys, order)
    &&& forall|k: int| 0 <= k < keys.len() ==> #[trigger] order.contains(k as usize)
}

/// The indices of `keys` in stable descending key order.
pub fn sort_desc_indices(keys: &Vec<i64>) -> (r: Vec<usize>)
    ensures
        is_sorted_permutation(keys@, r@),
{
    let n: usize = keys.len();
    let mut order: Vec<usize> = Vec::new();
    let mut i: usize = 0;
    while i < n
        invariant
            n == keys@.len(),
            i <= n,
            order@.len() == i,
            is_desc_order(keys@, order@),
            forall|q: int| 0 <= q < order@.len() ==> (#[trigger] order@[q] as int) < i,
            forall|k: int| 0 <= k < i ==> #[trigger] order@.contains(k as usize),
        decreases n - i,
    {
        let ki = keys[i];
        let mut p: usize = 0;
        while p < order.len() && keys[order[p]] >= ki
            invariant
                n == keys@.len(),
                i < n,
                ki == keys@[i as int],
                p <= order@.len(),
                is_desc_order(keys@, order@),
                forall|q: int| 0 <= q < p ==> keys@[#[trigger] order@[q] as int] >= ki,
            decreases order@.len() - p,
        {
            p = p + 1;
        }
        let ghost old_order = order@;
        assert(forall|k: int| 0 <= k < i ==> #[trigger] old_order.contains(k as usize));
        proof {
            assert forall|q: int| p <= q < old_order.len() implies keys@[#[trigger] old_order[q] as int] < ki by {
                if q > p {
                    assert(comes_before(keys@, old_order[p as int] as int, old_order[q] as int));
                }
            }
        }
        order.insert(p, i);
        proof {
            let o = order@;
            assert(o == old_order.insert(p as int, i));
            assert forall|a: int, b: int| 0 <= a < b < o.len() implies comes_before(keys@, #[trigger] o[a] as int, #[trigger] o[b] as int) by {
                if a < p && b < p {
                    assert(o[a] == old_order[a] && o[b] == old_order[b]);
                } else if a < p && b == p {
                    assert(o[a] == old_order[a]);
                } else if a < p {
                    assert(o[a] == old_order[a] && o[b] == old_order[b - 1]);
                } else if a == p {
                    assert(o[b] == old_order[b - 1]);
                } else {
                    assert(o[a] == old_order[a - 1] && o[b] == old_order[b - 1]);
                }
            }
            assert forall|k: int| 0 <= k < i + 1 implies #[trigger] o.contains(k as usize) by {
                if k == i {
                    assert(o[p as int] == i);
                } else {
                    assert(old_order.contains(k as usize));
                    let q = choose|q: int| 0 <= q < old_order.len() && old_order[q] == k as usize;
                    if q < p {
                        assert(o[q] == k as usize);
                    } else {
                        assert(o[q + 1] == k as usize);
                    }
                }
            }
            assert forall|q: int| 0 <= q < o.len() implies (#[trigger] o[q] as int) < i + 1 by {
                if q < p {
                    assert(o[q] == old_order[q]);
                } else if q > p {
                    assert(o[q] == old_order[q - 1]);
                }
            }
        }
        i = i + 1;
    }
    order
}

proof fn lemma_orders_agree_upto(keys: Seq<i64>, o1: Seq<usize>, o2: Seq<usize>, n: int)
    requires
        is_sorted_permutation(keys, o1),
        is_sorted_permutation(keys, o2),
        0 <= n <= o1.len(),
    ensures
        forall|q: int| 0 <= q < n ==> o1[q] == o2[q],
    decreases n,
{
    if n > 0 {
        lemma_orders_agree_upto(keys, o1, o2, n - 1);
        let i = n - 1;
        let a = o1[i];
        let b = o2[i];
        if a != b {
            assert((a as int) < keys.len());
            assert((b as int) < keys.len());
            assert(o1.contains(b as int as usize));
            assert(o2.contains(a as int as usize));
            let j = choose|j: int| 0 <= j < o1.len() && o1[j] == b;
            let k = choose|k: int| 0 <= k < o2.len() && o2[k] == a;
            if j < i {
                assert(o2[j] == o1[j]);
                assert(comes_before(keys, o2[j] as int, o2[i] as int));
            } else if k < i {
                assert(o1[k] == o2[k]);
                assert(comes_before(keys, o1[k] as int, o1[i] as int));
            } else {
                assert(comes_before(keys, o1[i] as int, o1[j] as int));
                assert(comes_before(keys, o2[i] as int, o2[k] as int));
            }
        }
    }
}

/// The stable descending order of given keys is unique: two permutations
/// that both list the items in that order are the same.
pub proof fn law_sorted_order_unique(keys: Seq<i64>, o1: Seq<usize>, o2: Seq<usize>)
    requires
        is_sorted_permutation(keys, o1),
        is_sorted_permutation(keys, o2),
    ensures
        o1 == o2,
{
    lemma_orders_agree_upto(keys, o1, o2, o1.len() as int);
    assert(o1 =~= o2);
}

} // verus!
