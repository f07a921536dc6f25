//! Orders of the agents' indices.

use vstd::prelude::*;

verus! {

/// `order` holds each index below `n` exactly once.
pub open spec fn arranges(order: Seq<usize>, n: nat) -> bool {
    &&& order.len() == n
    &&& forall|k: int| 0 <= k < order.len() ==> #[trigger] order[k] < n
    &&& order.no_duplicates()
    &&& forall|i: usize| i < n ==> #[trigger] order.contains(i)
}

/// A rearrangement of the indices below `n` holds each of them exactly once.
pub proof fn lemma_rearranged(order: Seq<usize>, start: Seq<usize>, n: nat)
    requires
        start.len() == n,
        forall|k: int| 0 <= k < n ==> start[k] == k,
        order.to_multiset() == start.to_multiset(),
    ensures
        arranges(order, n),
{
    broadcast use vstd::multiset::group_multiset_axioms;

    order.to_multiset_ensures();
    start.to_multiset_ensures();
    assert(start.no_duplicates());
    start.lemma_multiset_has_no_duplicates();
    order.lemma_multiset_has_no_duplicates_conv();
    assert forall|k: int| 0 <= k < order.len() implies #[trigger] order[k] < n by {
        assert(order.contains(order[k]));
        assert(order.to_multiset().count(order[k]) > 0);
        assert(start.to_multiset().count(order[k]) > 0);
        assert(start.contains(order[k]));
    }
    assert forall|i: usize| i < n implies #[trigger] order.contains(i) by {
        assert(start[i as int] == i);
        assert(start.contains(i));
        assert(start.to_multiset().count(i) > 0);
        assert(order.to_multiset().count(i) > 0);
    }
}

/// The indices below `n`, in ascending order.
pub fn identity_order(n: usize) -> (order: Vec<usize>)
    ensures
        order@.len() == n,
        forall|k: int| 0 <= k < n ==> order@[k] == k,
{
    let mut order: Vec<usize> = Vec::new();
    let mut k: usize = 0;
    while k < n
        invariant
            k <= n,
            order@.len() == k,
            forall|m: int| 0 <= m < k ==> order@[m] == m,
        decreases n - k,
    {
        order.push(k);
        k += 1;
    }
    order
}

} // verus!
