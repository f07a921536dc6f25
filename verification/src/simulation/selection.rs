//! Choosing agents by the first places of an order of their indices.

use vstd::prelude::*;
use super::person::Person;

verus! {

/// The indices at the first `n` places of `order`.
pub open spec fn selection(order: Seq<usize>, n: int) -> Set<int> {
    Set::new(|i: int| exists|k: int| 0 <= k < n && #[trigger] order[k] == i)
}

/// What a selected agent becomes: infected at `time`, or vaccinated.
pub open spec fn marked(before: Person, after: Person, time: i64, infect: bool) -> bool {
    if infect {
        after.is_infection_of(before, time)
    } else {
        after.is_vaccination_of(before)
    }
}

/// The agents `after` are the agents `before` with those in `chosen` marked
/// and the others as they were.
pub open spec fn selected(
    before: Seq<Person>,
    after: Seq<Person>,
    chosen: Set<int>,
    time: i64,
    infect: bool,
) -> bool {
    &&& after.len() == before.len()
    &&& forall|i: int|
        0 <= i < before.len() ==> if chosen.contains(i) {
            marked(before[i], #[trigger] after[i], time, infect)
        } else {
            after[i] == before[i]
        }
}

/// The first `n` places of an order without duplicates hold `n` indices.
pub proof fn lemma_selection_count(order: Seq<usize>, n: int)
    requires
        order.no_duplicates(),
        0 <= n <= order.len(),
    ensures
        selection(order, n).finite(),
        selection(order, n).len() == n,
    decreases n,
{
    if n == 0 {
        assert(selection(order, 0) =~= Set::<int>::empty());
    } else {
        lemma_selection_count(order, n - 1);
        let last = order[n - 1] as int;
        assert(!selection(order, n - 1).contains(last));
        assert(selection(order, n) =~= selection(order, n - 1).insert(last)) by {
            assert forall|i: int| selection(order, n).contains(i) implies selection(
                order,
                n - 1,
            ).insert(last).contains(i) by {
                let k = choose|k: int| 0 <= k < n && #[trigger] order[k] == i;
                if k < n - 1 {
                    assert(selection(order, n - 1).contains(i));
                }
            }
            assert forall|i: int| selection(order, n - 1).insert(last).contains(i) implies selection(
                order,
                n,
            ).contains(i) by {
                if i == last {
                    assert(order[n - 1] == i);
                } else {
                    let k = choose|k: int| 0 <= k < n - 1 && #[trigger] order[k] == i;
                    assert(order[k] == i);
                }
            }
        }
    }
}

} // verus!
