//! What the health update of one step and the removal of the dead do to the
//! agents.

use vstd::prelude::*;
use super::params::{Params, MAX_STEP_DURATION};
use super::person::{health_possible, Person};

verus! {

/// The agents `after` are the agents `before` once the health of each has
/// been updated for a step of length `dt` that ends at `time`: nobody has
/// moved or changed its velocity, each status is what the update can make of
/// it, and `flags` tells who died.
pub open spec fn health_updated(
    before: Seq<Person>,
    after: Seq<Person>,
    flags: Seq<bool>,
    time: i64,
    params: Params,
    dt: i64,
) -> bool {
    &&& after.len() == before.len()
    &&& flags.len() == before.len()
    &&& forall|i: int|
        0 <= i < before.len() ==> {
            &&& (#[trigger] after[i]).pos() == before[i].pos()
            &&& after[i].vel() == before[i].vel()
            &&& health_possible(*before[i].status(), *after[i].status(), flags[i], time, params, dt)
        }
}

/// The agents that are not flagged, in their order.
pub open spec fn survivors(people: Seq<Person>, flags: Seq<bool>) -> Seq<Person>
    decreases people.len(),
{
    if people.len() == 0 {
        Seq::empty()
    } else {
        let rest = survivors(people.drop_last(), flags.drop_last());
        if flags.last() {
            rest
        } else {
            rest.push(people.last())
        }
    }
}

/// The length of the step that is taken when `dt` is asked for.
pub open spec fn step_length(dt: i64) -> i64 {
    if dt > MAX_STEP_DURATION {
        MAX_STEP_DURATION
    } else {
        dt
    }
}

} // verus!
