//! Placing agents so that none overlaps another.

use vstd::prelude::*;
use super::person::{Person, RADIUS};
use super::space::{Space, Vec2};

verus! {

/// No two of the agents overlap.
pub open spec fn all_apart(people: Seq<Person>, space: Space) -> bool {
    forall|i: int, j: int|
        #![trigger people[i], people[j]]
        0 <= i < j < people.len() ==> !space.overlapping(people[i].pos(), people[j].pos())
}

/// The agent overlaps none of `people`.
pub open spec fn clear_of(people: Seq<Person>, candidate: Person, space: Space) -> bool {
    forall|i: int|
        0 <= i < people.len() ==> !space.overlapping(
            (#[trigger] people[i]).pos(),
            candidate.pos(),
        )
}

/// The agent is healthy, moves with `velocity` and stands in the box, at least
/// a radius away from every edge.
pub open spec fn newly_placed(person: Person, velocity: Vec2, space: Space) -> bool {
    &&& RADIUS <= person.pos().x < space.size_x - RADIUS
    &&& RADIUS <= person.pos().y < space.size_y - RADIUS
    &&& person.vel() == velocity
    &&& person.status().infected() is None
    &&& !person.status().past_infected()
    &&& !person.status().vaccinated()
}

/// Appends `candidate` to `people` if it overlaps none of them, and tells
/// whether it did.
pub fn try_place(people: &mut Vec<Person>, candidate: Person, space: &Space) -> (placed: bool)
    requires
        space.wf(),
    ensures
        placed == clear_of(old(people)@, candidate, *space),
        placed ==> final(people)@ == old(people)@.push(candidate),
        !placed ==> final(people)@ == old(people)@,
{
    let mut i: usize = 0;
    while i < people.len()
        invariant
            i <= people@.len(),
            people@ == old(people)@,
            space.wf(),
            forall|k: int|
                0 <= k < i ==> !space.overlapping((#[trigger] people@[k]).pos(), candidate.pos()),
        decreases people@.len() - i,
    {
        if people[i].overlaps(&candidate, space) {
            return false;
        }
        i += 1;
    }
    people.push(candidate);
    true
}

} // verus!
