//! What the answers to the collisions of one step do to the agents.

use vstd::prelude::*;
use super::collision::{
    closing,
    energy,
    lemma_rebound_conserves_momentum,
    lemma_rebound_nearly_conserves_energy,
    lemma_rebound_separates,
    positions_of,
    rebound,
    rebound_exact,
    relative_speed,
    velocities_after,
    velocities_after_event,
    velocities_of,
    Collision,
};
use super::params::Params;
use super::person::{contact_outcome, contact_possible, Person, Status};
use super::random::DRAW_RANGE;
use super::space::Space;

verus! {

/// What contacts at `time` can make of a status: the agent is as vaccinated
/// and as recovered as before, and its infection is the one it had or one
/// that began at `time`.
pub open spec fn exposed(before: Status, after: Status, time: i64) -> bool {
    &&& after.vaccinated() == before.vaccinated()
    &&& after.past_infected() == before.past_infected()
    &&& (after.infected() == before.infected() || after.infected() == Some(time))
}

/// None of the agents is infected.
pub open spec fn nobody_infected(people: Seq<Person>) -> bool {
    forall|i: int| 0 <= i < people.len() ==> (#[trigger] people[i]).status().infected() is None
}

/// The event is a pair event of the agent with index `i`.
pub open spec fn involves(e: Collision, i: int) -> bool {
    match e {
        Collision::People(a, b) => a == i || b == i,
        Collision::Wall(a, wall) => false,
    }
}

/// No event of the list is a pair event of the agent with index `i`.
pub open spec fn uninvolved(events: Seq<Collision>, i: int) -> bool {
    forall|k: int| 0 <= k < events.len() ==> !involves(#[trigger] events[k], i)
}

/// Every agent of `after` has the status of its counterpart in `before`.
pub open spec fn same_statuses(before: Seq<Person>, after: Seq<Person>) -> bool {
    forall|i: int|
        0 <= i < before.len() ==> (#[trigger] after[i]).status() == before[i].status()
}

/// The statuses of the agents.
pub open spec fn statuses_of(people: Seq<Person>) -> Seq<Status> {
    Seq::new(people.len(), |i: int| *people[i].status())
}

/// The event can be answered: it names agents that there are, and the two
/// agents of a pair event are different and overlap.
pub open spec fn answerable(people: Seq<Person>, space: Space, e: Collision) -> bool {
    match e {
        Collision::People(i, j) => {
            &&& i < people.len()
            &&& j < people.len()
            &&& i != j
            &&& space.overlapping(people[i as int].pos(), people[j as int].pos())
        },
        Collision::Wall(i, wall) => i < people.len(),
    }
}

/// What the answer to one event at `time` can make of the statuses: the two
/// agents of a pair event have contact with each other, each with the status
/// that the other had before the event; everybody else is as before.
pub open spec fn contact_step(
    params: Params,
    time: i64,
    e: Collision,
    before: Seq<Status>,
    after: Seq<Status>,
) -> bool {
    &&& after.len() == before.len()
    &&& match e {
        Collision::People(i, j) => {
            &&& contact_possible(before[i as int], after[i as int], time, params, before[j as int])
            &&& contact_possible(before[j as int], after[j as int], time, params, before[i as int])
            &&& forall|m: int|
                0 <= m < before.len() && m != i && m != j ==> #[trigger] after[m] == before[m]
        },
        Collision::Wall(i, wall) => after =~= before,
    }
}

/// `chain` holds the statuses before the first event, between each two
/// events and after the last, each step being what the answer to its event
/// can make of the statuses.
pub open spec fn contacts_chain(
    params: Params,
    time: i64,
    events: Seq<Collision>,
    chain: Seq<Seq<Status>>,
) -> bool {
    &&& chain.len() == events.len() + 1
    &&& forall|k: int|
        0 <= k < events.len() ==> contact_step(
            params,
            time,
            events[k],
            #[trigger] chain[k],
            chain[k + 1],
        )
}

/// The agents `after` are the agents `before` once the events have been
/// answered at `time`: nobody has moved; the velocities are those that the
/// responses give, in the order of the list; the statuses come out of the
/// contacts of the pair events, in the order of the list. So each status is
/// what contacts can make of it, and where nobody is infected, or no contact
/// can transmit, or an agent has no part in a pair event, the status is as it
/// was.
pub open spec fn struck(
    before: Seq<Person>,
    after: Seq<Person>,
    events: Seq<Collision>,
    space: Space,
    params: Params,
    time: i64,
) -> bool {
    &&& after.len() == before.len()
    &&& positions_of(after) =~= positions_of(before)
    &&& velocities_of(after) =~= velocities_after(
        space,
        positions_of(before),
        velocities_of(before),
        events,
    )
    &&& exists|chain: Seq<Seq<Status>>|
        {
            &&& #[trigger] contacts_chain(params, time, events, chain)
            &&& chain[0] =~= statuses_of(before)
            &&& chain[events.len() as int] =~= statuses_of(after)
        }
    &&& forall|i: int|
        0 <= i < before.len() ==> exposed(*before[i].status(), *(#[trigger] after[i]).status(), time)
    &&& nobody_infected(before) ==> same_statuses(before, after)
    &&& params.transmission_free() ==> same_statuses(before, after)
    &&& forall|i: int|
        0 <= i < before.len() && uninvolved(events, i) ==> (#[trigger] after[i]).status()
            == before[i].status()
}

/// A contact that can happen keeps a status within what contacts can make of
/// it, and leaves it alone if the source is healthy or nothing transmits.
pub proof fn lemma_contact_exposes(
    before: Status,
    after: Status,
    time: i64,
    params: Params,
    source: Status,
)
    requires
        contact_possible(before, after, time, params, source),
    ensures
        exposed(before, after, time),
        source.infected() is None ==> after == before,
        params.transmission_free() ==> after == before,
{
    let d = choose|d: int|
        0 <= d < DRAW_RANGE && #[trigger] contact_outcome(
            before,
            after,
            time,
            params,
            source,
            d,
        );
    if source.infected() is None || params.transmission_free() {
        assert(after.infected() == before.infected());
        Status::lemma_determined(after, before);
    }
}

/// What the answer to a single pair event makes of the agents. The two
/// agents of the pair leave with the velocities of their rebound and
/// everybody else with the velocity it had; the two do not approach each
/// other any more; each has had contact with the other as the other was
/// before, so that two healthy agents stay as they are. Where no velocity
/// saturates, the sum of the two velocities is as it was, and the sum of
/// their squared speeds is as it was up to the rounding of the impulse.
pub proof fn lemma_single_pair(
    before: Seq<Person>,
    after: Seq<Person>,
    i: usize,
    j: usize,
    space: Space,
    params: Params,
    time: i64,
)
    requires
        i < before.len(),
        j < before.len(),
        i != j,
        struck(before, after, seq![Collision::People(i, j)], space, params, time),
    ensures
        ({
            let a = before[i as int];
            let b = before[j as int];
            let a2 = after[i as int];
            let b2 = after[j as int];
            &&& a2.pos() == a.pos()
            &&& b2.pos() == b.pos()
            &&& (a2.vel(), b2.vel()) == rebound(space, a.pos(), a.vel(), b.pos(), b.vel())
            &&& forall|m: int|
                0 <= m < before.len() && m != i && m != j ==> (#[trigger] after[m]).vel()
                    == before[m].vel()
            &&& closing(space, a2.pos(), a2.vel(), b2.pos(), b2.vel()) <= 0
            &&& contact_possible(*a.status(), *a2.status(), time, params, *b.status())
            &&& contact_possible(*b.status(), *b2.status(), time, params, *a.status())
            &&& a.status().infected() is None && b.status().infected() is None ==> a2.status()
                == a.status() && b2.status() == b.status()
            &&& rebound_exact(space, a.pos(), a.vel(), b.pos(), b.vel()) ==> {
                &&& a2.vel().x + b2.vel().x == a.vel().x + b.vel().x
                &&& a2.vel().y + b2.vel().y == a.vel().y + b.vel().y
                &&& -2 * relative_speed(a.vel(), b.vel()) <= energy(a2.vel(), b2.vel()) - energy(
                    a.vel(),
                    b.vel(),
                ) <= 10 * relative_speed(a.vel(), b.vel()) + 4
            }
        }),
{
    let event = Collision::People(i, j);
    let events = seq![event];
    let a = before[i as int];
    let b = before[j as int];
    let places = positions_of(before);
    let speeds = velocities_of(before);
    // The velocities: one response to the velocities as they were.
    assert(events.drop_last() =~= Seq::<Collision>::empty());
    assert(events.last() == event);
    assert(velocities_after(space, places, speeds, events.drop_last()) == speeds);
    assert(velocities_after(space, places, speeds, events) == velocities_after_event(
        space,
        places,
        speeds,
        event,
    ));
    let r = rebound(space, a.pos(), a.vel(), b.pos(), b.vel());
    assert(places[i as int] == a.pos() && places[j as int] == b.pos());
    assert(speeds[i as int] == a.vel() && speeds[j as int] == b.vel());
    assert(velocities_of(after)[i as int] == after[i as int].vel());
    assert(velocities_of(after)[j as int] == after[j as int].vel());
    assert(positions_of(after)[i as int] == after[i as int].pos());
    assert(positions_of(after)[j as int] == after[j as int].pos());
    assert forall|m: int| 0 <= m < before.len() && m != i && m != j implies (#[trigger] after[m]).vel()
        == before[m].vel() by {
        assert(velocities_of(after)[m] == after[m].vel());
        assert(speeds[m] == before[m].vel());
    }
    lemma_rebound_separates(space, a.pos(), a.vel(), b.pos(), b.vel());
    if rebound_exact(space, a.pos(), a.vel(), b.pos(), b.vel()) {
        lemma_rebound_conserves_momentum(space, a.pos(), a.vel(), b.pos(), b.vel());
        lemma_rebound_nearly_conserves_energy(space, a.pos(), a.vel(), b.pos(), b.vel());
    }
    // The statuses: one step of the chain.
    let chain = choose|chain: Seq<Seq<Status>>|
        {
            &&& #[trigger] contacts_chain(params, time, events, chain)
            &&& chain[0] =~= statuses_of(before)
            &&& chain[events.len() as int] =~= statuses_of(after)
        };
    assert(contact_step(params, time, events[0], chain[0], chain[1]));
    assert(statuses_of(before)[i as int] == *a.status());
    assert(statuses_of(before)[j as int] == *b.status());
    assert(statuses_of(after)[i as int] == *after[i as int].status());
    assert(statuses_of(after)[j as int] == *after[j as int].status());
    lemma_contact_exposes(
        *a.status(),
        *after[i as int].status(),
        time,
        params,
        *b.status(),
    );
    lemma_contact_exposes(
        *b.status(),
        *after[j as int].status(),
        time,
        params,
        *a.status(),
    );
}

} // verus!
