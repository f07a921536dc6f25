//! Finding the collisions of one step: the agents are sorted along each axis,
//! and each sorted order is swept for neighbours that overlap.

use vstd::prelude::*;
use std::collections::HashSet;
use super::collision::{touches, Collision, Wall};
use super::fixed::magnitude;
use super::indices::{arranges, identity_order, lemma_rearranged};
use super::person::{Person, RADIUS};
use super::space::{
    lemma_far_along,
    lemma_overlapping_symmetric,
    Axis,
    Space,
    Topology,
    Vec2,
    DIAMETER,
};

verus! {

/// The event describes the agents as they stand: the two agents of a pair
/// overlap, the smaller index first; the agent of a wall event touches the
/// wall.
pub open spec fn event_holds(people: Seq<Person>, space: Space, e: Collision) -> bool {
    match e {
        Collision::People(i, j) => {
            &&& i < j < people.len()
            &&& space.overlapping(people[i as int].pos(), people[j as int].pos())
        },
        Collision::Wall(i, wall) => {
            &&& i < people.len()
            &&& touches(space, people[i as int].pos(), wall)
        },
    }
}

/// The events are the collisions among the agents: each event holds, each
/// collision that holds is listed, and none is listed twice.
pub open spec fn is_collision_list(people: Seq<Person>, space: Space, events: Seq<Collision>) -> bool {
    &&& events.no_duplicates()
    &&& forall|k: int| 0 <= k < events.len() ==> event_holds(people, space, #[trigger] events[k])
    &&& forall|e: Collision| #[trigger] event_holds(people, space, e) ==> events.contains(e)
}

/// The pair event of two different agents, the smaller index first.
pub open spec fn canonical(i: usize, j: usize) -> Collision {
    if i < j {
        Collision::People(i, j)
    } else {
        Collision::People(j, i)
    }
}

/// The number under which a pair is remembered once it is listed.
pub open spec fn pair_key(i: usize, j: usize) -> int {
    i * 0x1_0000_0000_0000_0000 + j
}

/// The coordinate along `axis` of the agent with index `i`.
pub open spec fn key_of(people: Seq<Person>, i: int, axis: Axis) -> i64 {
    people[i].pos().along(axis)
}

/// Along `order` the coordinates along `axis` do not decrease.
pub open spec fn sorted_along(people: Seq<Person>, order: Seq<usize>, axis: Axis) -> bool {
    forall|a: int, b: int|
        #![trigger order[a], order[b]]
        0 <= a <= b < order.len() ==> key_of(people, order[a] as int, axis) <= key_of(
            people,
            order[b] as int,
            axis,
        )
}

/// Every agent lies in the box.
pub open spec fn all_inside(people: Seq<Person>, space: Space) -> bool {
    forall|i: int| 0 <= i < people.len() ==> space.contains(#[trigger] people[i].pos())
}

/// The pairs remembered in `seen` are the pair events listed in `events`.
pub open spec fn registered(seen: Set<u128>, events: Seq<Collision>) -> bool {
    forall|i: usize, j: usize|
        #![trigger pair_key(i, j)]
        i < j ==> (seen.contains(pair_key(i, j) as u128) <==> events.contains(
            Collision::People(i, j),
        ))
}

/// What holds of the events listed so far and of the pairs remembered.
pub open spec fn tidy(
    people: Seq<Person>,
    space: Space,
    seen: Set<u128>,
    events: Seq<Collision>,
) -> bool {
    &&& events.no_duplicates()
    &&& forall|k: int| 0 <= k < events.len() ==> event_holds(people, space, #[trigger] events[k])
    &&& registered(seen, events)
}

/// Every event of `before` is an event of `after`.
pub open spec fn kept(before: Seq<Collision>, after: Seq<Collision>) -> bool {
    forall|e: Collision| #[trigger] before.contains(e) ==> after.contains(e)
}

/// Every pair of agents that overlap is listed.
pub open spec fn pairs_complete(people: Seq<Person>, space: Space, events: Seq<Collision>) -> bool {
    forall|i: usize, j: usize|
        #![trigger events.contains(Collision::People(i, j))]
        i < j < people.len() && space.overlapping(people[i as int].pos(), people[j as int].pos())
            ==> events.contains(Collision::People(i, j))
}

/// A sequence without duplicates stays so when a new element is appended.
proof fn lemma_push_fresh(s: Seq<Collision>, x: Collision)
    requires
        s.no_duplicates(),
        !s.contains(x),
    ensures
        s.push(x).no_duplicates(),
{
    assert forall|i: int, j: int|
        0 <= i < s.push(x).len() && 0 <= j < s.push(x).len() && i != j implies s.push(x)[i]
        != s.push(x)[j] by {
        if i < s.len() && j < s.len() {
        } else if i < s.len() {
            assert(s.contains(s[i]));
        } else {
            assert(s.contains(s[j]));
        }
    }
}

/// The coordinate along `axis` of the agent with index `i`.
fn coordinate_of(people: &Vec<Person>, i: usize, axis: Axis) -> (c: i64)
    requires
        i < people@.len(),
    ensures
        c == key_of(people@, i as int, axis),
{
    people[i].pos().coordinate(axis)
}

/// Calls `sort_by_key` of the standard library's slices, with the coordinate
/// of an agent along `axis` as the key of its index. Claimed: the vector
/// afterwards holds the same indices, each as often as before, in an order
/// along which the keys do not decrease. The precondition keeps every index
/// within the agents, so that the key function does not panic.
#[verifier::external_body]
fn sort_along(order: &mut Vec<usize>, people: &Vec<Person>, axis: Axis)
    requires
        forall|k: int| 0 <= k < old(order)@.len() ==> old(order)@[k] < people@.len(),
    ensures
        final(order)@.to_multiset() == old(order)@.to_multiset(),
        sorted_along(people@, final(order)@, axis),
{
    order.sort_by_key(|i| coordinate_of(people, *i, axis));
}

/// The indices of the agents, sorted by their coordinate along `axis`.
fn sorted_order(people: &Vec<Person>, axis: Axis) -> (order: Vec<usize>)
    ensures
        arranges(order@, people@.len() as nat),
        sorted_along(people@, order@, axis),
{
    let mut order: Vec<usize> = identity_order(people.len());
    let ghost start = order@;
    sort_along(&mut order, people, axis);
    proof {
        lemma_rearranged(order@, start, people@.len() as nat);
    }
    order
}

/// Lists the pair of the overlapping agents `i` and `j`, unless it is listed
/// already.
fn record_pair(
    people: &Vec<Person>,
    space: &Space,
    i: usize,
    j: usize,
    seen: &mut HashSet<u128>,
    events: &mut Vec<Collision>,
)
    requires
        i != j,
        i < people@.len(),
        j < people@.len(),
        space.wf(),
        space.overlapping(people@[i as int].pos(), people@[j as int].pos()),
        tidy(people@, *space, old(seen)@, old(events)@),
    ensures
        tidy(people@, *space, final(seen)@, final(events)@),
        final(events)@.contains(canonical(i, j)),
        kept(old(events)@, final(events)@),
{
    broadcast use vstd::seq_lib::group_seq_properties;

    let low: usize = if i < j {
        i
    } else {
        j
    };
    let high: usize = if i < j {
        j
    } else {
        i
    };
    proof {
        lemma_overlapping_symmetric(*space, people@[i as int].pos(), people@[j as int].pos());
    }
    let key: u128 = low as u128 * 0x1_0000_0000_0000_0000 + high as u128;
    assert(key == pair_key(low, high));
    if !seen.contains(&key) {
        let ghost before = events@;
        let ghost seen_before = seen@;
        seen.insert(key);
        events.push(Collision::People(low, high));
        proof {
            lemma_push_fresh(before, Collision::People(low, high));
            assert forall|a: usize, b: usize| #![trigger pair_key(a, b)] a < b implies (
            seen@.contains(pair_key(a, b) as u128) <==> events@.contains(
                Collision::People(a, b),
            )) by {
                assert(seen_before.contains(pair_key(a, b) as u128) <==> before.contains(
                    Collision::People(a, b),
                ));
                if pair_key(a, b) == pair_key(low, high) {
                    assert(a == low && b == high);
                }
            }
            assert forall|k: int| 0 <= k < events@.len() implies event_holds(
                people@,
                *space,
                #[trigger] events@[k],
            ) by {
                if k < before.len() {
                    assert(events@[k] == before[k]);
                }
            }
        }
    }
}

/// Sweeps a bounded box along one axis: each agent is compared with those
/// that follow it in the sorted order, until one that does not overlap it is
/// more than a diameter ahead.
fn sweep_bounded(
    people: &Vec<Person>,
    space: &Space,
    order: &Vec<usize>,
    axis: Axis,
    seen: &mut HashSet<u128>,
    events: &mut Vec<Collision>,
)
    requires
        space.wf(),
        space.topology == Topology::Bounded,
        arranges(order@, people@.len() as nat),
        sorted_along(people@, order@, axis),
        tidy(people@, *space, old(seen)@, old(events)@),
    ensures
        tidy(people@, *space, final(seen)@, final(events)@),
        kept(old(events)@, final(events)@),
        pairs_complete(people@, *space, final(events)@),
{
    let n: usize = order.len();
    let mut a: usize = 0;
    while a < n
        invariant
            a <= n,
            n == order@.len(),
            n == people@.len(),
            space.wf(),
            space.topology == Topology::Bounded,
            arranges(order@, people@.len() as nat),
            sorted_along(people@, order@, axis),
            tidy(people@, *space, seen@, events@),
            kept(old(events)@, events@),
            forall|a2: int, b2: int|
                #![trigger order@[a2], order@[b2]]
                0 <= a2 < a && a2 < b2 < n && space.overlapping(
                    people@[order@[a2] as int].pos(),
                    people@[order@[b2] as int].pos(),
                ) ==> events@.contains(canonical(order@[a2], order@[b2])),
        decreases n - a,
    {
        let i: usize = order[a];
        let mut b: usize = a + 1;
        while b < n
            invariant_except_break
                a < b <= n,
            invariant
                a < n,
                n == order@.len(),
                n == people@.len(),
                i == order@[a as int],
                space.wf(),
                space.topology == Topology::Bounded,
                arranges(order@, people@.len() as nat),
                sorted_along(people@, order@, axis),
                tidy(people@, *space, seen@, events@),
                kept(old(events)@, events@),
                forall|a2: int, b2: int|
                    #![trigger order@[a2], order@[b2]]
                    0 <= a2 < a && a2 < b2 < n && space.overlapping(
                        people@[order@[a2] as int].pos(),
                        people@[order@[b2] as int].pos(),
                    ) ==> events@.contains(canonical(order@[a2], order@[b2])),
                forall|b2: int|
                    #![trigger order@[b2]]
                    a < b2 < b && space.overlapping(
                        people@[i as int].pos(),
                        people@[order@[b2] as int].pos(),
                    ) ==> events@.contains(canonical(i, order@[b2])),
            ensures
                forall|b2: int|
                    #![trigger order@[b2]]
                    a < b2 < n && space.overlapping(
                        people@[i as int].pos(),
                        people@[order@[b2] as int].pos(),
                    ) ==> events@.contains(canonical(i, order@[b2])),
            decreases n - b,
        {
            let j: usize = order[b];
            assert(order@[a as int] != order@[b as int]);
            let ghost listed = events@;
            if people[i].overlaps(&people[j], space) {
                record_pair(people, space, i, j, seen, events);
            } else {
                let ahead: i128 = coordinate_of(people, j, axis) as i128 - coordinate_of(
                    people,
                    i,
                    axis,
                ) as i128;
                if ahead > DIAMETER as i128 {
                    proof {
                        assert forall|b2: int| #![trigger order@[b2]] b <= b2 < n implies !space.overlapping(
                            people@[i as int].pos(),
                            people@[order@[b2] as int].pos(),
                        ) by {
                            assert(key_of(people@, order@[b as int] as int, axis) <= key_of(
                                people@,
                                order@[b2] as int,
                                axis,
                            ));
                            lemma_far_along(
                                *space,
                                people@[i as int].pos(),
                                people@[order@[b2] as int].pos(),
                                axis,
                            );
                        }
                    }
                    break ;
                }
            }
            proof {
                assert(kept(listed, events@));
            }
            b += 1;
        }
        a += 1;
    }
    proof {
        assert forall|i: usize, j: usize|
            #![trigger events@.contains(Collision::People(i, j))]
            i < j < people@.len() && space.overlapping(
                people@[i as int].pos(),
                people@[j as int].pos(),
            ) implies events@.contains(Collision::People(i, j)) by {
            assert(order@.contains(i));
            assert(order@.contains(j));
            let a2 = choose|k: int| 0 <= k < order@.len() && order@[k] == i;
            let b2 = choose|k: int| 0 <= k < order@.len() && order@[k] == j;
            lemma_overlapping_symmetric(*space, people@[i as int].pos(), people@[j as int].pos());
            if a2 < b2 {
                assert(events@.contains(canonical(order@[a2], order@[b2])));
            } else {
                assert(events@.contains(canonical(order@[b2], order@[a2])));
            }
        }
    }
}

/// The distance from the agent at place `a2` of `order` forward to the one at
/// place `b2`, along the axis and round the torus.
pub open spec fn forward(
    people: Seq<Person>,
    space: Space,
    order: Seq<usize>,
    axis: Axis,
    a2: int,
    b2: int,
) -> int {
    (key_of(people, order[b2] as int, axis) - key_of(people, order[a2] as int, axis)) % (
    space.extent(axis) as int)
}

/// The number of steps from place `a` forward to place `b`, round the end of
/// an order of length `n`.
pub open spec fn steps_to(a: int, b: int, n: int) -> int {
    if b > a {
        b - a
    } else {
        b + n - a
    }
}

/// The forward distance between two coordinates in the box.
proof fn lemma_forward_gap(u: int, v: int, size: int)
    requires
        0 <= u < size,
        0 <= v < size,
    ensures
        (v - u) % size == if v >= u {
            v - u
        } else {
            v - u + size
        },
{
    if v >= u {
        vstd::arithmetic::div_mod::lemma_fundamental_div_mod_converse(v - u, size, 0, v - u);
    } else {
        vstd::arithmetic::div_mod::lemma_fundamental_div_mod_converse(
            v - u,
            size,
            -1,
            v - u + size,
        );
    }
}

/// Sweeps a torus along one axis: each agent is compared with those that
/// follow it in the sorted order, round the end of the order, until one that
/// does not overlap it is more than a diameter away along the axis.
fn sweep_toroidal(
    people: &Vec<Person>,
    space: &Space,
    order: &Vec<usize>,
    axis: Axis,
    seen: &mut HashSet<u128>,
    events: &mut Vec<Collision>,
)
    requires
        space.wf(),
        space.topology == Topology::Toroidal,
        all_inside(people@, *space),
        arranges(order@, people@.len() as nat),
        sorted_along(people@, order@, axis),
        tidy(people@, *space, old(seen)@, old(events)@),
    ensures
        tidy(people@, *space, final(seen)@, final(events)@),
        kept(old(events)@, final(events)@),
        pairs_complete(people@, *space, final(events)@),
{
    let n: usize = order.len();
    let size: i64 = space.side(axis);
    let mut a: usize = 0;
    while a < n
        invariant
            a <= n,
            n == order@.len(),
            n == people@.len(),
            size == space.extent(axis),
            space.wf(),
            space.topology == Topology::Toroidal,
            all_inside(people@, *space),
            arranges(order@, people@.len() as nat),
            sorted_along(people@, order@, axis),
            tidy(people@, *space, seen@, events@),
            kept(old(events)@, events@),
            forall|a2: int, b2: int|
                #![trigger order@[a2], order@[b2]]
                0 <= a2 < a && 0 <= b2 < n && a2 != b2 && space.overlapping(
                    people@[order@[a2] as int].pos(),
                    people@[order@[b2] as int].pos(),
                ) && forward(people@, *space, order@, axis, a2, b2) < DIAMETER
                    ==> events@.contains(canonical(order@[a2], order@[b2])),
        decreases n - a,
    {
        let i: usize = order[a];
        let here: i64 = coordinate_of(people, i, axis);
        let mut step: usize = 1;
        while step < n
            invariant_except_break
                1 <= step <= n,
            invariant
                a < n,
                n == order@.len(),
                n == people@.len(),
                size == space.extent(axis),
                i == order@[a as int],
                here == key_of(people@, i as int, axis),
                space.wf(),
                space.topology == Topology::Toroidal,
                all_inside(people@, *space),
                arranges(order@, people@.len() as nat),
                sorted_along(people@, order@, axis),
                tidy(people@, *space, seen@, events@),
                kept(old(events)@, events@),
                forall|a2: int, b2: int|
                    #![trigger order@[a2], order@[b2]]
                    0 <= a2 < a && 0 <= b2 < n && a2 != b2 && space.overlapping(
                        people@[order@[a2] as int].pos(),
                        people@[order@[b2] as int].pos(),
                    ) && forward(people@, *space, order@, axis, a2, b2) < DIAMETER
                        ==> events@.contains(canonical(order@[a2], order@[b2])),
                forall|b2: int|
                    #![trigger order@[b2]]
                    0 <= b2 < n && b2 != a && steps_to(a as int, b2, n as int) < step
                        && space.overlapping(
                        people@[i as int].pos(),
                        people@[order@[b2] as int].pos(),
                    ) ==> events@.contains(canonical(i, order@[b2])),
            ensures
                forall|b2: int|
                    #![trigger order@[b2]]
                    0 <= b2 < n && b2 != a && space.overlapping(
                        people@[i as int].pos(),
                        people@[order@[b2] as int].pos(),
                    ) && forward(people@, *space, order@, axis, a as int, b2) < DIAMETER
                        ==> events@.contains(canonical(i, order@[b2])),
            decreases n - step,
        {
            let b: usize = if step >= n - a {
                step - (n - a)
            } else {
                a + step
            };
            assert(steps_to(a as int, b as int, n as int) == step);
            let j: usize = order[b];
            assert(order@[a as int] != order@[b as int]);
            let ghost listed = events@;
            if people[i].overlaps(&people[j], space) {
                record_pair(people, space, i, j, seen, events);
            } else {
                let there: i64 = coordinate_of(people, j, axis);
                let away: i128 = space.axis_offset(here, there, size);
                if away > DIAMETER as i128 || away < -(DIAMETER as i128) {
                    proof {
                        assert(space.contains(people@[i as int].pos()));
                        assert(space.contains(people@[j as int].pos()));
                        lemma_forward_gap(here as int, there as int, size as int);
                        assert forall|b2: int|
                            #![trigger order@[b2]]
                            0 <= b2 < n && b2 != a && space.overlapping(
                                people@[i as int].pos(),
                                people@[order@[b2] as int].pos(),
                            ) && forward(people@, *space, order@, axis, a as int, b2)
                                < DIAMETER implies events@.contains(canonical(i, order@[b2])) by {
                            let other = key_of(people@, order@[b2] as int, axis);
                            assert(space.contains(people@[order@[b2] as int].pos()));
                            lemma_forward_gap(here as int, other as int, size as int);
                            if steps_to(a as int, b2, n as int) < step {
                            } else if b2 > a {
                                assert(key_of(people@, order@[b as int] as int, axis) <= key_of(
                                    people@,
                                    order@[b2] as int,
                                    axis,
                                ));
                                assert(key_of(people@, order@[a as int] as int, axis) <= key_of(
                                    people@,
                                    order@[b as int] as int,
                                    axis,
                                ));
                            } else if other == here {
                                lemma_forward_gap(other as int, here as int, size as int);
                                lemma_overlapping_symmetric(
                                    *space,
                                    people@[i as int].pos(),
                                    people@[order@[b2] as int].pos(),
                                );
                                assert(events@.contains(canonical(order@[b2], order@[a as int])));
                            } else {
                                assert(key_of(people@, order@[b2] as int, axis) <= key_of(
                                    people@,
                                    order@[a as int] as int,
                                    axis,
                                ));
                                if b > a {
                                    assert(key_of(people@, order@[a as int] as int, axis)
                                        <= key_of(people@, order@[b as int] as int, axis));
                                } else {
                                    assert(key_of(people@, order@[b as int] as int, axis)
                                        <= key_of(people@, order@[b2] as int, axis));
                                }
                            }
                        }
                    }
                    break ;
                }
            }
            proof {
                assert(kept(listed, events@));
            }
            step += 1;
        }
        a += 1;
    }
    proof {
        assert forall|i: usize, j: usize|
            #![trigger events@.contains(Collision::People(i, j))]
            i < j < people@.len() && space.overlapping(
                people@[i as int].pos(),
                people@[j as int].pos(),
            ) implies events@.contains(Collision::People(i, j)) by {
            assert(order@.contains(i));
            assert(order@.contains(j));
            let a2 = choose|k: int| 0 <= k < order@.len() && order@[k] == i;
            let b2 = choose|k: int| 0 <= k < order@.len() && order@[k] == j;
            let pi = people@[i as int].pos();
            let pj = people@[j as int].pos();
            assert(space.contains(pi));
            assert(space.contains(pj));
            lemma_overlapping_symmetric(*space, pi, pj);
            if magnitude(space.gap(pi, pj, axis)) >= DIAMETER {
                lemma_far_along(*space, pi, pj, axis);
            }
            lemma_forward_gap(pi.along(axis) as int, pj.along(axis) as int, size as int);
            lemma_forward_gap(pj.along(axis) as int, pi.along(axis) as int, size as int);
            if forward(people@, *space, order@, axis, a2, b2) < DIAMETER {
                assert(events@.contains(canonical(order@[a2], order@[b2])));
            } else {
                assert(forward(people@, *space, order@, axis, b2, a2) < DIAMETER);
                assert(events@.contains(canonical(order@[b2], order@[a2])));
            }
        }
    }
}

/// The axis that is perpendicular to `wall`.
pub open spec fn axis_across(wall: Wall) -> Axis {
    match wall {
        Wall::Left => Axis::X,
        Wall::Right => Axis::X,
        Wall::Top => Axis::Y,
        Wall::Bottom => Axis::Y,
    }
}

/// The wall lies where the coordinates are small.
pub open spec fn at_low_end(wall: Wall) -> bool {
    wall == Wall::Left || wall == Wall::Top
}

/// The place in the sorted order that the scan for `wall` visits as its
/// `k`-th: from the start for a wall at the low end, from the end otherwise.
pub open spec fn place(wall: Wall, k: int, n: int) -> int {
    if at_low_end(wall) {
        k
    } else {
        n - 1 - k
    }
}

/// No pair event is listed.
pub open spec fn only_walls(events: Seq<Collision>) -> bool {
    forall|k: int| 0 <= k < events.len() ==> #[trigger] events[k] is Wall
}

/// No event of `wall` is listed.
pub open spec fn without_wall(events: Seq<Collision>, wall: Wall) -> bool {
    forall|k: int| 0 <= k < events.len() ==> (#[trigger] events[k])->Wall_1 != wall
}

/// Every agent that touches `wall` is listed with it.
pub open spec fn wall_complete(
    people: Seq<Person>,
    space: Space,
    events: Seq<Collision>,
    wall: Wall,
) -> bool {
    forall|i: usize|
        #![trigger events.contains(Collision::Wall(i, wall))]
        i < people.len() && touches(space, people[i as int].pos(), wall) ==> events.contains(
            Collision::Wall(i, wall),
        )
}

/// Whether an agent centred at `p` touches `wall` of a bounded box.
fn touching(space: &Space, p: Vec2, wall: Wall) -> (r: bool)
    requires
        space.wf(),
        space.topology == Topology::Bounded,
    ensures
        r == touches(*space, p, wall),
{
    match wall {
        Wall::Left => p.x < RADIUS,
        Wall::Right => p.x > space.size_x - RADIUS,
        Wall::Top => p.y < RADIUS,
        Wall::Bottom => p.y > space.size_y - RADIUS,
    }
}

/// Lists the agents that touch `wall`: the order sorted across the wall is
/// scanned from the wall's end for as long as the agents touch it.
fn scan_wall(
    people: &Vec<Person>,
    space: &Space,
    order: &Vec<usize>,
    wall: Wall,
    events: &mut Vec<Collision>,
)
    requires
        space.wf(),
        space.topology == Topology::Bounded,
        arranges(order@, people@.len() as nat),
        sorted_along(people@, order@, axis_across(wall)),
        old(events)@.no_duplicates(),
        only_walls(old(events)@),
        without_wall(old(events)@, wall),
        forall|k: int|
            0 <= k < old(events)@.len() ==> event_holds(people@, *space, #[trigger] old(events)@[k]),
    ensures
        final(events)@.no_duplicates(),
        only_walls(final(events)@),
        forall|k: int|
            0 <= k < final(events)@.len() ==> event_holds(
                people@,
                *space,
                #[trigger] final(events)@[k],
            ),
        kept(old(events)@, final(events)@),
        wall_complete(people@, *space, final(events)@, wall),
        forall|other: Wall|
            other != wall && without_wall(old(events)@, other) ==> without_wall(
                final(events)@,
                other,
            ),
{
    broadcast use vstd::seq_lib::group_seq_properties;

    let n: usize = order.len();
    let low: bool = match wall {
        Wall::Left => true,
        Wall::Right => false,
        Wall::Top => true,
        Wall::Bottom => false,
    };
    let ghost axis = axis_across(wall);
    let ghost start = events@.len();
    let mut k: usize = 0;
    while k < n
        invariant_except_break
            k <= n,
        invariant
            n == order@.len(),
            n == people@.len(),
            low == at_low_end(wall),
            axis == axis_across(wall),
            space.wf(),
            space.topology == Topology::Bounded,
            arranges(order@, people@.len() as nat),
            sorted_along(people@, order@, axis),
            events@.no_duplicates(),
            only_walls(events@),
            forall|m: int|
                0 <= m < events@.len() ==> event_holds(people@, *space, #[trigger] events@[m]),
            kept(old(events)@, events@),
            without_wall(old(events)@, wall),
            start == old(events)@.len(),
            start <= events@.len(),
            events@.len() - start <= k,
            forall|m: int| 0 <= m < start ==> events@[m] == old(events)@[m],
            forall|m: int|
                start <= m < events@.len() ==> #[trigger] events@[m] == Collision::Wall(
                    order@[place(wall, m - start, n as int)],
                    wall,
                ),
            forall|k2: int|
                #![trigger order@[place(wall, k2, n as int)]]
                0 <= k2 < k ==> events@.contains(
                    Collision::Wall(order@[place(wall, k2, n as int)], wall),
                ),
        ensures
            forall|k2: int|
                #![trigger order@[place(wall, k2, n as int)]]
                0 <= k2 < n && touches(
                    *space,
                    people@[order@[place(wall, k2, n as int)] as int].pos(),
                    wall,
                ) ==> events@.contains(Collision::Wall(order@[place(wall, k2, n as int)], wall)),
        decreases n - k,
    {
        let at: usize = if low {
            k
        } else {
            n - 1 - k
        };
        assert(at == place(wall, k as int, n as int));
        let i: usize = order[at];
        if touching(space, people[i].pos(), wall) {
            let ghost before = events@;
            proof {
                let fresh = Collision::Wall(i, wall);
                if before.contains(fresh) {
                    let m = choose|m: int| 0 <= m < before.len() && before[m] == fresh;
                    if m < start {
                        assert(old(events)@[m]->Wall_1 != wall);
                    } else {
                        assert(order@[place(wall, m - start, n as int)] == order@[at as int]);
                    }
                }
                lemma_push_fresh(before, fresh);
            }
            events.push(Collision::Wall(i, wall));
            proof {
                assert forall|e: Collision| #[trigger] before.contains(e) implies events@.contains(
                    e,
                ) by {
                    let m = choose|m: int| 0 <= m < before.len() && before[m] == e;
                    assert(events@[m] == e);
                }
                assert(events@[before.len() as int] == Collision::Wall(i, wall));
                assert forall|k2: int|
                    #![trigger order@[place(wall, k2, n as int)]]
                    0 <= k2 < k + 1 implies events@.contains(
                    Collision::Wall(order@[place(wall, k2, n as int)], wall),
                ) by {
                    if k2 < k {
                        assert(before.contains(
                            Collision::Wall(order@[place(wall, k2, n as int)], wall),
                        ));
                    }
                }
                assert forall|m: int| 0 <= m < events@.len() implies event_holds(
                    people@,
                    *space,
                    #[trigger] events@[m],
                ) by {
                    if m < before.len() {
                        assert(events@[m] == before[m]);
                    }
                }
                assert(only_walls(events@)) by {
                    assert forall|m: int| 0 <= m < events@.len() implies #[trigger] events@[m]
                        is Wall by {
                        if m < before.len() {
                            assert(events@[m] == before[m]);
                        }
                    }
                }
                assert forall|m: int| start <= m < events@.len() implies #[trigger] events@[m]
                    == Collision::Wall(order@[place(wall, m - start, n as int)], wall) by {
                    if m < before.len() {
                        assert(events@[m] == before[m]);
                    } else {
                        // Every agent visited so far was listed.
                        assert(before.len() - start == k) by {
                            if before.len() - start < k {
                                let gone = before.len() - start;
                                assert(before.contains(
                                    Collision::Wall(order@[place(wall, gone, n as int)], wall),
                                ));
                                let w = choose|w: int|
                                    0 <= w < before.len() && before[w] == Collision::Wall(
                                        order@[place(wall, gone, n as int)],
                                        wall,
                                    );
                                if w < start {
                                    assert(old(events)@[w]->Wall_1 != wall);
                                } else {
                                    assert(order@[place(wall, w - start, n as int)]
                                        == order@[place(wall, gone, n as int)]);
                                }
                            }
                        }
                    }
                }
            }
        } else {
            proof {
                assert forall|k2: int|
                    #![trigger order@[place(wall, k2, n as int)]]
                    k <= k2 < n implies !touches(
                    *space,
                    people@[order@[place(wall, k2, n as int)] as int].pos(),
                    wall,
                ) by {
                    if low {
                        assert(key_of(people@, order@[at as int] as int, axis) <= key_of(
                            people@,
                            order@[place(wall, k2, n as int)] as int,
                            axis,
                        ));
                    } else {
                        assert(key_of(people@, order@[place(wall, k2, n as int)] as int, axis)
                            <= key_of(people@, order@[at as int] as int, axis));
                    }
                }
            }
            break ;
        }
        k += 1;
    }
    proof {
        assert forall|i: usize|
            #![trigger events@.contains(Collision::Wall(i, wall))]
            i < people@.len() && touches(*space, people@[i as int].pos(), wall) implies events@.contains(
            Collision::Wall(i, wall),
        ) by {
            assert(order@.contains(i));
            let at = choose|at: int| 0 <= at < order@.len() && order@[at] == i;
            let k2 = place(wall, at, n as int);
            assert(place(wall, k2, n as int) == at);
        }
        assert forall|other: Wall|
            other != wall && without_wall(old(events)@, other) implies without_wall(
            events@,
            other,
        ) by {
            assert forall|m: int| 0 <= m < events@.len() implies (#[trigger] events@[m])->Wall_1
                != other by {
                if m < start {
                    assert(events@[m] == old(events)@[m]);
                }
            }
        }
    }
}

/// Finds the collisions among `people`: every pair of agents that overlap,
/// once and with the smaller index first, and, in a bounded box, every agent
/// within a radius of a wall, once for each wall it touches.
pub fn find_collisions(people: &Vec<Person>, space: &Space) -> (events: Vec<Collision>)
    requires
        space.wf(),
        space.topology == Topology::Toroidal ==> all_inside(people@, *space),
    ensures
        is_collision_list(people@, *space, events@),
{
    broadcast use vstd::seq_lib::group_seq_properties;

    let order_x: Vec<usize> = sorted_order(people, Axis::X);
    let order_y: Vec<usize> = sorted_order(people, Axis::Y);
    let mut events: Vec<Collision> = Vec::new();
    let mut seen: HashSet<u128> = HashSet::new();
    match space.topology {
        Topology::Bounded => {
            scan_wall(people, space, &order_x, Wall::Left, &mut events);
            let ghost with_left = events@;
            scan_wall(people, space, &order_x, Wall::Right, &mut events);
            let ghost with_right = events@;
            scan_wall(people, space, &order_y, Wall::Top, &mut events);
            let ghost with_top = events@;
            scan_wall(people, space, &order_y, Wall::Bottom, &mut events);
            let ghost with_walls = events@;
            proof {
                assert forall|i: usize, j: usize| #![trigger pair_key(i, j)] i < j implies (
                seen@.contains(pair_key(i, j) as u128) <==> events@.contains(
                    Collision::People(i, j),
                )) by {
                    if events@.contains(Collision::People(i, j)) {
                        let k = choose|k: int|
                            0 <= k < events@.len() && events@[k] == Collision::People(i, j);
                        assert(events@[k] is Wall);
                    }
                }
            }
            sweep_bounded(people, space, &order_x, Axis::X, &mut seen, &mut events);
            let ghost with_first_sweep = events@;
            sweep_bounded(people, space, &order_y, Axis::Y, &mut seen, &mut events);
            proof {
                assert forall|i: usize, wall: Wall|
                    #![trigger events@.contains(Collision::Wall(i, wall))]
                    i < people@.len() && touches(
                        *space,
                        people@[i as int].pos(),
                        wall,
                    ) implies events@.contains(Collision::Wall(i, wall)) by {
                    let e = Collision::Wall(i, wall);
                    match wall {
                        Wall::Left => {
                            assert(with_left.contains(e));
                            assert(with_right.contains(e));
                            assert(with_top.contains(e));
                        },
                        Wall::Right => {
                            assert(with_right.contains(e));
                            assert(with_top.contains(e));
                        },
                        Wall::Top => {
                            assert(with_top.contains(e));
                        },
                        Wall::Bottom => {},
                    }
                    assert(with_walls.contains(e));
                    assert(with_first_sweep.contains(e));
                }
            }
        },
        Topology::Toroidal => {
            sweep_toroidal(people, space, &order_x, Axis::X, &mut seen, &mut events);
            sweep_toroidal(people, space, &order_y, Axis::Y, &mut seen, &mut events);
        },
    }
    proof {
        assert forall|e: Collision| #[trigger] event_holds(people@, *space, e) implies events@.contains(
            e,
        ) by {
            match e {
                Collision::People(i, j) => {
                    assert(events@.contains(Collision::People(i, j)));
                },
                Collision::Wall(i, wall) => {
                    assert(events@.contains(Collision::Wall(i, wall)));
                },
            }
        }
    }
    events
}

} // verus!
