//! The simulation engine: the agents, the clock and the configuration, and
//! the step that advances them.

pub mod chart;
pub mod collision;
pub mod contacts;
pub mod controls;
pub mod fixed;
pub mod health;
pub mod indices;
pub mod params;
pub mod person;
pub mod placement;
pub mod random;
pub mod selection;
pub mod space;
pub mod stats;
pub mod sweep;

use vstd::prelude::*;
use rand::rngs::StdRng;
use collision::{
    positions_of,
    reflect,
    resolve,
    velocities_after,
    velocities_after_event,
    velocities_of,
    Collision,
};
use contacts::{
    answerable,
    contact_step,
    contacts_chain,
    exposed,
    involves,
    lemma_contact_exposes,
    nobody_infected,
    same_statuses,
    statuses_of,
    struck,
    uninvolved,
};
use controls::{effective_time, SimulationParameters};
use fixed::{clamp_to_i64, saturate};
use health::{health_updated, step_length, survivors};
use indices::{identity_order, lemma_rearranged};
use params::{Params, ParamsError, MAX_STEP_DURATION};
use person::{health_possible, Person, Status};
use placement::{all_apart, clear_of, newly_placed, try_place};
use random::shuffle;
use selection::{lemma_selection_count, marked, selected, selection};
use space::{Space, Topology, Vec2};
use stats::{census, tally, Group, Statistics};
use sweep::{all_inside, is_collision_list};

verus! {

/// How often a place is drawn for one agent before the construction gives up.
pub const PLACEMENT_ATTEMPTS: usize = 1000;

/// Why a simulation could not be built or changed.
#[derive(Debug, Clone, Copy, PartialEq, Eq, Structural)]
pub enum SimError {
    /// The configuration breaks its invariant.
    InvalidParams,
    /// The box cannot be shown to hold the population without overlap.
    SpaceTooSmall,
    /// The number of velocities or of agents given differs from the
    /// population.
    CountMismatch,
    /// An agent given lies outside the box of a torus.
    OutsideSpace,
    /// No free place was found for an agent within the attempts allowed.
    PlacementExhausted,
    /// More agents were to be selected than there are.
    SelectionOverflow,
}

/// A population of agents in a box, at a simulated time.
#[derive(Debug, Clone)]
pub struct Simulation {
    space: Space,
    time: i64,
    people: Vec<Person>,
    params: Params,
    dead: usize,
}

impl Simulation {
    /// The living agents, in the order in which `people` returns them.
    pub closed spec fn agents(&self) -> Seq<Person> {
        self.people@
    }

    /// The simulated time.
    pub closed spec fn spec_time(&self) -> i64 {
        self.time
    }

    /// The box.
    pub closed spec fn spec_space(&self) -> Space {
        self.space
    }

    /// The configuration.
    pub closed spec fn spec_params(&self) -> Params {
        self.params
    }

    /// The number of agents that have died so far.
    pub closed spec fn spec_dead(&self) -> usize {
        self.dead
    }

    /// The invariant of a simulation: the configuration is valid and the box
    /// is the one it describes; time has not run backwards; on a torus every
    /// agent lies in the box; the living and the dead can be counted.
    pub open spec fn wf(&self) -> bool {
        &&& self.params().valid()
        &&& self.space() == self.params().space()
        &&& self.time() >= 0
        &&& self.space().topology == Topology::Toroidal ==> all_inside(self.agents(), self.space())
        &&& self.agents().len() + self.dead() <= usize::MAX
    }

    /// A simulation as `new` leaves it: at time zero, nobody dead, the
    /// population placed without overlap, healthy, with the velocities given.
    pub open spec fn fresh(&self, params: Params, velocities: Seq<Vec2>) -> bool {
        &&& self.wf()
        &&& self.params() == params
        &&& self.time() == 0
        &&& self.dead() == 0
        &&& self.agents().len() == params.num_people
        &&& forall|i: int|
            0 <= i < self.agents().len() ==> newly_placed(
                #[trigger] self.agents()[i],
                velocities[i],
                self.space(),
            )
        &&& all_apart(self.agents(), self.space())
    }

    /// Builds a simulation of `params.num_people` healthy agents, the `i`-th
    /// moving with `velocities[i]`. Each agent is put at a random place, drawn
    /// again while it overlaps an agent placed before, at most
    /// `PLACEMENT_ATTEMPTS` times; so the placement can only fail from the
    /// second agent on.
    pub fn new(rng: &mut StdRng, params: Params, velocities: &Vec<Vec2>) -> (r: Result<
        Simulation,
        SimError,
    >)
        ensures
            r == Err::<Simulation, SimError>(SimError::InvalidParams) <==> !params.valid(),
            r == Err::<Simulation, SimError>(SimError::SpaceTooSmall) <==> params.valid()
                && !params.fits(),
            r == Err::<Simulation, SimError>(SimError::CountMismatch) <==> params.valid()
                && params.fits() && velocities@.len() != params.num_people,
            r == Err::<Simulation, SimError>(SimError::PlacementExhausted) ==> params.num_people
                >= 2,
            match r {
                Ok(sim) => sim.fresh(params, velocities@),
                Err(e) => e == SimError::InvalidParams || e == SimError::SpaceTooSmall || e
                    == SimError::CountMismatch || e == SimError::PlacementExhausted,
            },
    {
        match params.validate() {
            Err(ParamsError::Invalid) => {
                return Err(SimError::InvalidParams);
            },
            Err(ParamsError::SpaceTooSmall) => {
                return Err(SimError::SpaceTooSmall);
            },
            Ok(()) => {},
        }
        if velocities.len() != params.num_people {
            return Err(SimError::CountMismatch);
        }
        let space: Space = params.to_space();
        let mut people: Vec<Person> = Vec::new();
        let mut k: usize = 0;
        while k < params.num_people
            invariant
                k <= params.num_people,
                velocities@.len() == params.num_people,
                params.valid(),
                params.fits(),
                space == params.space(),
                people@.len() == k,
                forall|i: int|
                    0 <= i < people@.len() ==> newly_placed(
                        #[trigger] people@[i],
                        velocities@[i],
                        space,
                    ),
                all_apart(people@, space),
            decreases params.num_people - k,
        {
            let mut attempts: usize = 0;
            let mut placed: bool = false;
            let ghost before = people@;
            while attempts < PLACEMENT_ATTEMPTS && !placed
                invariant
                    attempts <= PLACEMENT_ATTEMPTS,
                    k < params.num_people,
                    velocities@.len() == params.num_people,
                    params.valid(),
                    params.fits(),
                    space == params.space(),
                    !placed ==> people@ == before,
                    !placed && k == 0 ==> attempts == 0,
                    placed ==> people@.len() == before.len() + 1 && people@.drop_last() == before
                        && newly_placed(people@.last(), velocities@[k as int], space)
                        && clear_of(before, people@.last(), space),
                    before.len() == k,
                decreases PLACEMENT_ATTEMPTS - attempts,
            {
                let candidate: Person = Person::random(
                    rng,
                    (params.size_x, params.size_y),
                    velocities[k],
                );
                placed = try_place(&mut people, candidate, &space);
                proof {
                    if placed {
                        assert(people@.drop_last() == before);
                    }
                }
                attempts += 1;
            }
            if !placed {
                return Err(SimError::PlacementExhausted);
            }
            proof {
                assert forall|i: int| 0 <= i < people@.len() implies newly_placed(
                    #[trigger] people@[i],
                    velocities@[i],
                    space,
                ) by {
                    if i < before.len() {
                        assert(people@[i] == before[i]);
                    }
                }
                assert forall|i: int, j: int|
                    #![trigger people@[i], people@[j]]
                    0 <= i < j < people@.len() implies !space.overlapping(
                    people@[i].pos(),
                    people@[j].pos(),
                ) by {
                    assert(people@[i] == before[i]);
                    if j < before.len() {
                        assert(people@[j] == before[j]);
                    }
                }
            }
            k += 1;
        }
        let sim = Simulation { space, time: 0, people, params, dead: 0 };
        proof {
            assert forall|i: int| 0 <= i < sim.agents().len() implies space.contains(
                #[trigger] sim.agents()[i].pos(),
            ) by {
                assert(newly_placed(sim.agents()[i], velocities@[i], space));
            }
        }
        Ok(sim)
    }

    /// Builds a simulation of the agents given, at time zero. On a torus
    /// every agent must lie in the box.
    pub fn with_people(params: Params, people: Vec<Person>) -> (r: Result<Simulation, SimError>)
        ensures
            r == Err::<Simulation, SimError>(SimError::InvalidParams) <==> !params.valid(),
            r == Err::<Simulation, SimError>(SimError::CountMismatch) <==> params.valid()
                && people@.len() != params.num_people,
            r == Err::<Simulation, SimError>(SimError::OutsideSpace) <==> params.valid()
                && people@.len() == params.num_people && params.topology == Topology::Toroidal
                && !all_inside(people@, params.space()),
            match r {
                Ok(sim) => {
                    &&& sim.wf()
                    &&& sim.params() == params
                    &&& sim.time() == 0
                    &&& sim.dead() == 0
                    &&& sim.agents() == people@
                },
                Err(e) => e == SimError::InvalidParams || e == SimError::CountMismatch || e
                    == SimError::OutsideSpace,
            },
    {
        if !params.is_valid() {
            return Err(SimError::InvalidParams);
        }
        if people.len() != params.num_people {
            return Err(SimError::CountMismatch);
        }
        let space: Space = params.to_space();
        match params.topology {
            Topology::Toroidal => {
                let mut i: usize = 0;
                while i < people.len()
                    invariant
                        i <= people@.len(),
                        params.valid(),
                        params.topology == Topology::Toroidal,
                        people@.len() == params.num_people,
                        space == params.space(),
                        forall|k: int| 0 <= k < i ==> space.contains(#[trigger] people@[k].pos()),
                    decreases people@.len() - i,
                {
                    let p: Vec2 = people[i].pos();
                    if !(0 <= p.x && p.x < space.size_x && 0 <= p.y && p.y < space.size_y) {
                        assert(!space.contains(people@[i as int].pos()));
                        return Err(SimError::OutsideSpace);
                    }
                    i += 1;
                }
            },
            Topology::Bounded => {},
        }
        Ok(Simulation { space, time: 0, people, params, dead: 0 })
    }

    /// The living agents, in no particular order.
    pub fn people(&self) -> (people: &[Person])
        ensures
            people@ == self.agents(),
    {
        self.people.as_slice()
    }

    /// A copy of the simulation that shares nothing with it, for a reader to
    /// keep while the simulation goes on.
    pub fn snapshot(&self) -> (copy: Simulation)
        ensures
            copy.agents() == self.agents(),
            self.same_frame(copy),
            self.wf() ==> copy.wf(),
    {
        let mut people: Vec<Person> = Vec::new();
        let mut i: usize = 0;
        while i < self.people.len()
            invariant
                i <= self.agents().len(),
                people@ == self.agents().take(i as int),
            decreases self.agents().len() - i,
        {
            people.push(self.people[i]);
            proof {
                assert(self.agents().take(i + 1) =~= self.agents().take(i as int).push(
                    self.agents()[i as int],
                ));
            }
            i += 1;
        }
        proof {
            assert(self.agents().take(i as int) =~= self.agents());
        }
        Simulation {
            space: self.space,
            time: self.time,
            people,
            params: self.params,
            dead: self.dead,
        }
    }

    /// The simulated time.
    #[verifier::when_used_as_spec(spec_time)]
    pub fn time(&self) -> (time: i64)
        ensures
            time == self.time(),
    {
        self.time
    }

    /// The box.
    #[verifier::when_used_as_spec(spec_space)]
    pub fn space(&self) -> (space: Space)
        ensures
            space == self.space(),
    {
        self.space
    }

    /// The configuration.
    #[verifier::when_used_as_spec(spec_params)]
    pub fn params(&self) -> (params: Params)
        ensures
            params == self.params(),
    {
        self.params
    }

    /// The counts of the present moment.
    pub fn stats(&self) -> (s: Statistics)
        requires
            self.wf(),
        ensures
            s.population == self.agents().len(),
            s.infected == tally(self.agents(), Group::Infected),
            s.vaccinated == tally(self.agents(), Group::Vaccinated),
            s.vaccinated_infected == tally(self.agents(), Group::VaccinatedInfected),
            s.healed == tally(self.agents(), Group::Healed),
            s.dead == self.dead(),
            s.consistent(),
    {
        census(&self.people, self.dead)
    }

    /// The number of agents that have died so far.
    #[verifier::when_used_as_spec(spec_dead)]
    pub fn dead(&self) -> (dead: usize)
        ensures
            dead == self.dead(),
    {
        self.dead
    }
}

impl Simulation {
    /// The simulation `after` differs from this one in its agents at most.
    pub open spec fn same_frame(&self, after: Simulation) -> bool {
        &&& after.time() == self.time()
        &&& after.space() == self.space()
        &&& after.params() == self.params()
        &&& after.dead() == self.dead()
    }

    /// Marks the agents at the first `n` places of `order`.
    fn mark(&mut self, n: usize, order: &Vec<usize>, infect: bool)
        requires
            old(self).wf(),
            n <= order@.len(),
            forall|k: int| 0 <= k < order@.len() ==> order@[k] < old(self).agents().len(),
        ensures
            final(self).wf(),
            old(self).same_frame(*final(self)),
            selected(
                old(self).agents(),
                final(self).agents(),
                selection(order@, n as int),
                old(self).time(),
                infect,
            ),
    {
        let time: i64 = self.time;
        let mut k: usize = 0;
        while k < n
            invariant
                k <= n <= order@.len(),
                time == old(self).time(),
                forall|m: int| 0 <= m < order@.len() ==> order@[m] < old(self).agents().len(),
                old(self).wf(),
                old(self).same_frame(*self),
                selected(old(self).agents(), self.agents(), selection(order@, k as int), time, infect),
                old(self).space().topology == Topology::Toroidal ==> all_inside(
                    self.agents(),
                    old(self).space(),
                ),
            decreases n - k,
        {
            let index: usize = order[k];
            let ghost before = self.agents();
            if infect {
                self.people[index].infect(time);
            } else {
                self.people[index].vaccinate();
            }
            proof {
                let now = self.agents();
                assert(now.len() == before.len());
                assert forall|i: int| 0 <= i < before.len() implies if selection(
                    order@,
                    k + 1,
                ).contains(i) {
                    marked(old(self).agents()[i], #[trigger] now[i], time, infect)
                } else {
                    now[i] == old(self).agents()[i]
                } by {
                    if i == index {
                        assert(order@[k as int] == i);
                        assert(selection(order@, k + 1).contains(i));
                    } else {
                        assert(now[i] == before[i]);
                        if selection(order@, k + 1).contains(i) {
                            let w = choose|w: int| 0 <= w < k + 1 && #[trigger] order@[w] == i;
                            assert(selection(order@, k as int).contains(i));
                        } else if selection(order@, k as int).contains(i) {
                            let w = choose|w: int| 0 <= w < k && #[trigger] order@[w] == i;
                            assert(order@[w] == i);
                        }
                    }
                }
                assert forall|i: int|
                    0 <= i < now.len() && old(self).space().topology
                        == Topology::Toroidal implies old(self).space().contains(
                    #[trigger] now[i].pos(),
                ) by {
                    assert(old(self).space().contains(before[i].pos()));
                }
            }
            k += 1;
        }
    }

    /// Marks as infected, at the present time, the agents at the first `n`
    /// places of `order`. Fails, and changes nothing, if `order` has fewer
    /// than `n` places.
    pub fn infect_selected(&mut self, n: usize, order: &Vec<usize>) -> (r: Result<(), SimError>)
        requires
            old(self).wf(),
            forall|k: int| 0 <= k < order@.len() ==> order@[k] < old(self).agents().len(),
        ensures
            r == Err::<(), SimError>(SimError::SelectionOverflow) <==> n > order@.len(),
            r is Err ==> *final(self) == *old(self),
            r is Ok <==> n <= order@.len(),
            r is Ok ==> final(self).wf() && old(self).same_frame(*final(self)) && selected(
                old(self).agents(),
                final(self).agents(),
                selection(order@, n as int),
                old(self).time(),
                true,
            ),
    {
        if n > order.len() {
            return Err(SimError::SelectionOverflow);
        }
        self.mark(n, order, true);
        Ok(())
    }

    /// Marks as vaccinated the agents at the first `n` places of `order`.
    /// Fails, and changes nothing, if `order` has fewer than `n` places.
    pub fn vaccinate_selected(&mut self, n: usize, order: &Vec<usize>) -> (r: Result<(), SimError>)
        requires
            old(self).wf(),
            forall|k: int| 0 <= k < order@.len() ==> order@[k] < old(self).agents().len(),
        ensures
            r == Err::<(), SimError>(SimError::SelectionOverflow) <==> n > order@.len(),
            r is Err ==> *final(self) == *old(self),
            r is Ok <==> n <= order@.len(),
            r is Ok ==> final(self).wf() && old(self).same_frame(*final(self)) && selected(
                old(self).agents(),
                final(self).agents(),
                selection(order@, n as int),
                old(self).time(),
                false,
            ),
    {
        if n > order.len() {
            return Err(SimError::SelectionOverflow);
        }
        self.mark(n, order, false);
        Ok(())
    }

    /// Some `n` different agents of this simulation are marked in `after`,
    /// and the others are as they were.
    pub open spec fn marks_some(&self, after: Simulation, n: usize, infect: bool) -> bool {
        exists|chosen: Set<int>|
            {
                &&& chosen.finite()
                &&& chosen.len() == n
                &&& forall|i: int| chosen.contains(i) ==> 0 <= i < self.agents().len()
                &&& #[trigger] selected(self.agents(), after.agents(), chosen, self.time(), infect)
            }
    }

    /// Shuffles the indices of the agents and marks those at the first `n`
    /// places.
    fn mark_at_random(&mut self, n: usize, rng: &mut StdRng, infect: bool)
        requires
            old(self).wf(),
            n <= old(self).agents().len(),
        ensures
            final(self).wf(),
            old(self).same_frame(*final(self)),
            old(self).marks_some(*final(self), n, infect),
    {
        let mut order: Vec<usize> = identity_order(self.people.len());
        let ghost start = order@;
        shuffle(&mut order, rng);
        proof {
            lemma_rearranged(order@, start, self.agents().len());
        }
        self.mark(n, &order, infect);
        proof {
            lemma_selection_count(order@, n as int);
            let chosen = selection(order@, n as int);
            assert forall|i: int| chosen.contains(i) implies 0 <= i < old(self).agents().len() by {
                let k = choose|k: int| 0 <= k < n && #[trigger] order@[k] == i;
            }
            assert(selected(
                old(self).agents(),
                self.agents(),
                chosen,
                old(self).time(),
                infect,
            ));
        }
    }

    /// Marks `n` agents as infected at the present time, chosen by shuffling
    /// all indices and taking the first `n`. Fails, and changes nothing, if
    /// there are fewer than `n` agents.
    pub fn infect(&mut self, n: usize, rng: &mut StdRng) -> (r: Result<(), SimError>)
        requires
            old(self).wf(),
        ensures
            r == Err::<(), SimError>(SimError::SelectionOverflow) <==> n > old(self).agents().len(),
            r is Err ==> *final(self) == *old(self),
            r is Ok <==> n <= old(self).agents().len(),
            r is Ok ==> final(self).wf() && old(self).same_frame(*final(self)) && old(
                self,
            ).marks_some(*final(self), n, true),
    {
        if n > self.people.len() {
            return Err(SimError::SelectionOverflow);
        }
        self.mark_at_random(n, rng, true);
        Ok(())
    }

    /// Marks `n` agents as vaccinated, chosen by shuffling all indices and
    /// taking the first `n`. Fails, and changes nothing, if there are fewer
    /// than `n` agents.
    pub fn vaccinate(&mut self, n: usize, rng: &mut StdRng) -> (r: Result<(), SimError>)
        requires
            old(self).wf(),
        ensures
            r == Err::<(), SimError>(SimError::SelectionOverflow) <==> n > old(self).agents().len(),
            r is Err ==> *final(self) == *old(self),
            r is Ok <==> n <= old(self).agents().len(),
            r is Ok ==> final(self).wf() && old(self).same_frame(*final(self)) && old(
                self,
            ).marks_some(*final(self), n, false),
    {
        if n > self.people.len() {
            return Err(SimError::SelectionOverflow);
        }
        self.mark_at_random(n, rng, false);
        Ok(())
    }

    /// Moves every agent with its velocity for `dt`.
    pub fn move_people(&mut self, dt: i64)
        requires
            old(self).wf(),
        ensures
            final(self).wf(),
            old(self).same_frame(*final(self)),
            final(self).agents().len() == old(self).agents().len(),
            forall|i: int|
                0 <= i < old(self).agents().len() ==> old(self).agents()[i].shifted_to(
                    #[trigger] final(self).agents()[i],
                    dt,
                    old(self).space(),
                ),
    {
        let space: Space = self.space;
        let mut i: usize = 0;
        while i < self.people.len()
            invariant
                i <= self.agents().len(),
                space == old(self).space(),
                old(self).wf(),
                old(self).same_frame(*self),
                self.agents().len() == old(self).agents().len(),
                forall|k: int|
                    0 <= k < i ==> old(self).agents()[k].shifted_to(
                        #[trigger] self.agents()[k],
                        dt,
                        space,
                    ),
                forall|k: int|
                    i <= k < self.agents().len() ==> #[trigger] self.agents()[k] == old(
                        self,
                    ).agents()[k],
                space.topology == Topology::Toroidal ==> all_inside(self.agents(), space),
            decreases self.agents().len() - i,
        {
            let ghost before = self.agents();
            self.people[i].shift(dt, &space);
            proof {
                let now = self.agents();
                assert forall|k: int| 0 <= k < now.len() && space.topology
                    == Topology::Toroidal implies space.contains(#[trigger] now[k].pos()) by {
                    if k != i {
                        assert(now[k] == before[k]);
                    }
                }
                assert forall|k: int| 0 <= k < i + 1 implies old(self).agents()[k].shifted_to(
                    #[trigger] now[k],
                    dt,
                    space,
                ) by {
                    if k != i {
                        assert(now[k] == before[k]);
                    }
                }
            }
            i += 1;
        }
    }

    /// Finds the collisions among the agents as they stand.
    pub fn find_collisions(&self) -> (events: Vec<Collision>)
        requires
            self.wf(),
        ensures
            is_collision_list(self.agents(), self.space(), events@),
    {
        sweep::find_collisions(&self.people, &self.space)
    }
}

impl Simulation {
    /// Answers the collisions in the order of the list. The agent of a wall
    /// event is reflected. The two agents of a pair event rebound and then
    /// have contact with each other, each with the status that the other had
    /// before the two contacts. Every event must name agents that there are,
    /// and the two agents of a pair event must be different and overlap, as
    /// those that `find_collisions` lists do.
    pub fn apply_collisions(&mut self, collisions: Vec<Collision>, rng: &mut StdRng)
        requires
            old(self).wf(),
            forall|k: int|
                0 <= k < collisions@.len() ==> answerable(
                    old(self).agents(),
                    old(self).space(),
                    #[trigger] collisions@[k],
                ),
        ensures
            final(self).wf(),
            old(self).same_frame(*final(self)),
            struck(
                old(self).agents(),
                final(self).agents(),
                collisions@,
                old(self).space(),
                old(self).params(),
                old(self).time(),
            ),
    {
        let space: Space = self.space;
        let params: Params = self.params;
        let time: i64 = self.time;
        let ghost start = self.agents();
        let ghost places = positions_of(start);
        let ghost mut chain: Seq<Seq<Status>> = seq![statuses_of(start)];
        let mut k: usize = 0;
        while k < collisions.len()
            invariant
                k <= collisions@.len(),
                old(self).wf(),
                old(self).same_frame(*self),
                space == old(self).space(),
                params == old(self).params(),
                time == old(self).time(),
                start == old(self).agents(),
                places == positions_of(start),
                forall|m: int|
                    0 <= m < collisions@.len() ==> answerable(start, space, #[trigger] collisions@[m]),
                self.agents().len() == start.len(),
                positions_of(self.agents()) =~= places,
                velocities_of(self.agents()) =~= velocities_after(
                    space,
                    places,
                    velocities_of(start),
                    collisions@.take(k as int),
                ),
                forall|i: int|
                    0 <= i < start.len() ==> exposed(
                        *start[i].status(),
                        *(#[trigger] self.agents()[i]).status(),
                        time,
                    ),
                nobody_infected(start) ==> same_statuses(start, self.agents()),
                params.transmission_free() ==> same_statuses(start, self.agents()),
                forall|i: int|
                    0 <= i < start.len() && uninvolved(collisions@.take(k as int), i) ==> (
                    #[trigger] self.agents()[i]).status() == start[i].status(),
                space.topology == Topology::Toroidal ==> all_inside(self.agents(), space),
                chain.len() == k + 1,
                chain[0] =~= statuses_of(start),
                chain[k as int] =~= statuses_of(self.agents()),
                forall|m: int|
                    0 <= m < k ==> contact_step(
                        params,
                        time,
                        collisions@[m],
                        #[trigger] chain[m],
                        chain[m + 1],
                    ),
            decreases collisions@.len() - k,
        {
            let ghost before = self.agents();
            let ghost speeds = velocities_of(before);
            let event: Collision = collisions[k];
            proof {
                assert(answerable(start, space, collisions@[k as int]));
                assert forall|m: int| 0 <= m < start.len() implies before[m].pos() == start[m].pos() by {
                    assert(positions_of(before)[m] == places[m]);
                    assert(places[m] == start[m].pos());
                }
                assert(collisions@.take(k + 1).drop_last() =~= collisions@.take(k as int));
                assert(collisions@.take(k + 1).last() == event);
            }
            match event {
                Collision::Wall(i, wall) => {
                    let turned: Vec2 = reflect(self.people[i].vel(), wall);
                    self.people[i].set_vel(turned);
                    proof {
                        let now = self.agents();
                        assert(speeds[i as int] == before[i as int].vel());
                        assert(velocities_of(now) =~= velocities_after_event(
                            space,
                            places,
                            speeds,
                            event,
                        ));
                    }
                },
                Collision::People(i, j) => {
                    let first: Person = self.people[i];
                    let second: Person = self.people[j];
                    let after: (Vec2, Vec2) = resolve(
                        &space,
                        first.pos(),
                        first.vel(),
                        second.pos(),
                        second.vel(),
                    );
                    self.people[i].set_vel(after.0);
                    self.people[j].set_vel(after.1);
                    self.people[i].contact(time, params, second, rng);
                    self.people[j].contact(time, params, first, rng);
                    proof {
                        let now = self.agents();
                        lemma_contact_exposes(
                            *first.status(),
                            *now[i as int].status(),
                            time,
                            params,
                            *second.status(),
                        );
                        lemma_contact_exposes(
                            *second.status(),
                            *now[j as int].status(),
                            time,
                            params,
                            *first.status(),
                        );
                        assert(positions_of(before)[i as int] == before[i as int].pos());
                        assert(positions_of(before)[j as int] == before[j as int].pos());
                        assert(speeds[i as int] == before[i as int].vel());
                        assert(speeds[j as int] == before[j as int].vel());
                        assert(velocities_of(now) =~= velocities_after_event(
                            space,
                            places,
                            speeds,
                            event,
                        ));
                    }
                },
            }
            proof {
                let now = self.agents();
                assert(positions_of(now) =~= places) by {
                    assert forall|m: int| 0 <= m < now.len() implies now[m].pos() == places[m] by {
                        assert(positions_of(before)[m] == before[m].pos());
                    }
                }
            }
            proof {
                let now = self.agents();
                let told = chain;
                chain = chain.push(statuses_of(now));
                assert(contact_step(params, time, event, told[k as int], statuses_of(now))) by {
                    assert(told[k as int] =~= statuses_of(before));
                    match event {
                        Collision::People(i, j) => {
                            assert forall|m: int|
                                0 <= m < start.len() && m != i && m != j implies #[trigger] statuses_of(
                                now,
                            )[m] == statuses_of(before)[m] by {
                                assert(now[m].status() == before[m].status());
                            }
                        },
                        Collision::Wall(i, wall) => {
                            assert forall|m: int| 0 <= m < start.len() implies now[m].status()
                                == before[m].status() by {}
                        },
                    }
                }
                assert forall|m: int| 0 <= m < k + 1 implies contact_step(
                    params,
                    time,
                    collisions@[m],
                    #[trigger] chain[m],
                    chain[m + 1],
                ) by {
                    if m < k {
                        assert(chain[m] == told[m]);
                        assert(chain[m + 1] == told[m + 1]);
                    }
                }
                assert forall|m: int| 0 <= m < start.len() implies exposed(
                    *start[m].status(),
                    *(#[trigger] now[m]).status(),
                    time,
                ) by {
                    assert(exposed(*start[m].status(), *before[m].status(), time));
                }
                if nobody_infected(start) {
                    assert forall|m: int| 0 <= m < start.len() implies (#[trigger] now[m]).status()
                        == start[m].status() by {
                        assert(before[m].status() == start[m].status());
                        assert(start[m].status().infected() is None);
                    }
                }
                if params.transmission_free() {
                    assert forall|m: int| 0 <= m < start.len() implies (#[trigger] now[m]).status()
                        == start[m].status() by {
                        assert(before[m].status() == start[m].status());
                    }
                }
                assert forall|m: int|
                    0 <= m < start.len() && uninvolved(
                        collisions@.take(k + 1),
                        m,
                    ) implies (#[trigger] now[m]).status() == start[m].status() by {
                    assert(!involves(collisions@.take(k + 1)[k as int], m));
                    assert(uninvolved(collisions@.take(k as int), m)) by {
                        assert forall|w: int| 0 <= w < k implies !involves(
                            #[trigger] collisions@.take(k as int)[w],
                            m,
                        ) by {
                            assert(collisions@.take(k + 1)[w] == collisions@.take(k as int)[w]);
                        }
                    }
                    assert(before[m].status() == start[m].status());
                }
                assert forall|m: int|
                    0 <= m < now.len() && space.topology
                        == Topology::Toroidal implies space.contains(#[trigger] now[m].pos()) by {
                    assert(positions_of(now)[m] == places[m]);
                    assert(places[m] == start[m].pos());
                }
            }
            k += 1;
        }
        proof {
            assert(collisions@.take(k as int) =~= collisions@);
            assert(contacts_chain(params, time, collisions@, chain));
        }
    }
}

impl Simulation {
    /// Updates the health of every agent for a step of length `dt` that ends
    /// at the present time, and tells for each agent whether it died.
    pub fn update_health(&mut self, dt: i64, rng: &mut StdRng) -> (flags: Vec<bool>)
        requires
            old(self).wf(),
        ensures
            final(self).wf(),
            old(self).same_frame(*final(self)),
            health_updated(
                old(self).agents(),
                final(self).agents(),
                flags@,
                old(self).time(),
                old(self).params(),
                dt,
            ),
    {
        let params: Params = self.params;
        let time: i64 = self.time;
        let mut flags: Vec<bool> = Vec::new();
        let mut i: usize = 0;
        while i < self.people.len()
            invariant
                i <= self.agents().len(),
                old(self).wf(),
                old(self).same_frame(*self),
                params == old(self).params(),
                time == old(self).time(),
                self.agents().len() == old(self).agents().len(),
                flags@.len() == i,
                forall|k: int|
                    0 <= k < i ==> {
                        &&& (#[trigger] self.agents()[k]).pos() == old(self).agents()[k].pos()
                        &&& self.agents()[k].vel() == old(self).agents()[k].vel()
                        &&& health_possible(
                            *old(self).agents()[k].status(),
                            *self.agents()[k].status(),
                            flags@[k],
                            time,
                            params,
                            dt,
                        )
                    },
                forall|k: int|
                    i <= k < self.agents().len() ==> #[trigger] self.agents()[k] == old(
                        self,
                    ).agents()[k],
                old(self).space().topology == Topology::Toroidal ==> all_inside(
                    self.agents(),
                    old(self).space(),
                ),
            decreases self.agents().len() - i,
        {
            let ghost before = self.agents();
            let ghost told = flags@;
            let dead: bool = self.people[i].update_status(time, params, dt, rng);
            flags.push(dead);
            proof {
                let now = self.agents();
                assert forall|k: int| 0 <= k < i + 1 implies {
                    &&& (#[trigger] now[k]).pos() == old(self).agents()[k].pos()
                    &&& now[k].vel() == old(self).agents()[k].vel()
                    &&& health_possible(
                        *old(self).agents()[k].status(),
                        *now[k].status(),
                        flags@[k],
                        time,
                        params,
                        dt,
                    )
                } by {
                    if k < i {
                        assert(now[k] == before[k]);
                        assert(flags@[k] == told[k]);
                    }
                }
                assert forall|k: int|
                    0 <= k < now.len() && old(self).space().topology
                        == Topology::Toroidal implies old(self).space().contains(
                    #[trigger] now[k].pos(),
                ) by {
                    assert(old(self).space().contains(before[k].pos()));
                }
            }
            i += 1;
        }
        flags
    }

    /// Removes the agents that are flagged and counts them among the dead.
    pub fn purge(&mut self, flags: &Vec<bool>)
        requires
            old(self).wf(),
            flags@.len() == old(self).agents().len(),
        ensures
            final(self).wf(),
            final(self).time() == old(self).time(),
            final(self).space() == old(self).space(),
            final(self).params() == old(self).params(),
            final(self).agents() == survivors(old(self).agents(), flags@),
            final(self).agents().len() <= old(self).agents().len(),
            final(self).dead() + final(self).agents().len() == old(self).dead() + old(
                self,
            ).agents().len(),
    {
        let mut kept: Vec<Person> = Vec::new();
        let mut i: usize = 0;
        while i < self.people.len()
            invariant
                i <= self.agents().len(),
                *self == *old(self),
                flags@.len() == self.agents().len(),
                kept@.len() <= i,
                kept@ == survivors(self.agents().take(i as int), flags@.take(i as int)),
                self.space().topology == Topology::Toroidal ==> all_inside(
                    self.agents(),
                    self.space(),
                ),
                self.space().topology == Topology::Toroidal ==> all_inside(kept@, self.space()),
            decreases self.agents().len() - i,
        {
            let ghost before = kept@;
            proof {
                assert(self.agents().take(i + 1).drop_last() =~= self.agents().take(i as int));
                assert(flags@.take(i + 1).drop_last() =~= flags@.take(i as int));
            }
            if !flags[i] {
                kept.push(self.people[i]);
                proof {
                    assert forall|k: int|
                        0 <= k < kept@.len() && self.space().topology
                            == Topology::Toroidal implies self.space().contains(
                        #[trigger] kept@[k].pos(),
                    ) by {
                        if k < before.len() {
                            assert(kept@[k] == before[k]);
                        } else {
                            assert(self.space().contains(self.agents()[i as int].pos()));
                        }
                    }
                }
            }
            i += 1;
        }
        proof {
            assert(self.agents().take(i as int) =~= self.agents());
            assert(flags@.take(i as int) =~= flags@);
        }
        let removed: usize = self.people.len() - kept.len();
        self.dead = self.dead + removed;
        self.people = kept;
    }

    /// What one step of length `dt` does, phase by phase: the agents move;
    /// the collisions among them are found; the collisions are answered at
    /// the time before the step; the clock advances; the health of each
    /// agent is updated at the new time; the dead are removed.
    pub open spec fn pipeline(
        &self,
        after: Simulation,
        dt: i64,
        moved: Seq<Person>,
        events: Seq<Collision>,
        hit: Seq<Person>,
        updated: Seq<Person>,
        flags: Seq<bool>,
    ) -> bool {
        &&& moved.len() == self.agents().len()
        &&& forall|i: int|
            0 <= i < moved.len() ==> self.agents()[i].shifted_to(
                #[trigger] moved[i],
                dt,
                self.space(),
            )
        &&& is_collision_list(moved, self.space(), events)
        &&& struck(moved, hit, events, self.space(), self.params(), self.time())
        &&& health_updated(hit, updated, flags, after.time(), self.params(), dt)
        &&& after.agents() == survivors(updated, flags)
    }

    /// The simulation `after` can come out of one step of length `dt`.
    pub open spec fn advances_to(&self, after: Simulation, dt: i64) -> bool {
        exists|
            moved: Seq<Person>,
            events: Seq<Collision>,
            hit: Seq<Person>,
            updated: Seq<Person>,
            flags: Seq<bool>,
        | #[trigger] self.pipeline(after, dt, moved, events, hit, updated, flags)
    }

    /// Advances the simulation by `dt`, or by `MAX_STEP_DURATION` if `dt` is
    /// longer.
    pub fn step(&mut self, dt: i64, rng: &mut StdRng)
        requires
            old(self).wf(),
            dt >= 0,
        ensures
            final(self).wf(),
            final(self).space() == old(self).space(),
            final(self).params() == old(self).params(),
            final(self).time() == saturate(old(self).time() + step_length(dt)),
            final(self).time() >= old(self).time(),
            final(self).agents().len() <= old(self).agents().len(),
            final(self).dead() + final(self).agents().len() == old(self).dead() + old(
                self,
            ).agents().len(),
            old(self).advances_to(*final(self), step_length(dt)),
    {
        let dt: i64 = if dt > MAX_STEP_DURATION {
            MAX_STEP_DURATION
        } else {
            dt
        };
        self.move_people(dt);
        let ghost moved = self.agents();
        let collisions: Vec<Collision> = self.find_collisions();
        let ghost events = collisions@;
        proof {
            assert forall|k: int| 0 <= k < events.len() implies answerable(
                moved,
                self.space(),
                #[trigger] events[k],
            ) by {
                assert(sweep::event_holds(moved, self.space(), events[k]));
            }
        }
        self.apply_collisions(collisions, rng);
        let ghost hit = self.agents();
        self.time = clamp_to_i64(self.time as i128 + dt as i128);
        let flags: Vec<bool> = self.update_health(dt, rng);
        let ghost updated = self.agents();
        self.purge(&flags);
        proof {
            assert(old(self).pipeline(*self, dt, moved, events, hit, updated, flags@));
        }
    }
}

impl Simulation {
    /// Takes one step under the controls given, when `dt` has passed since
    /// the last one: none while the simulation is paused; else a step over
    /// `dt` times the time compression.
    pub fn step_controlled(&mut self, dt: i64, rng: &mut StdRng, controls: &SimulationParameters)
        requires
            old(self).wf(),
        ensures
            final(self).wf(),
            final(self).time() >= old(self).time(),
            final(self).agents().len() <= old(self).agents().len(),
            !controls.running ==> *final(self) == *old(self),
            controls.running ==> {
                let asked = effective_time(*controls, dt) as i64;
                &&& final(self).space() == old(self).space()
                &&& final(self).params() == old(self).params()
                &&& final(self).time() == saturate(old(self).time() + step_length(asked))
                &&& final(self).agents().len() <= old(self).agents().len()
                &&& final(self).dead() + final(self).agents().len() == old(self).dead() + old(
                    self,
                ).agents().len()
                &&& old(self).advances_to(*final(self), step_length(asked))
            },
    {
        if controls.running {
            let asked: i64 = controls.effective(dt);
            self.step(asked, rng);
        }
    }
}

} // verus!
