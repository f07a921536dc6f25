//! Counting the agents by their health.

use vstd::prelude::*;
use super::person::{Person, Status};

verus! {

/// A group of agents that is counted.
#[derive(Debug, Clone, Copy, PartialEq, Eq, Structural)]
pub enum Group {
    /// Infected at present.
    Infected,
    /// Vaccinated, infected or not.
    Vaccinated,
    /// Vaccinated and infected at present.
    VaccinatedInfected,
    /// Recovered from an infection, not infected at present and not
    /// vaccinated.
    Healed,
}

/// The one of five classes that an agent is shown in.
#[derive(Debug, Clone, Copy, PartialEq, Eq, Structural)]
pub enum Category {
    Healthy,
    Infected,
    VaccinatedInfected,
    Vaccinated,
    Healed,
}

/// The counts of one moment.
#[derive(Debug, Clone, Copy, PartialEq, Eq, Structural)]
pub struct Statistics {
    /// The agents alive.
    pub population: usize,
    pub infected: usize,
    pub vaccinated: usize,
    pub vaccinated_infected: usize,
    pub healed: usize,
    /// The agents that have died since the start.
    pub dead: usize,
}

impl Statistics {
    /// The counts can be those of one population: the vaccinated and
    /// infected are among the vaccinated and among the infected; the
    /// infected, the vaccinated that are not infected and the healed are not
    /// more than the population; the living and the dead can be added up.
    pub open spec fn consistent(self) -> bool {
        &&& self.vaccinated_infected <= self.infected
        &&& self.vaccinated_infected <= self.vaccinated
        &&& self.infected + self.vaccinated - self.vaccinated_infected + self.healed
            <= self.population
        &&& self.population + self.dead <= usize::MAX
    }

    /// Whether the counts can be those of one population.
    pub fn is_consistent(&self) -> (ok: bool)
        ensures
            ok == self.consistent(),
    {
        if self.vaccinated_infected > self.infected || self.vaccinated_infected
            > self.vaccinated {
            return false;
        }
        let shown: u128 = self.infected as u128 + (self.vaccinated - self.vaccinated_infected) as u128
            + self.healed as u128;
        shown <= self.population as u128 && self.population as u128 + self.dead as u128
            <= usize::MAX as u128
    }
}

/// An agent of this status is counted in `group`.
pub open spec fn belongs(status: Status, group: Group) -> bool {
    match group {
        Group::Infected => status.infected() is Some,
        Group::Vaccinated => status.vaccinated(),
        Group::VaccinatedInfected => status.vaccinated() && status.infected() is Some,
        Group::Healed => status.past_infected() && status.infected() is None
            && !status.vaccinated(),
    }
}

/// The number of agents that are counted in `group`.
pub open spec fn tally(people: Seq<Person>, group: Group) -> nat
    decreases people.len(),
{
    if people.len() == 0 {
        0
    } else {
        tally(people.drop_last(), group) + if belongs(*people.last().status(), group) {
            1nat
        } else {
            0nat
        }
    }
}

/// The class that an agent of this status is shown in: an infection comes
/// before a vaccination, and a vaccination before a past infection.
pub open spec fn category_of(status: Status) -> Category {
    if status.infected() is Some {
        if status.vaccinated() {
            Category::VaccinatedInfected
        } else {
            Category::Infected
        }
    } else if status.vaccinated() {
        Category::Vaccinated
    } else if status.past_infected() {
        Category::Healed
    } else {
        Category::Healthy
    }
}

/// The class that an agent of this status is shown in.
pub fn category(status: &Status) -> (c: Category)
    ensures
        c == category_of(*status),
{
    if status.infected().is_some() {
        if status.vaccinated() {
            Category::VaccinatedInfected
        } else {
            Category::Infected
        }
    } else if status.vaccinated() {
        Category::Vaccinated
    } else if status.past_infected() {
        Category::Healed
    } else {
        Category::Healthy
    }
}

/// Counts the agents by their health. The infected, the vaccinated that are
/// not infected and the healed are disjoint groups, so together they are not
/// more than the population.
pub fn census(people: &Vec<Person>, dead: usize) -> (s: Statistics)
    requires
        people@.len() + dead <= usize::MAX,
    ensures
        s.consistent(),
        s.population == people@.len(),
        s.infected == tally(people@, Group::Infected),
        s.vaccinated == tally(people@, Group::Vaccinated),
        s.vaccinated_infected == tally(people@, Group::VaccinatedInfected),
        s.healed == tally(people@, Group::Healed),
        s.dead == dead,
{
    let mut infected: usize = 0;
    let mut vaccinated: usize = 0;
    let mut both: usize = 0;
    let mut healed: usize = 0;
    let mut i: usize = 0;
    while i < people.len()
        invariant
            i <= people@.len(),
            infected == tally(people@.take(i as int), Group::Infected),
            vaccinated == tally(people@.take(i as int), Group::Vaccinated),
            both == tally(people@.take(i as int), Group::VaccinatedInfected),
            healed == tally(people@.take(i as int), Group::Healed),
            both <= infected,
            both <= vaccinated,
            infected + vaccinated - both + healed <= i,
        decreases people@.len() - i,
    {
        proof {
            assert(people@.take(i + 1).drop_last() =~= people@.take(i as int));
            assert(people@.take(i + 1).last() == people@[i as int]);
        }
        let status: Status = *people[i].status();
        let ill: bool = status.infected().is_some();
        if ill {
            infected += 1;
        }
        if status.vaccinated() {
            vaccinated += 1;
        }
        if ill && status.vaccinated() {
            both += 1;
        }
        if status.past_infected() && !ill && !status.vaccinated() {
            healed += 1;
        }
        i += 1;
    }
    proof {
        assert(people@.take(i as int) =~= people@);
    }
    Statistics {
        population: people.len(),
        infected,
        vaccinated,
        vaccinated_infected: both,
        healed,
        dead,
    }
}

} // verus!
