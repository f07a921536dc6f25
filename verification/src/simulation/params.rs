//! The configuration of a simulation.

use vstd::prelude::*;
use super::fixed::UNIT;
use super::space::{Space, Topology, DIAMETER};

verus! {

/// The largest average duration and the largest death rate that are
/// accepted: a million units.
pub const RATE_LIMIT: i64 = 1_000_000_000_000;

/// The longest time that one step advances the simulation by.
pub const MAX_STEP_DURATION: i64 = 50_000;

/// What a simulation is configured with. Lengths, speeds, durations, rates and
/// probabilities are fixed-point numbers.
#[derive(Clone, Copy, Debug)]
pub struct Params {
    pub num_people: usize,
    pub size_x: i64,
    pub size_y: i64,
    pub topology: Topology,
    pub speed_stdev: i64,
    pub init_infected: usize,
    pub init_vaccinated: usize,
    pub infection_prob_infected_to_general: i64,
    pub infection_prob_infected_to_healed: i64,
    pub infection_prob_infected_to_vaccinated: i64,
    pub infection_prob_vaccinated_to_general: i64,
    pub infection_prob_vaccinated_to_healed: i64,
    pub infection_prob_vaccinated_to_vaccinated: i64,
    pub infection_avg_duration: i64,
    pub death_rate: i64,
}

/// What is wrong with a configuration.
#[derive(Clone, Copy, Debug, PartialEq, Eq, Structural)]
pub enum ParamsError {
    /// A probability outside the unit interval, a duration or rate that is not
    /// positive or beyond the limit, a negative speed deviation, or a side of
    /// the box no longer than an agent is wide.
    Invalid,
    /// The box cannot be shown to hold the population without overlap.
    SpaceTooSmall,
}

/// A fixed-point number that is a probability.
pub open spec fn is_probability(p: i64) -> bool {
    0 <= p <= UNIT
}

/// The number of agents per row of a square grid with one diameter between
/// neighbours, on a side of length `size`.
pub open spec fn grid_steps(size: int) -> int {
    (size - DIAMETER) / (DIAMETER as int) + 1
}

/// The population, unless the configuration names one.
pub fn default_num_people() -> (n: usize)
    ensures
        n == 10000,
{
    10000
}

/// The length of each side of the box, unless the configuration names one: 300 units.
pub fn default_size() -> (size: i64)
    ensures
        size == 300 * UNIT,
{
    300_000_000
}

/// The standard deviation of the speeds, unless the configuration names one: 10 units.
pub fn default_speed_stdev() -> (stdev: i64)
    ensures
        stdev == 10 * UNIT,
{
    10_000_000
}

/// The number of agents infected at the start, unless the configuration names one.
pub fn default_infected() -> (n: usize)
    ensures
        n == 1,
{
    1
}

/// The number of agents vaccinated at the start, unless the configuration names one.
pub fn default_vaccinated() -> (n: usize)
    ensures
        n == 0,
{
    0
}

/// The chance that an infected agent infects one that was never infected: a tenth.
pub fn default_inf_to_gen() -> (p: i64)
    ensures
        p == 100_000,
{
    100_000
}

/// The chance that an infected agent infects one that has recovered: a fiftieth.
pub fn default_inf_to_healed() -> (p: i64)
    ensures
        p == 20_000,
{
    20_000
}

/// The chance that an infected agent infects a vaccinated one: a thousandth.
pub fn default_inf_to_vacc() -> (p: i64)
    ensures
        p == 1_000,
{
    1_000
}

/// The chance that a vaccinated, infected agent infects one that was never infected.
pub fn default_vacc_to_gen() -> (p: i64)
    ensures
        p == 60_000,
{
    60_000
}

/// The chance that a vaccinated, infected agent infects one that has recovered.
pub fn default_vacc_to_healed() -> (p: i64)
    ensures
        p == 12_000,
{
    12_000
}

/// The chance that a vaccinated, infected agent infects a vaccinated one.
pub fn default_vacc_to_vacc() -> (p: i64)
    ensures
        p == 600,
{
    600
}

/// The average duration of an infection, unless the configuration names one: 30 units.
pub fn default_duration() -> (duration: i64)
    ensures
        duration == 30 * UNIT,
{
    30_000_000
}

/// The death rate, unless the configuration names one: a fiftieth.
pub fn default_death_rate() -> (rate: i64)
    ensures
        rate == 20_000,
{
    20_000
}

/// The topology of the box, unless the configuration names one.
pub fn default_topology() -> (topology: Topology)
    ensures
        topology == Topology::Toroidal,
{
    Topology::Toroidal
}

impl Params {
    /// The six probabilities lie in the unit interval.
    pub open spec fn probabilities_valid(self) -> bool {
        &&& is_probability(self.infection_prob_infected_to_general)
        &&& is_probability(self.infection_prob_infected_to_healed)
        &&& is_probability(self.infection_prob_infected_to_vaccinated)
        &&& is_probability(self.infection_prob_vaccinated_to_general)
        &&& is_probability(self.infection_prob_vaccinated_to_healed)
        &&& is_probability(self.infection_prob_vaccinated_to_vaccinated)
    }

    /// No contact can transmit the infection: the six probabilities are zero
    /// or less.
    pub open spec fn transmission_free(self) -> bool {
        &&& self.infection_prob_infected_to_general <= 0
        &&& self.infection_prob_infected_to_healed <= 0
        &&& self.infection_prob_infected_to_vaccinated <= 0
        &&& self.infection_prob_vaccinated_to_general <= 0
        &&& self.infection_prob_vaccinated_to_healed <= 0
        &&& self.infection_prob_vaccinated_to_vaccinated <= 0
    }

    /// What the health update of one agent needs: a positive average
    /// duration and a death rate that is not negative, both within the limit.
    pub open spec fn rates_bounded(self) -> bool {
        &&& 0 < self.infection_avg_duration <= RATE_LIMIT
        &&& 0 <= self.death_rate <= RATE_LIMIT
    }

    /// The configuration's invariant.
    pub open spec fn valid(self) -> bool {
        &&& self.size_x > DIAMETER
        &&& self.size_y > DIAMETER
        &&& self.speed_stdev >= 0
        &&& self.probabilities_valid()
        &&& self.rates_bounded()
        &&& self.death_rate > 0
    }

    /// The box that the configuration describes.
    pub open spec fn space(self) -> Space {
        Space { size_x: self.size_x, size_y: self.size_y, topology: self.topology }
    }

    /// The number of agents that fit on a square grid inside the box, a
    /// radius away from every edge: as many as can be placed without overlap
    /// for certain.
    pub open spec fn capacity(self) -> int {
        grid_steps(self.size_x as int) * grid_steps(self.size_y as int)
    }

    /// The population is within the capacity of the box.
    pub open spec fn fits(self) -> bool {
        self.num_people <= self.capacity()
    }

    /// The box that the configuration describes.
    pub fn to_space(&self) -> (space: Space)
        ensures
            space == self.space(),
    {
        Space { size_x: self.size_x, size_y: self.size_y, topology: self.topology }
    }

    /// Whether the configuration's invariant holds.
    pub fn is_valid(&self) -> (ok: bool)
        ensures
            ok == self.valid(),
    {
        self.size_x > DIAMETER && self.size_y > DIAMETER && self.speed_stdev >= 0
            && probability_ok(self.infection_prob_infected_to_general)
            && probability_ok(self.infection_prob_infected_to_healed)
            && probability_ok(self.infection_prob_infected_to_vaccinated)
            && probability_ok(self.infection_prob_vaccinated_to_general)
            && probability_ok(self.infection_prob_vaccinated_to_healed)
            && probability_ok(self.infection_prob_vaccinated_to_vaccinated)
            && 0 < self.infection_avg_duration && self.infection_avg_duration <= RATE_LIMIT
            && 0 < self.death_rate && self.death_rate <= RATE_LIMIT
    }

    /// Whether the population is within the capacity of the box.
    pub fn has_room(&self) -> (ok: bool)
        requires
            self.valid(),
        ensures
            ok == self.fits(),
    {
        let columns: u128 = ((self.size_x - DIAMETER) / DIAMETER + 1) as u128;
        let rows: u128 = ((self.size_y - DIAMETER) / DIAMETER + 1) as u128;
        assert(columns * rows <= 0x8000_0000_0000_0000 * 0x8000_0000_0000_0000)
            by (nonlinear_arith)
            requires
                columns <= 0x8000_0000_0000_0000,
                rows <= 0x8000_0000_0000_0000,
        ;
        self.num_people as u128 <= columns * rows
    }

    /// Checks the configuration: the invariant first, then the room.
    pub fn validate(&self) -> (r: Result<(), ParamsError>)
        ensures
            r is Ok <==> self.valid() && self.fits(),
            r == Err::<(), ParamsError>(ParamsError::Invalid) <==> !self.valid(),
            r == Err::<(), ParamsError>(ParamsError::SpaceTooSmall) <==> self.valid()
                && !self.fits(),
    {
        if !self.is_valid() {
            Err(ParamsError::Invalid)
        } else if !self.has_room() {
            Err(ParamsError::SpaceTooSmall)
        } else {
            Ok(())
        }
    }
}

/// Whether a fixed-point number is a probability.
pub fn probability_ok(p: i64) -> (ok: bool)
    ensures
        ok == is_probability(p),
{
    0 <= p && p <= UNIT
}

impl Default for Params {
    fn default() -> (params: Params)
        ensures
            params.num_people == 10000,
            params.size_x == 300 * UNIT,
            params.size_y == 300 * UNIT,
            params.topology == Topology::Toroidal,
            params.speed_stdev == 10 * UNIT,
            params.init_infected == 1,
            params.init_vaccinated == 0,
            params.infection_prob_infected_to_general == 100_000,
            params.infection_prob_infected_to_healed == 20_000,
            params.infection_prob_infected_to_vaccinated == 1_000,
            params.infection_prob_vaccinated_to_general == 60_000,
            params.infection_prob_vaccinated_to_healed == 12_000,
            params.infection_prob_vaccinated_to_vaccinated == 600,
            params.infection_avg_duration == 30 * UNIT,
            params.death_rate == 20_000,
            params.valid(),
    {
        Params {
            num_people: default_num_people(),
            size_x: default_size(),
            size_y: default_size(),
            topology: default_topology(),
            speed_stdev: default_speed_stdev(),
            init_infected: default_infected(),
            init_vaccinated: default_vaccinated(),
            infection_prob_infected_to_general: default_inf_to_gen(),
            infection_prob_infected_to_healed: default_inf_to_healed(),
            infection_prob_infected_to_vaccinated: default_inf_to_vacc(),
            infection_prob_vaccinated_to_general: default_vacc_to_gen(),
            infection_prob_vaccinated_to_healed: default_vacc_to_healed(),
            infection_prob_vaccinated_to_vaccinated: default_vacc_to_vacc(),
            infection_avg_duration: default_duration(),
            death_rate: default_death_rate(),
        }
    }
}

} // verus!
