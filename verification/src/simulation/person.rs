//! One agent: where it is, how it moves, and its health.

use vstd::prelude::*;
use rand::rngs::StdRng;
use super::fixed::{div_toward_zero, quotient_toward_zero, UNIT, UNIT_WIDE};
use super::params::Params;
use super::random::{draw, draw_below, uniform_between, DRAW_RANGE, DRAW_RANGE_WIDE};
use super::space::{Space, Topology, Vec2};

verus! {

/// The radius shared by all agents: half a unit.
pub const RADIUS: i64 = 500_000;

/// The product of death rate and time from which every draw means death: two
/// to the power 71, more than any draw times the longest duration.
pub const CERTAIN_RISK: i128 = 0x80_0000_0000_0000_0000;

/// The health of one agent.
#[derive(Debug, Clone, Copy)]
pub struct Status {
    /// The simulated time at which the present infection began.
    infected: Option<i64>,
    past_infected: bool,
    vaccinated: bool,
}

/// One agent.
#[derive(Debug, Clone, Copy)]
pub struct Person {
    position: Vec2,
    velocity: Vec2,
    status: Status,
}

/// The probability, as a fixed-point number, that a contact infects
/// `recipient` when `source` is infected. A vaccinated recipient is treated as
/// vaccinated whether or not it has been infected before.
pub open spec fn transmission_threshold(params: Params, recipient: Status, source: Status) -> i64 {
    if source.vaccinated() {
        if recipient.vaccinated() {
            params.infection_prob_vaccinated_to_vaccinated
        } else if recipient.past_infected() {
            params.infection_prob_vaccinated_to_healed
        } else {
            params.infection_prob_vaccinated_to_general
        }
    } else {
        if recipient.vaccinated() {
            params.infection_prob_infected_to_vaccinated
        } else if recipient.past_infected() {
            params.infection_prob_infected_to_healed
        } else {
            params.infection_prob_infected_to_general
        }
    }
}

/// The contact of an agent with `source` at `time` transmits the infection,
/// given the draw `d`: the source is infected and the draw falls below the
/// threshold.
pub open spec fn transmits(params: Params, recipient: Status, source: Status, d: int) -> bool {
    &&& source.infected() is Some
    &&& draw_below(d, transmission_threshold(params, recipient, source) as int, UNIT as int)
}

/// How a contact with `source` at `time` changes a status, given the draw `d`.
pub open spec fn contact_outcome(
    before: Status,
    after: Status,
    time: i64,
    params: Params,
    source: Status,
    d: int,
) -> bool {
    &&& after.past_infected() == before.past_infected()
    &&& after.vaccinated() == before.vaccinated()
    &&& after.infected() == if transmits(params, before, source, d) {
        Some(time)
    } else {
        before.infected()
    }
}

/// An agent infected for a step of length `dt` dies in it, given the draw
/// `d`: the draw falls below `death_rate * dt / infection_avg_duration`.
pub open spec fn dies(params: Params, dt: i64, d: int) -> bool {
    d * params.infection_avg_duration * UNIT < params.death_rate * dt * DRAW_RANGE
}

/// An agent infected since `since` recovers at `time`, given the draw `d`:
/// the draw falls below `(time - since) / infection_avg_duration - 7/10`.
pub open spec fn heals(params: Params, time: i64, since: i64, d: int) -> bool {
    10 * d * params.infection_avg_duration < DRAW_RANGE * (10 * (time - since) - 7
        * params.infection_avg_duration)
}

/// How the health update of one step changes a status, given the two draws:
/// an infected agent dies, or else recovers, or else stays as it is; an agent
/// that is not infected is left alone. `dead` tells whether the agent died.
pub open spec fn health_outcome(
    before: Status,
    after: Status,
    dead: bool,
    time: i64,
    params: Params,
    dt: i64,
    death_draw: int,
    heal_draw: int,
) -> bool {
    match before.infected() {
        None => !dead && after == before,
        Some(since) => if dies(params, dt, death_draw) {
            dead && after == before
        } else if heals(params, time, since, heal_draw) {
            &&& !dead
            &&& after.infected() is None
            &&& after.past_infected()
            &&& after.vaccinated() == before.vaccinated()
        } else {
            !dead && after == before
        },
    }
}

/// A contact with `source` at `time` can change a status from `before` to
/// `after`: some draw does so.
pub open spec fn contact_possible(
    before: Status,
    after: Status,
    time: i64,
    params: Params,
    source: Status,
) -> bool {
    exists|d: int|
        0 <= d < DRAW_RANGE && #[trigger] contact_outcome(before, after, time, params, source, d)
}

/// The health update can change a status from `before` to `after`, with the
/// agent dead or not as `dead` tells: some pair of draws does so.
pub open spec fn health_possible(
    before: Status,
    after: Status,
    dead: bool,
    time: i64,
    params: Params,
    dt: i64,
) -> bool {
    exists|death_draw: int, heal_draw: int|
        0 <= death_draw < DRAW_RANGE && 0 <= heal_draw < DRAW_RANGE && #[trigger] health_outcome(
            before,
            after,
            dead,
            time,
            params,
            dt,
            death_draw,
            heal_draw,
        )
}

/// A vaccinated agent is exposed with the thresholds for the vaccinated,
/// whether or not it has been infected before.
pub proof fn lemma_vaccinated_threshold(params: Params, recipient: Status, source: Status)
    requires
        recipient.vaccinated(),
    ensures
        transmission_threshold(params, recipient, source) == if source.vaccinated() {
            params.infection_prob_vaccinated_to_vaccinated
        } else {
            params.infection_prob_infected_to_vaccinated
        },
{
}

/// No draw lets an agent recover before seven tenths of the average duration
/// have passed since its infection.
pub proof fn lemma_no_early_recovery(params: Params, time: i64, since: i64, d: int)
    requires
        params.infection_avg_duration > 0,
        0 <= d,
        10 * (time - since) <= 7 * params.infection_avg_duration,
    ensures
        !heals(params, time, since, d),
{
    let duration = params.infection_avg_duration as int;
    let margin = 10 * (time - since) - 7 * duration;
    assert(10 * d * duration >= 0) by (nonlinear_arith)
        requires
            d >= 0,
            duration > 0,
    ;
    assert(DRAW_RANGE * margin <= 0) by (nonlinear_arith)
        requires
            margin <= 0,
    ;
}

/// Once more than seven tenths of the average duration have passed since its
/// infection, some draw lets an agent recover.
pub proof fn lemma_late_recovery_possible(params: Params, time: i64, since: i64)
    requires
        params.infection_avg_duration > 0,
        10 * (time - since) > 7 * params.infection_avg_duration,
    ensures
        heals(params, time, since, 0),
{
    let duration = params.infection_avg_duration as int;
    let margin = 10 * (time - since) - 7 * duration;
    assert(10 * 0 * duration == 0) by (nonlinear_arith);
    assert(DRAW_RANGE * margin > 0) by (nonlinear_arith)
        requires
            margin > 0,
    ;
}

/// Until seven tenths of the average duration have passed since its
/// infection, the health update leaves an agent as it is, whatever is drawn
/// and however long the step; and where the death rate is zero the agent
/// does not die.
pub proof fn lemma_update_too_early(
    before: Status,
    after: Status,
    dead: bool,
    time: i64,
    since: i64,
    params: Params,
    dt: i64,
)
    requires
        params.infection_avg_duration > 0,
        before.infected() == Some(since),
        10 * (time - since) <= 7 * params.infection_avg_duration,
        health_possible(before, after, dead, time, params, dt),
    ensures
        after == before,
        params.death_rate == 0 ==> !dead,
{
    let (death_draw, heal_draw) = choose|death_draw: int, heal_draw: int|
        0 <= death_draw < DRAW_RANGE && 0 <= heal_draw < DRAW_RANGE && #[trigger] health_outcome(
            before,
            after,
            dead,
            time,
            params,
            dt,
            death_draw,
            heal_draw,
        );
    lemma_no_early_recovery(params, time, since, heal_draw);
    if params.death_rate == 0 {
        let duration = params.infection_avg_duration as int;
        assert(death_draw * duration * UNIT >= 0) by (nonlinear_arith)
            requires
                death_draw >= 0,
                duration > 0,
        ;
        assert(params.death_rate * dt * DRAW_RANGE == 0) by (nonlinear_arith)
            requires
                params.death_rate == 0,
        ;
    }
}

/// Where death does not strike an infected agent, the second draw decides:
/// the agent recovers, and is marked as having recovered, exactly when the
/// draw falls below the time since its infection over the average duration,
/// less seven tenths.
pub proof fn lemma_recovery_decided(
    before: Status,
    after: Status,
    dead: bool,
    time: i64,
    since: i64,
    params: Params,
    dt: i64,
    death_draw: int,
    heal_draw: int,
)
    requires
        before.infected() == Some(since),
        !dies(params, dt, death_draw),
        health_outcome(before, after, dead, time, params, dt, death_draw, heal_draw),
    ensures
        !dead,
        (after.infected() is None && after.past_infected()) <==> heals(
            params,
            time,
            since,
            heal_draw,
        ),
        after.vaccinated() == before.vaccinated(),
{
}

/// Neither a contact nor a health update takes away that an agent has
/// recovered before.
pub proof fn lemma_history_kept(
    before: Status,
    after: Status,
    dead: bool,
    time: i64,
    params: Params,
    source: Status,
    dt: i64,
    d: int,
    death_draw: int,
    heal_draw: int,
)
    requires
        before.past_infected(),
        contact_outcome(before, after, time, params, source, d) || health_outcome(
            before,
            after,
            dead,
            time,
            params,
            dt,
            death_draw,
            heal_draw,
        ),
    ensures
        after.past_infected(),
{
}

/// Where a coordinate `x` arrives when it moves with speed `v` for `dt`.
pub open spec fn advanced(x: i64, v: i64, dt: i64) -> int {
    x + quotient_toward_zero(v * dt, UNIT as int)
}

impl Status {
    /// The time at which the present infection began, if the agent is
    /// infected.
    pub closed spec fn spec_infected(&self) -> Option<i64> {
        self.infected
    }

    /// Whether the agent has recovered from an infection at least once.
    pub closed spec fn spec_past_infected(&self) -> bool {
        self.past_infected
    }

    /// Whether the agent is vaccinated.
    pub closed spec fn spec_vaccinated(&self) -> bool {
        self.vaccinated
    }

    /// A status is determined by what its three observers return.
    pub proof fn lemma_determined(a: Status, b: Status)
        requires
            a.infected() == b.infected(),
            a.past_infected() == b.past_infected(),
            a.vaccinated() == b.vaccinated(),
        ensures
            a == b,
    {
    }

    /// The time at which the present infection began, if the agent is
    /// infected.
    #[verifier::when_used_as_spec(spec_infected)]
    pub fn infected(&self) -> (since: Option<i64>)
        ensures
            since == self.infected(),
    {
        self.infected
    }

    /// Whether the agent has recovered from an infection at least once.
    #[verifier::when_used_as_spec(spec_past_infected)]
    pub fn past_infected(&self) -> (past: bool)
        ensures
            past == self.past_infected(),
    {
        self.past_infected
    }

    /// Whether the agent is vaccinated.
    #[verifier::when_used_as_spec(spec_vaccinated)]
    pub fn vaccinated(&self) -> (vaccinated: bool)
        ensures
            vaccinated == self.vaccinated(),
    {
        self.vaccinated
    }

    /// The probability that a contact with the infected `source` infects an
    /// agent of this status.
    pub fn threshold(&self, params: &Params, source: &Status) -> (p: i64)
        ensures
            p == transmission_threshold(*params, *self, *source),
    {
        if source.vaccinated {
            if self.vaccinated {
                params.infection_prob_vaccinated_to_vaccinated
            } else if self.past_infected {
                params.infection_prob_vaccinated_to_healed
            } else {
                params.infection_prob_vaccinated_to_general
            }
        } else {
            if self.vaccinated {
                params.infection_prob_infected_to_vaccinated
            } else if self.past_infected {
                params.infection_prob_infected_to_healed
            } else {
                params.infection_prob_infected_to_general
            }
        }
    }
}

impl Default for Status {
    /// The status of an agent that was never infected nor vaccinated.
    fn default() -> (status: Status)
        ensures
            status.infected() is None,
            !status.past_infected(),
            !status.vaccinated(),
    {
        Status { infected: None, past_infected: false, vaccinated: false }
    }
}

/// Whether the draw `d` falls below the probability `p`.
pub fn below_threshold(d: u64, p: i64) -> (below: bool)
    ensures
        below == draw_below(d as int, p as int, UNIT as int),
{
    let left: i128 = d as i128 * UNIT_WIDE;
    let right: i128 = p as i128 * DRAW_RANGE_WIDE;
    left < right
}

/// Whether an agent infected for a step of length `dt` dies in it, given the
/// draw `d`.
pub fn death_strikes(params: &Params, dt: i64, d: u64) -> (strikes: bool)
    requires
        params.rates_bounded(),
    ensures
        strikes == dies(*params, dt, d as int),
{
    let duration: i128 = params.infection_avg_duration as i128;
    let rate: i128 = params.death_rate as i128;
    let wide_draw: i128 = d as i128;
    let wide_dt: i128 = dt as i128;
    assert(0 <= wide_draw * duration <= 0xffff_ffff_ffff_ffff * 1_000_000_000_000)
        by (nonlinear_arith)
        requires
            0 <= wide_draw <= 0xffff_ffff_ffff_ffff,
            0 < duration <= 1_000_000_000_000,
    ;
    let left: i128 = wide_draw * duration * UNIT_WIDE;
    if dt <= 0 {
        // No time, no risk.
        assert(rate * wide_dt * DRAW_RANGE <= 0) by (nonlinear_arith)
            requires
                0 <= rate,
                wide_dt <= 0,
        ;
        return false;
    }
    assert(0 <= rate * wide_dt <= 1_000_000_000_000 * 0x8000_0000_0000_0000) by (nonlinear_arith)
        requires
            0 <= rate <= 1_000_000_000_000,
            0 < wide_dt <= 0x8000_0000_0000_0000,
    ;
    let risk: i128 = rate * wide_dt;
    if risk >= CERTAIN_RISK {
        // The risk is beyond what any draw can reach.
        assert(risk * DRAW_RANGE >= 0x80_0000_0000_0000_0000 * 0x20_0000_0000_0000)
            by (nonlinear_arith)
            requires
                risk >= 0x80_0000_0000_0000_0000,
        ;
        return true;
    }
    let right: i128 = risk * DRAW_RANGE_WIDE;
    left < right
}

/// Whether an agent infected since `since` recovers at `time`, given the draw
/// `d`.
pub fn recovery_comes(params: &Params, time: i64, since: i64, d: u64) -> (comes: bool)
    requires
        params.rates_bounded(),
    ensures
        comes == heals(*params, time, since, d as int),
{
    let duration: i128 = params.infection_avg_duration as i128;
    let wide_draw: i128 = d as i128;
    let elapsed: i128 = time as i128 - since as i128;
    assert(0 <= 10 * wide_draw * duration <= 10 * 0xffff_ffff_ffff_ffff * 1_000_000_000_000)
        by (nonlinear_arith)
        requires
            0 <= wide_draw <= 0xffff_ffff_ffff_ffff,
            0 < duration <= 1_000_000_000_000,
    ;
    let left: i128 = 10 * wide_draw * duration;
    let margin: i128 = 10 * elapsed - 7 * duration;
    assert(-0x20_0000_0000_0000 * 0x10_0000_0000_0000_0000 <= 0x20_0000_0000_0000 * margin
        <= 0x20_0000_0000_0000 * 0x10_0000_0000_0000_0000) by (nonlinear_arith)
        requires
            -0x10_0000_0000_0000_0000 <= margin <= 0x10_0000_0000_0000_0000,
    ;
    let right: i128 = DRAW_RANGE_WIDE * margin;
    left < right
}

/// Moves a coordinate with speed `v` for `dt`, without settling it.
pub fn advance(x: i64, v: i64, dt: i64) -> (r: i128)
    ensures
        r == advanced(x, v, dt),
        -0x4000_0000_0000_0000_0000_0000_0000_0000 < r < 0x4000_0000_0000_0000_0000_0000_0000_0000,
{
    let wide_v: i128 = v as i128;
    let wide_dt: i128 = dt as i128;
    assert(-0x8000_0000_0000_0000 * 0x8000_0000_0000_0000 <= wide_v * wide_dt
        <= 0x8000_0000_0000_0000 * 0x8000_0000_0000_0000) by (nonlinear_arith)
        requires
            -0x8000_0000_0000_0000 <= wide_v <= 0x8000_0000_0000_0000,
            -0x8000_0000_0000_0000 <= wide_dt <= 0x8000_0000_0000_0000,
    ;
    let moved: i128 = div_toward_zero(wide_v * wide_dt, UNIT_WIDE);
    x as i128 + moved
}

impl Person {
    /// Where the centre of the agent is.
    pub closed spec fn spec_pos(&self) -> Vec2 {
        self.position
    }

    /// How far the agent moves in one unit of time.
    pub closed spec fn spec_vel(&self) -> Vec2 {
        self.velocity
    }

    /// The health of the agent.
    pub closed spec fn spec_status(&self) -> &Status {
        &self.status
    }

    /// An agent is determined by what its three observers return.
    pub proof fn lemma_determined(a: Person, b: Person)
        requires
            a.pos() == b.pos(),
            a.vel() == b.vel(),
            a.status() == b.status(),
        ensures
            a == b,
    {
    }

    /// The agent leaves a move of length `dt` in `space` at `after`, with its
    /// velocity and status as they were.
    pub open spec fn shifted_to(self, after: Person, dt: i64, space: Space) -> bool {
        &&& after.pos().x == space.settle(advanced(self.pos().x, self.vel().x, dt), space.size_x as int)
        &&& after.pos().y == space.settle(advanced(self.pos().y, self.vel().y, dt), space.size_y as int)
        &&& after.vel() == self.vel()
        &&& after.status() == self.status()
    }

    /// This agent is `before`, infected at `time`.
    pub open spec fn is_infection_of(self, before: Person, time: i64) -> bool {
        &&& self.pos() == before.pos()
        &&& self.vel() == before.vel()
        &&& self.status().infected() == Some(time)
        &&& self.status().past_infected() == before.status().past_infected()
        &&& self.status().vaccinated() == before.status().vaccinated()
    }

    /// This agent is `before`, vaccinated.
    pub open spec fn is_vaccination_of(self, before: Person) -> bool {
        &&& self.pos() == before.pos()
        &&& self.vel() == before.vel()
        &&& self.status().infected() == before.status().infected()
        &&& self.status().past_infected() == before.status().past_infected()
        &&& self.status().vaccinated()
    }

    /// A healthy agent at `position` moving with `velocity`.
    pub fn new(position: Vec2, velocity: Vec2) -> (person: Person)
        ensures
            person.pos() == position,
            person.vel() == velocity,
            person.status().infected() is None,
            !person.status().past_infected(),
            !person.status().vaccinated(),
    {
        Person { position, velocity, status: Status::default() }
    }

    /// A healthy agent with the given velocity at a random place in the box,
    /// at least a radius away from every edge.
    pub fn random(rng: &mut StdRng, space_size: (i64, i64), velocity: Vec2) -> (person: Person)
        requires
            space_size.0 > 2 * RADIUS,
            space_size.1 > 2 * RADIUS,
        ensures
            RADIUS <= person.pos().x < space_size.0 - RADIUS,
            RADIUS <= person.pos().y < space_size.1 - RADIUS,
            person.vel() == velocity,
            person.status().infected() is None,
            !person.status().past_infected(),
            !person.status().vaccinated(),
    {
        let x: i64 = uniform_between(rng, RADIUS, space_size.0 - RADIUS);
        let y: i64 = uniform_between(rng, RADIUS, space_size.1 - RADIUS);
        Person { position: Vec2 { x, y }, velocity, status: Status::default() }
    }

    /// Whether this agent and `other` overlap in `space`.
    pub fn overlaps(&self, other: &Person, space: &Space) -> (r: bool)
        requires
            space.wf(),
        ensures
            r == space.overlapping(self.pos(), other.pos()),
    {
        space.overlap(self.position, other.position)
    }

    /// Where the centre of the agent is.
    #[verifier::when_used_as_spec(spec_pos)]
    pub fn pos(&self) -> (position: Vec2)
        ensures
            position == self.pos(),
    {
        self.position
    }

    /// How far the agent moves in one unit of time.
    #[verifier::when_used_as_spec(spec_vel)]
    pub fn vel(&self) -> (velocity: Vec2)
        ensures
            velocity == self.vel(),
    {
        self.velocity
    }

    /// The health of the agent.
    #[verifier::when_used_as_spec(spec_status)]
    pub fn status(&self) -> (status: &Status)
        ensures
            status == self.status(),
    {
        &self.status
    }

    /// Marks the agent as infected at `time`.
    pub fn infect(&mut self, time: i64)
        ensures
            final(self).is_infection_of(*old(self), time),
    {
        self.status.infected = Some(time);
    }

    /// Marks the agent as vaccinated.
    pub fn vaccinate(&mut self)
        ensures
            final(self).is_vaccination_of(*old(self)),
    {
        self.status.vaccinated = true;
    }

    /// Moves the agent with its velocity for `dt`. On a torus the new
    /// position is wrapped into the box; otherwise it saturates at the limits
    /// of `i64`.
    pub fn shift(&mut self, dt: i64, space: &Space)
        requires
            space.wf(),
        ensures
            old(self).shifted_to(*final(self), dt, *space),
            space.topology == Topology::Toroidal ==> space.contains(final(self).pos()),
    {
        let x: i128 = advance(self.position.x, self.velocity.x, dt);
        let y: i128 = advance(self.position.y, self.velocity.y, dt);
        self.position.x = space.settle_coordinate(x, space.size_x);
        self.position.y = space.settle_coordinate(y, space.size_y);
    }

    /// Gives the agent a new velocity.
    pub fn set_vel(&mut self, vel: Vec2)
        ensures
            final(self).pos() == old(self).pos(),
            final(self).vel() == vel,
            final(self).status() == old(self).status(),
    {
        self.velocity = vel;
    }

    /// The contact with `other` at `time`, decided by the draw `d`: if `other`
    /// is infected and the draw falls below the threshold for the two
    /// statuses, this agent is infected at `time`, whether or not it was
    /// infected already.
    pub fn contact_with_draw(&mut self, time: i64, params: Params, other: Person, d: u64)
        ensures
            final(self).pos() == old(self).pos(),
            final(self).vel() == old(self).vel(),
            contact_outcome(
                *old(self).status(),
                *final(self).status(),
                time,
                params,
                *other.status(),
                d as int,
            ),
    {
        if other.status.infected.is_some() {
            let threshold: i64 = self.status.threshold(&params, &other.status);
            if below_threshold(d, threshold) {
                self.status.infected = Some(time);
            }
        }
    }

    /// The contact with `other` at `time`. A uniform draw is made if `other`
    /// is infected, and decides as in `contact_with_draw`.
    pub fn contact(&mut self, time: i64, params: Params, other: Person, rng: &mut StdRng)
        ensures
            final(self).pos() == old(self).pos(),
            final(self).vel() == old(self).vel(),
            contact_possible(
                *old(self).status(),
                *final(self).status(),
                time,
                params,
                *other.status(),
            ),
    {
        if other.status.infected.is_some() {
            let d: u64 = draw(rng);
            self.contact_with_draw(time, params, other, d);
            assert(contact_outcome(
                *old(self).status(),
                *self.status(),
                time,
                params,
                *other.status(),
                d as int,
            ));
        } else {
            assert(contact_outcome(
                *old(self).status(),
                *self.status(),
                time,
                params,
                *other.status(),
                0,
            ));
        }
    }

    /// The health update of one step of length `dt` that ends at `time`,
    /// decided by two draws. Returns whether the agent died.
    pub fn update_status_with_draws(
        &mut self,
        time: i64,
        params: Params,
        dt: i64,
        death_draw: u64,
        heal_draw: u64,
    ) -> (dead: bool)
        requires
            params.rates_bounded(),
        ensures
            final(self).pos() == old(self).pos(),
            final(self).vel() == old(self).vel(),
            health_outcome(
                *old(self).status(),
                *final(self).status(),
                dead,
                time,
                params,
                dt,
                death_draw as int,
                heal_draw as int,
            ),
    {
        match self.status.infected {
            Some(since) => {
                if death_strikes(&params, dt, death_draw) {
                    return true;
                }
                if recovery_comes(&params, time, since, heal_draw) {
                    self.status.infected = None;
                    self.status.past_infected = true;
                }
            },
            None => {},
        }
        false
    }

    /// The health update of one step of length `dt` that ends at `time`. An
    /// infected agent makes one draw for death and, if it survives, one for
    /// recovery. Returns whether the agent died.
    pub fn update_status(&mut self, time: i64, params: Params, dt: i64, rng: &mut StdRng) -> (dead:
        bool)
        requires
            params.rates_bounded(),
        ensures
            final(self).pos() == old(self).pos(),
            final(self).vel() == old(self).vel(),
            health_possible(*old(self).status(), *final(self).status(), dead, time, params, dt),
    {
        match self.status.infected {
            Some(since) => {
                let death_draw: u64 = draw(rng);
                if death_strikes(&params, dt, death_draw) {
                    assert(health_outcome(
                        *old(self).status(),
                        *self.status(),
                        true,
                        time,
                        params,
                        dt,
                        death_draw as int,
                        0,
                    ));
                    return true;
                }
                let heal_draw: u64 = draw(rng);
                if recovery_comes(&params, time, since, heal_draw) {
                    self.status.infected = None;
                    self.status.past_infected = true;
                }
                assert(health_outcome(
                    *old(self).status(),
                    *self.status(),
                    false,
                    time,
                    params,
                    dt,
                    death_draw as int,
                    heal_draw as int,
                ));
            },
            None => {
                assert(health_outcome(
                    *old(self).status(),
                    *self.status(),
                    false,
                    time,
                    params,
                    dt,
                    0,
                    0,
                ));
            },
        }
        false
    }
}

} // verus!
