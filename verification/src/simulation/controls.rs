//! What can be changed while a simulation runs: whether it runs at all, and
//! how much faster or slower than the clock that drives it.

use vstd::prelude::*;
use super::fixed::{clamp_to_i64, div_toward_zero, quotient_toward_zero, saturate, UNIT, UNIT_WIDE};

verus! {

/// By how much one adjustment changes the time compression: a tenth.
pub const COMPRESSION_STEP: i64 = 100_000;

/// The controls of a running simulation.
#[derive(Debug, Clone, Copy, PartialEq, Eq, Structural)]
pub struct SimulationParameters {
    /// The factor, a fixed-point number, by which the time that has passed
    /// is multiplied before a step is taken.
    pub time_compression: i64,
    /// Whether steps are taken at all.
    pub running: bool,
}

/// The time that a step is asked to cover when `dt` has passed: nothing
/// while the simulation is paused, or if `dt` or the time compression is not
/// positive; else their product, saturated.
pub open spec fn effective_time(controls: SimulationParameters, dt: i64) -> int {
    if controls.running && dt > 0 && controls.time_compression > 0 {
        saturate(quotient_toward_zero(dt * controls.time_compression, UNIT as int))
    } else {
        0
    }
}

impl SimulationParameters {
    /// The controls of a simulation that is paused and would run at the speed
    /// of the clock.
    pub fn new() -> (controls: SimulationParameters)
        ensures
            controls.time_compression == UNIT,
            !controls.running,
    {
        SimulationParameters { time_compression: UNIT, running: false }
    }

    /// Pauses a running simulation and resumes a paused one.
    pub fn toggle_running(&mut self)
        ensures
            final(self).running == !old(self).running,
            final(self).time_compression == old(self).time_compression,
    {
        self.running = !self.running;
    }

    /// Raises the time compression by one step, up to the limit of `i64`.
    pub fn increase_time_compression(&mut self)
        ensures
            final(self).running == old(self).running,
            final(self).time_compression == saturate(
                old(self).time_compression + COMPRESSION_STEP,
            ),
    {
        self.time_compression = clamp_to_i64(
            self.time_compression as i128 + COMPRESSION_STEP as i128,
        );
    }

    /// Lowers the time compression by one step, but not below zero.
    pub fn decrease_time_compression(&mut self)
        ensures
            final(self).running == old(self).running,
            final(self).time_compression == if old(self).time_compression >= COMPRESSION_STEP {
                old(self).time_compression - COMPRESSION_STEP
            } else if old(self).time_compression >= 0 {
                0int
            } else {
                old(self).time_compression as int
            },
    {
        if self.time_compression >= COMPRESSION_STEP {
            self.time_compression = self.time_compression - COMPRESSION_STEP;
        } else if self.time_compression >= 0 {
            self.time_compression = 0;
        }
    }

    /// The time that a step is asked to cover when `dt` has passed.
    pub fn effective(&self, dt: i64) -> (r: i64)
        ensures
            r == effective_time(*self, dt),
            r >= 0,
    {
        if self.running && dt > 0 && self.time_compression > 0 {
            let wide_dt: i128 = dt as i128;
            let factor: i128 = self.time_compression as i128;
            assert(0 <= wide_dt * factor <= 0x8000_0000_0000_0000 * 0x8000_0000_0000_0000)
                by (nonlinear_arith)
                requires
                    0 < wide_dt <= 0x8000_0000_0000_0000,
                    0 < factor <= 0x8000_0000_0000_0000,
            ;
            let scaled: i128 = div_toward_zero(wide_dt * factor, UNIT_WIDE);
            proof {
                vstd::arithmetic::div_mod::lemma_div_pos_is_pos(
                    wide_dt as int * factor as int,
                    UNIT as int,
                );
            }
            clamp_to_i64(scaled)
        } else {
            0
        }
    }
}

} // verus!
