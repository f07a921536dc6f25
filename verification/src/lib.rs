//! A population of circular agents that move in a two-dimensional box, collide
//! elastically and pass an infection on when they touch.
//!
//! All real quantities (lengths, speeds, times, rates, probabilities) are
//! fixed-point numbers: an `i64` that counts millionths of a unit. A uniform
//! random draw is the numerator of a fraction over two to the power 53. With
//! these every decision of the library is an exact comparison of integers,
//! and every function is verified against a contract stated over mathematical
//! integers, sequences and sets.
//!
//! The parts, all under [`simulation`]:
//!
//! - `fixed`, `space`: fixed-point arithmetic, and the box with its two
//!   topologies, a torus and a box between reflecting walls;
//! - `params`, `controls`: the configuration, and what can be changed while a
//!   simulation runs;
//! - `person`: one agent, its motion, its contacts and its health;
//! - `collision`, `sweep`: the response to a collision, and the search for
//!   the collisions of one step by sorting and sweeping;
//! - `placement`, `selection`, `contacts`, `health`: what the phases of the
//!   construction and of a step do, as relations between the agents before
//!   and after;
//! - `random`, `indices`: the generator of the `rand` crate, and orders of
//!   indices;
//! - `stats`, `chart`: counting the agents, and the history of the counts.
//!
//! [`simulation::Simulation`] ties them together. Beside it, [`layout`]
//! places the parts of a picture of the simulation in a window.
//!
//! Four functions are taken on trust, each a single call with its contract
//! beside it: three into `rand`, in `random`, and one into the sorting of the
//! standard library, in `sweep`.

pub mod layout;
pub mod simulation;
