//! The source of randomness: a seeded generator of the `rand` crate, reached
//! through three small functions whose contracts are taken on trust.

use vstd::prelude::*;
use rand::rngs::StdRng;
use rand::seq::SliceRandom;
use rand::{Rng, RngCore};

verus! {

/// The generator of `rand`, opaque to the verifier.
#[verifier::external_type_specification]
#[verifier::external_body]
pub struct ExStdRng(StdRng);

/// The number of values a uniform draw can take: two to the power 53, the
/// precision with which `rand` fills the unit interval.
pub const DRAW_RANGE: u64 = 0x20_0000_0000_0000;

/// The same number, for arithmetic in `i128`.
pub const DRAW_RANGE_WIDE: i128 = 0x20_0000_0000_0000;

/// Calls `RngCore::next_u64` of `rand`. Nothing is claimed of the word that
/// comes back.
#[verifier::external_body]
pub(crate) fn next_word(rng: &mut StdRng) -> (word: u64) {
    rng.next_u64()
}

/// Calls `Rng::gen_range` of `rand` on two `i64` bounds. Claimed: the result
/// lies between `low`, included, and `high`, excluded. The call panics unless
/// `low < high`, which the precondition asks for.
#[verifier::external_body]
pub(crate) fn uniform_between(rng: &mut StdRng, low: i64, high: i64) -> (r: i64)
    requires
        low < high,
    ensures
        low <= r < high,
{
    rng.gen_range(low, high)
}

/// Calls `SliceRandom::shuffle` of `rand`, which only swaps elements. Claimed:
/// the vector afterwards holds the same elements, each as often as before.
#[verifier::external_body]
pub(crate) fn shuffle(indices: &mut Vec<usize>, rng: &mut StdRng)
    ensures
        final(indices)@.to_multiset() == old(indices)@.to_multiset(),
{
    indices.shuffle(rng);
}

/// A uniform draw from the unit interval, as the numerator of a fraction over
/// `DRAW_RANGE`: the upper 53 bits of a random word. Which word comes is open,
/// so only the range is owed; `draw_from_word` says what each word gives.
pub fn draw(rng: &mut StdRng) -> (d: u64)
    ensures
        d < DRAW_RANGE,
{
    let word: u64 = next_word(rng);
    draw_from_word(word)
}

/// What a random word is divided by to give a draw: two to the power 11, so
/// that the lower 11 bits of the word are left out.
pub const DRAW_DROPPED: u64 = 0x800;

/// The draw that a random word gives: the word without its lower 11 bits.
pub open spec fn draw_of(word: u64) -> int {
    word as int / DRAW_DROPPED as int
}

/// The draw that a random word gives: its upper 53 bits, the number that
/// `rand` scales into the unit interval.
pub fn draw_from_word(word: u64) -> (d: u64)
    ensures
        d == draw_of(word),
        d < DRAW_RANGE,
{
    assert(word >> 11 == word / 0x800 && word >> 11 < 0x20_0000_0000_0000u64) by (bit_vector);
    word >> 11
}

/// Whether a draw `d` falls below the probability `p / scale`, decided
/// exactly: `d / DRAW_RANGE < p / scale`.
pub open spec fn draw_below(d: int, p: int, scale: int) -> bool {
    d * scale < p * DRAW_RANGE
}

} // verus!
