//! The one source of chance: seeded dice that the caller hands in, so that a run can be repeated.

use rand::Rng;
use rand::SeedableRng;
use vstd::prelude::*;

verus! {

/// `rand::rngs::StdRng`, of which the verifier sees nothing but the name.
#[verifier::external_type_specification]
#[verifier::external_body]
pub struct ExStdRng(rand::rngs::StdRng);

/// A generator of random draws, started from a seed.
pub struct Dice {
    rng: rand::rngs::StdRng,
}

/// `rand::rngs::StdRng::seed_from_u64`; nothing is claimed of the generator that it gives.
#[verifier::external_body]
fn seeded(seed: u64) -> (rng: rand::rngs::StdRng) {
    rand::rngs::StdRng::seed_from_u64(seed)
}

/// `rand::Rng::gen::<bool>`: a fair draw.  Nothing is claimed of the outcome.
#[verifier::external_body]
fn draw_bool(rng: &mut rand::rngs::StdRng) -> (outcome: bool) {
    rng.gen::<bool>()
}

/// `rand::Rng::gen_ratio`, which panics on a zero denominator and on a numerator above it: both
/// are kept out.  Its outcome is sure where the ratio is all or nothing, and left open elsewhere.
#[verifier::external_body]
fn draw_ratio(rng: &mut rand::rngs::StdRng, numerator: u32, denominator: u32) -> (outcome: bool)
    requires
        denominator > 0,
        numerator <= denominator,
    ensures
        numerator == denominator ==> outcome,
        numerator == 0 ==> !outcome,
{
    rng.gen_ratio(numerator, denominator)
}

/// `rand::Rng::gen_range` on `0..bound`: the call panics on an empty range, so
/// a zero bound is kept out; the outcome lies in the range.
#[verifier::external_body]
fn draw_below(rng: &mut rand::rngs::StdRng, bound: u32) -> (outcome: u32)
    requires
        bound > 0,
    ensures
        outcome < bound,
{
    rng.gen_range(0..bound)
}

impl Dice {
    /// Dice that roll the same way every time they are started from the same
    /// seed.
    pub fn from_seed(seed: u64) -> Dice {
        Dice { rng: seeded(seed) }
    }

    /// A fair coin.
    pub(crate) fn flip(&mut self) -> bool {
        draw_bool(&mut self.rng)
    }

    /// True with a chance of `numerator` in `denominator`: always where they are equal, never at 0.
    pub fn chance(&mut self, numerator: u32, denominator: u32) -> (outcome: bool)
        requires
            denominator > 0 && numerator <= denominator,
        ensures
            (numerator == denominator ==> outcome) && (numerator == 0 ==> !outcome),
    {
        draw_ratio(&mut self.rng, numerator, denominator)
    }
    /// A number below `bound`, each as likely as the other.
    pub(crate) fn below(&mut self, bound: u32) -> (outcome: u32)
        requires
            bound > 0,
        ensures
            outcome < bound,
    {
        draw_below(&mut self.rng, bound)
    }
}

} // verus!
