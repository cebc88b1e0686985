//! The game's source of chance: rand's thread-local generator.

use vstd::prelude::*;

verus! {

#[verifier::external_type_specification]
#[verifier::external_body]
pub struct ExThreadRng(rand::rngs::ThreadRng);

/// A handle to the thread-local random number generator.
///
/// Trusted: calls `rand::rng()`; nothing is stated of the handle.
#[verifier::external_body]
pub(crate) fn thread_rng() -> (rng: rand::rngs::ThreadRng) {
    rand::rng()
}

/// A number drawn from `0..upper`.
///
/// Trusted: calls rand's `RngExt::random_range` with the range `0..upper`;
/// its source panics on an empty range (hence `upper > 0`) and returns a
/// value inside the range. Which value is left to chance.
#[verifier::external_body]
pub(crate) fn random_below(rng: &mut rand::rngs::ThreadRng, upper: usize) -> (r: usize)
    requires
        upper > 0,
    ensures
        r < upper,
{
    rand::RngExt::random_range(rng, 0..upper)
}

/// A record of the numbers drawn through it, in order, so that contracts can
/// say what was done with each draw. Only `below` adds to it.
pub struct Draws {
    drawn: Ghost<Seq<usize>>,
}

impl Draws {
    /// The numbers drawn so far, first first.
    pub closed spec fn values(&self) -> Seq<usize> {
        self.drawn@
    }

    /// A record with nothing drawn yet.
    pub fn new() -> (d: Draws)
        ensures
            d.values() == Seq::<usize>::empty(),
    {
        Draws { drawn: Ghost(Seq::empty()) }
    }

    /// Draws a number from `0..upper` with `rng` and records it.
    pub fn below(&mut self, rng: &mut rand::rngs::ThreadRng, upper: usize) -> (r: usize)
        requires
            upper > 0,
        ensures
            r < upper,
            final(self).values() == old(self).values().push(r),
    {
        let r = random_below(rng, upper);
        self.drawn = Ghost(self.drawn@.push(r));
        r
    }
}

} // verus!
