//! Ways to pick one of the legal moves.
use crate::board::Move;
use rand::rngs::ThreadRng;
use rand::seq::SliceRandom;
use vstd::prelude::*;

verus! {

/// `rand::rngs::ThreadRng`, a handle to the random number generator of the
/// current thread. Nothing is known of its state.
#[verifier::external_type_specification]
#[verifier::external_body]
pub struct ExThreadRng(ThreadRng);

/// `rand::thread_rng` hands out the generator of the current thread, which
/// the system seeds; it panics where the system has no seed to give. Nothing
/// is claimed of the handle.
pub assume_specification[ rand::thread_rng ]() -> ThreadRng;

/// `rand::seq::SliceRandom::choose` on a slice of moves: `None` where the
/// slice is empty, else one of its elements, picked at random. Which one is
/// not said.
#[verifier::external_body]
fn choose_at_random<'a>(rng: &mut ThreadRng, moves: &'a [Move]) -> (choice: Option<&'a Move>)
    ensures
        moves@.len() == 0 ==> choice is None,
        moves@.len() > 0 ==> choice is Some,
        choice matches Some(mv) ==> moves@.contains(*mv),
{
    moves.choose(rng)
}

/// A way to pick the next move among the legal ones. `None` says that the
/// turn cannot be played.
pub trait Strategy {
    /// The strategy finds a move whenever there is one. Nothing is taken for
    /// granted of a strategy that does not say so.
    open spec fn resolute(&self) -> bool {
        false
    }

    /// One of `moves`, or `None`. A resolute strategy stays resolute, and
    /// picks a move whenever there is one.
    fn pick<'a>(&mut self, moves: &'a [Move]) -> (choice: Option<&'a Move>)
        ensures
            choice matches Some(mv) ==> moves@.contains(*mv),
            old(self).resolute() ==> final(self).resolute(),
            old(self).resolute() && moves@.len() > 0 ==> choice is Some,
    ;
}

/// Picks each move at random, all with the same chance.
#[derive(Debug)]
pub struct RandomStrategy {
    rng: ThreadRng,
}

impl RandomStrategy {
    /// A strategy that draws from the generator of the current thread.
    pub fn new() -> Self {
        RandomStrategy { rng: rand::thread_rng() }
    }
}

impl Strategy for RandomStrategy {
    /// There is a random move whenever there is a move.
    open spec fn resolute(&self) -> bool {
        true
    }

    /// One of the moves, whenever there is one.
    fn pick<'a>(&mut self, moves: &'a [Move]) -> (choice: Option<&'a Move>) {
        choose_at_random(&mut self.rng, moves)
    }
}

} // verus!
