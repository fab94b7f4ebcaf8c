//! The player that moves at random.

use rand::rngs::StdRng;
use vstd::prelude::*;
use crate::base::{BlitzPlayer, Board, Player};
use crate::chance::{next_u32, seeded};

verus! {

/// Plays a legal move picked at random, each with the same chance.
pub struct RandomAi {
    rng: StdRng,
}

/// The move that the random number `r` selects: the moves are numbered
/// from 0, and `r` counts round and round through them.
pub fn pick_move<C: Copy>(moves: &Vec<C>, r: u32) -> (c: C)
    requires
        moves.len() > 0,
    ensures
        c == moves[(r as int) % (moves.len() as int)],
{
    let idx = r as usize % moves.len();
    moves[idx]
}

impl RandomAi {
    /// A random player whose moves are fixed by the seed.
    pub fn new(seed: u64) -> Self {
        Self { rng: seeded(seed) }
    }

    /// A random player that draws its moves from the given generator.
    pub fn from_rng(rng: StdRng) -> (ai: Self)
        ensures
            ai.generator() == rng,
    {
        Self { rng }
    }

    /// The generator from which the player draws its moves.
    pub closed spec fn generator(&self) -> StdRng {
        self.rng
    }
}

impl<B: Board> Player<B> for RandomAi {
    fn play(&mut self, b: &B) -> (c: B::Coordinate) {
        let moves = b.valid_moves();
        proof {
            b.open_game_has_moves();
        }
        let r = next_u32(&mut self.rng);
        let c = pick_move(&moves, r);
        assert(b.moves().contains(c)) by {
            assert(b.moves()[(r as int) % (moves.len() as int)] == c);
        }
        c
    }
}

impl<B: Board> BlitzPlayer<B> for RandomAi {
    fn blitz(&mut self, b: &B, time_remaining: u128) -> (c: B::Coordinate) {
        let _ = time_remaining;  // unused
        self.play(b)
    }
}

} // verus!
