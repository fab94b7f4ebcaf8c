//! The player that searches the game tree with plain minimax.

use core::marker::PhantomData;
use vstd::prelude::*;
use crate::base::{with_move, BlitzPlayer, Board, Player, PlayerMark};
use crate::player::game_tree::{
    counted, first_best, first_best_is_first_maximum, heuristic_value, is_heuristic, minimax,
    minimax_choice, minimax_effort, minimax_over, minimax_scores,
};
use crate::score::Score;

verus! {

/// Minimax to a fixed depth without any pruning, for the mark fixed at
/// construction. It is the yardstick for the pruning player.
pub struct MinMaxAi<B: Board + Copy, F: Fn(PlayerMark, &B) -> Score> {
    my_marker: PlayerMark,
    /// A performance counter. If we prune well, this number is small
    n_leafs_evaluated: usize,
    heuristic_fn: F,
    max_depth: usize,
    board: PhantomData<B>,
}

impl<B: Board + Copy, F: Fn(PlayerMark, &B) -> Score> MinMaxAi<B, F> {
    /// The heuristic gives every position one score.
    #[verifier::type_invariant]
    spec fn heuristic_is_a_function(self) -> bool {
        is_heuristic::<B, F>(self.heuristic_fn)
    }

    /// The side this player searches for.
    pub closed spec fn mark(&self) -> PlayerMark {
        self.my_marker
    }

    /// The depth to which each move of the root is searched.
    pub closed spec fn depth(&self) -> nat {
        self.max_depth as nat
    }

    /// The heuristic that scores the leaves.
    pub closed spec fn scorer(&self) -> F {
        self.heuristic_fn
    }

    /// The leaves scored since construction.
    pub closed spec fn leaves_scored(&self) -> usize {
        self.n_leafs_evaluated
    }

    /// The same player as `before`, after `leaves` more leaves were scored.
    pub open spec fn after_scoring(&self, before: &Self, leaves: nat) -> bool {
        &&& self.mark() == before.mark()
        &&& self.depth() == before.depth()
        &&& self.scorer() == before.scorer()
        &&& self.leaves_scored() == counted(before.leaves_scored(), leaves)
    }

    /// A player for `mark` that searches `depth` plies beyond each of its
    /// moves and scores the leaves with `heuristic_fn`, which must be a pure
    /// function of the position.
    pub fn new(mark: PlayerMark, heuristic_fn: F, depth: usize) -> (ai: Self)
        requires
            is_heuristic::<B, F>(heuristic_fn),
        ensures
            ai.mark() == mark,
            ai.scorer() == heuristic_fn,
            ai.depth() == depth,
            ai.leaves_scored() == 0,
    {
        Self {
            my_marker: mark,
            n_leafs_evaluated: 0,
            heuristic_fn,
            max_depth: depth,
            board: PhantomData,
        }
    }

    /// The number of leaves scored since construction, as far as the counter
    /// can count.
    pub fn n_leafs_evaluated(&self) -> (n: usize)
        ensures
            n == self.leaves_scored(),
    {
        self.n_leafs_evaluated
    }

    /// Scores a leaf and counts it.
    fn heuristic(&mut self, b: &B) -> (s: Score)
        requires
            b.inv(),
        ensures
            s == heuristic_value(old(self).scorer(), old(self).mark(), *b),
            final(self).after_scoring(old(self), 1),
    {
        proof {
            use_type_invariant(&*self);
        }
        self.n_leafs_evaluated = self.n_leafs_evaluated.saturating_add(1);
        (self.heuristic_fn)(self.my_marker, b)
    }

    /// compute the score of a node by use of minimax
    /// Assumes I want to maximize my score, and the opponent makes moves to minimize it
    fn minimax(&mut self, node: &B, depth: usize, my_move: bool) -> (s: Score)
        requires
            node.inv(),
        ensures
            s == minimax(old(self).scorer(), old(self).mark(), *node, depth as nat, my_move).value,
            final(self).after_scoring(
                old(self),
                minimax(old(self).scorer(), old(self).mark(), *node, depth as nat, my_move).leaves,
            ),
        decreases depth,
    {
        if depth == 0 || node.game_is_over() {
            return self.heuristic(node);
        }
        let ghost f = self.heuristic_fn;
        let moves = node.valid_moves();
        let my_marker = self.my_marker;  // take a copy here
        let mover = if my_move {
            my_marker
        } else {
            my_marker.other()
        };
        // On its own move the AI looks for the move that maximizes the score,
        // on the other player's move for the one that minimizes it.
        let mut value = if my_move {
            Score::NegInf
        } else {
            Score::PosInf
        };
        let mut i: usize = 0;
        while i < moves.len()
            invariant
                i <= moves.len(),
                moves@ == node.moves(),
                node.inv(),
                node.status() is Undecided,
                depth > 0,
                my_marker == old(self).mark(),
                mover == crate::player::game_tree::mover(my_marker, my_move),
                f == old(self).scorer(),
                value == minimax_over(f, my_marker, *node, depth as nat, my_move, i as nat).value,
                self.after_scoring(
                    old(self),
                    minimax_over(f, my_marker, *node, depth as nat, my_move, i as nat).leaves,
                ),
            decreases moves.len() - i,
        {
            assert(node.moves()[i as int] == moves@[i as int]);
            let child = with_move(node, moves[i], mover);
            let newval = self.minimax(&child, depth - 1, !my_move);
            value = if my_move {
                value.max(newval)
            } else {
                value.min(newval)
            };
            i += 1;
        }
        value
    }
}

impl<B: Board + Copy, F: Fn(PlayerMark, &B) -> Score> Player<B> for MinMaxAi<B, F> {
    /// Plays the first of the moves with the highest minimax score.
    fn play(&mut self, b: &B) -> (c: B::Coordinate)
        ensures
            c == minimax_choice(old(self).scorer(), old(self).mark(), *b, old(self).depth()),
            final(self).after_scoring(
                old(self),
                minimax_effort(
                    old(self).scorer(),
                    old(self).mark(),
                    *b,
                    old(self).depth(),
                    b.moves().len(),
                ),
            ),
    {
        let ghost f = self.heuristic_fn;
        let ghost scores = minimax_scores(f, self.my_marker, *b, self.max_depth as nat);
        let moves = b.valid_moves();
        let my_marker = self.my_marker;
        let max_depth = self.max_depth;
        proof {
            b.open_game_has_moves();
        }
        let mut best: usize = 0;
        let mut best_score = Score::NegInf;
        let mut i: usize = 0;
        while i < moves.len()
            invariant
                i <= moves.len(),
                moves@ == b.moves(),
                moves.len() > 0,
                b.inv(),
                b.status() is Undecided,
                my_marker == old(self).mark(),
                max_depth == old(self).depth(),
                f == old(self).scorer(),
                scores == minimax_scores(f, my_marker, *b, max_depth as nat),
                best as int == first_best(scores, i as nat),
                i > 0 ==> best_score == scores[best as int],
                i > 0 ==> best < i,
                self.after_scoring(old(self), minimax_effort(f, my_marker, *b, max_depth as nat, i as nat)),
            decreases moves.len() - i,
        {
            proof {
                assert(b.moves()[i as int] == moves@[i as int]);
                if i > 0 {
                    first_best_is_first_maximum(scores, i as nat);
                }
            }
            let b2 = with_move(b, moves[i], my_marker);
            let score = self.minimax(&b2, max_depth, false);
            if i == 0 || score.gt(&best_score) {
                best = i;
                best_score = score;
            }
            i += 1;
        }
        proof {
            first_best_is_first_maximum(scores, moves.len() as nat);
            assert(b.moves()[best as int] == moves@[best as int]);
        }
        moves[best]
    }
}

impl<B: Board + Copy, F: Fn(PlayerMark, &B) -> Score> BlitzPlayer<B> for MinMaxAi<B, F> {
    /// Plays as without a clock: the search depth is fixed, whatever the time
    /// left.
    fn blitz(&mut self, b: &B, _time_remaining: u128) -> (c: B::Coordinate)
        ensures
            c == minimax_choice(old(self).scorer(), old(self).mark(), *b, old(self).depth()),
            final(self).after_scoring(
                old(self),
                minimax_effort(
                    old(self).scorer(),
                    old(self).mark(),
                    *b,
                    old(self).depth(),
                    b.moves().len(),
                ),
            ),
    {
        self.play(b)
    }
}

} // verus!
