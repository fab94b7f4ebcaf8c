//! The game tree as mathematics: what minimax computes, what alpha-beta
//! computes, and the proof that pruning never changes the answer.

use vstd::prelude::*;
use crate::base::{Board, PlayerMark};
use crate::score::Score;

verus! {

/// The side that moves at a node: the searching side on its own turn, its
/// opponent otherwise.
pub open spec fn mover(me: PlayerMark, my_move: bool) -> PlayerMark {
    if my_move {
        me
    } else {
        me.opponent()
    }
}

/// The score that the heuristic `f` gives position `b`, seen from `me`.
pub open spec fn heuristic_value<B: Board, F: Fn(PlayerMark, &B) -> Score>(
    f: F,
    me: PlayerMark,
    b: B,
) -> Score {
    choose|s: Score| call_ensures(f, (me, &b), s)
}

/// `f` can serve as a heuristic: it accepts every consistent position and
/// gives each position one score only.
pub open spec fn is_heuristic<B: Board, F: Fn(PlayerMark, &B) -> Score>(f: F) -> bool {
    &&& forall|me: PlayerMark, b: B| b.inv() ==> call_requires(f, (me, &b))
    &&& forall|me: PlayerMark, b: B, s: Score, t: Score|
        call_ensures(f, (me, &b), s) && call_ensures(f, (me, &b), t) ==> s == t
}

/// What a search of a subtree brings back: the value of its root and the
/// number of leaves that were scored on the way.
pub struct Visit {
    pub value: Score,
    pub leaves: nat,
}

/// The state of alpha-beta in the middle of a node: the best value so far,
/// the window as narrowed so far, whether the rest of the children has been
/// cut off, and the leaves scored so far.
pub struct Scan {
    pub value: Score,
    pub alpha: Score,
    pub beta: Score,
    pub cut: bool,
    pub leaves: nat,
}

/// A counter of scored leaves that started at `before` and has seen `leaves`
/// more. It stops at the largest number it can hold.
pub open spec fn counted(before: usize, leaves: nat) -> usize {
    if before + leaves > usize::MAX {
        usize::MAX
    } else {
        (before + leaves) as usize
    }
}

/// A node at which the search stops and asks the heuristic.
pub open spec fn is_leaf<B: Board>(node: B, depth: nat) -> bool {
    depth == 0 || !(node.status() is Undecided)
}

/// The `i`-th child of a node.
pub open spec fn child<B: Board>(node: B, me: PlayerMark, my_move: bool, i: int) -> B {
    node.placed(node.moves()[i], mover(me, my_move))
}

/// Plain minimax to the given depth: the searching side maximises, its
/// opponent minimises, and the heuristic scores the leaves.
pub open spec fn minimax<B: Board, F: Fn(PlayerMark, &B) -> Score>(
    f: F,
    me: PlayerMark,
    node: B,
    depth: nat,
    my_move: bool,
) -> Visit
    decreases depth, 1nat, 0nat,
{
    if is_leaf(node, depth) {
        Visit { value: heuristic_value(f, me, node), leaves: 1 }
    } else {
        minimax_over(f, me, node, depth, my_move, node.moves().len())
    }
}

/// Minimax over the first `k` children of an inner node.
pub open spec fn minimax_over<B: Board, F: Fn(PlayerMark, &B) -> Score>(
    f: F,
    me: PlayerMark,
    node: B,
    depth: nat,
    my_move: bool,
    k: nat,
) -> Visit
    decreases depth, 0nat, k,
{
    if depth == 0 || k == 0 {
        Visit {
            value: if my_move {
                Score::NegInf
            } else {
                Score::PosInf
            },
            leaves: 0,
        }
    } else {
        let sofar = minimax_over(f, me, node, depth, my_move, (k - 1) as nat);
        let sub = minimax(f, me, child(node, me, my_move, k - 1), (depth - 1) as nat, !my_move);
        Visit {
            value: if my_move {
                sofar.value.upper(sub.value)
            } else {
                sofar.value.lower(sub.value)
            },
            leaves: sofar.leaves + sub.leaves,
        }
    }
}

/// Alpha-beta to the given depth within the window from `a` to `b`.
pub open spec fn pruned<B: Board, F: Fn(PlayerMark, &B) -> Score>(
    f: F,
    me: PlayerMark,
    node: B,
    depth: nat,
    a: Score,
    b: Score,
    my_move: bool,
) -> Visit
    decreases depth, 1nat, 0nat,
{
    if is_leaf(node, depth) {
        Visit { value: heuristic_value(f, me, node), leaves: 1 }
    } else {
        let s = pruned_over(f, me, node, depth, a, b, my_move, node.moves().len());
        Visit { value: s.value, leaves: s.leaves }
    }
}

/// Alpha-beta over the first `k` children of an inner node. Once a value
/// reaches the far side of the window the remaining children are skipped.
pub open spec fn pruned_over<B: Board, F: Fn(PlayerMark, &B) -> Score>(
    f: F,
    me: PlayerMark,
    node: B,
    depth: nat,
    a: Score,
    b: Score,
    my_move: bool,
    k: nat,
) -> Scan
    decreases depth, 0nat, k,
{
    if depth == 0 || k == 0 {
        Scan {
            value: if my_move {
                Score::NegInf
            } else {
                Score::PosInf
            },
            alpha: a,
            beta: b,
            cut: false,
            leaves: 0,
        }
    } else {
        let sofar = pruned_over(f, me, node, depth, a, b, my_move, (k - 1) as nat);
        if sofar.cut {
            sofar
        } else {
            let sub = pruned(
                f,
                me,
                child(node, me, my_move, k - 1),
                (depth - 1) as nat,
                sofar.alpha,
                sofar.beta,
                !my_move,
            );
            if my_move {
                let value = sofar.value.upper(sub.value);
                Scan {
                    value,
                    alpha: sofar.alpha.upper(value),
                    beta: sofar.beta,
                    cut: value.rank() >= sofar.beta.rank(),
                    leaves: sofar.leaves + sub.leaves,
                }
            } else {
                let value = sofar.value.lower(sub.value);
                Scan {
                    value,
                    alpha: sofar.alpha,
                    beta: sofar.beta.lower(value),
                    cut: value.rank() <= sofar.alpha.rank(),
                    leaves: sofar.leaves + sub.leaves,
                }
            }
        }
    }
}

/// After a cut the scan of a node does not change any more.
pub proof fn cut_freezes_scan<B: Board, F: Fn(PlayerMark, &B) -> Score>(
    f: F,
    me: PlayerMark,
    node: B,
    depth: nat,
    a: Score,
    b: Score,
    my_move: bool,
    k: nat,
    n: nat,
)
    requires
        k <= n,
        pruned_over(f, me, node, depth, a, b, my_move, k).cut,
    ensures
        pruned_over(f, me, node, depth, a, b, my_move, n) == pruned_over(
            f,
            me,
            node,
            depth,
            a,
            b,
            my_move,
            k,
        ),
    decreases n,
{
    if k < n {
        cut_freezes_scan(f, me, node, depth, a, b, my_move, k, (n - 1) as nat);
    }
}

/// What alpha-beta returns brackets the minimax value: a result below the
/// upper end of the window is an upper bound of it, a result above the lower
/// end is a lower bound of it. Alpha-beta never scores more leaves than
/// minimax.
pub proof fn pruning_brackets_minimax<B: Board, F: Fn(PlayerMark, &B) -> Score>(
    f: F,
    me: PlayerMark,
    node: B,
    depth: nat,
    a: Score,
    b: Score,
    my_move: bool,
)
    ensures
        ({
            let r = pruned(f, me, node, depth, a, b, my_move);
            let v = minimax(f, me, node, depth, my_move);
            &&& r.value.rank() < b.rank() ==> v.value.rank() <= r.value.rank()
            &&& r.value.rank() > a.rank() ==> v.value.rank() >= r.value.rank()
            &&& r.leaves <= v.leaves
        }),
    decreases depth, 1nat, 0nat,
{
    if !is_leaf(node, depth) {
        pruning_brackets_minimax_over(f, me, node, depth, a, b, my_move, node.moves().len());
    }
}

/// The bracket of `pruning_brackets_minimax`, as it stands after the first
/// `k` children of an inner node.
pub proof fn pruning_brackets_minimax_over<B: Board, F: Fn(PlayerMark, &B) -> Score>(
    f: F,
    me: PlayerMark,
    node: B,
    depth: nat,
    a: Score,
    b: Score,
    my_move: bool,
    k: nat,
)
    requires
        depth > 0,
    ensures
        ({
            let s = pruned_over(f, me, node, depth, a, b, my_move, k);
            let v = minimax_over(f, me, node, depth, my_move, k);
            &&& s.leaves <= v.leaves
            &&& my_move ==> {
                &&& s.alpha == a.upper(s.value)
                &&& s.beta == b
                &&& s.cut ==> s.value.rank() >= b.rank()
                &&& !s.cut && k > 0 ==> s.value.rank() < b.rank()
                &&& !s.cut ==> v.value.rank() <= s.value.rank()
                &&& s.value.rank() > a.rank() ==> v.value.rank() >= s.value.rank()
            }
            &&& !my_move ==> {
                &&& s.beta == b.lower(s.value)
                &&& s.alpha == a
                &&& s.cut ==> s.value.rank() <= a.rank()
                &&& !s.cut && k > 0 ==> s.value.rank() > a.rank()
                &&& !s.cut ==> v.value.rank() >= s.value.rank()
                &&& s.value.rank() < b.rank() ==> v.value.rank() <= s.value.rank()
            }
        }),
    decreases depth, 0nat, k,
{
    if k > 0 {
        pruning_brackets_minimax_over(f, me, node, depth, a, b, my_move, (k - 1) as nat);
        let sofar = pruned_over(f, me, node, depth, a, b, my_move, (k - 1) as nat);
        if !sofar.cut {
            pruning_brackets_minimax(
                f,
                me,
                child(node, me, my_move, k - 1),
                (depth - 1) as nat,
                sofar.alpha,
                sofar.beta,
                !my_move,
            );
        }
    }
}

/// With the window wide open alpha-beta returns the minimax value itself.
pub proof fn open_window_is_exact<B: Board, F: Fn(PlayerMark, &B) -> Score>(
    f: F,
    me: PlayerMark,
    node: B,
    depth: nat,
    my_move: bool,
)
    ensures
        pruned(f, me, node, depth, Score::NegInf, Score::PosInf, my_move).value == minimax(
            f,
            me,
            node,
            depth,
            my_move,
        ).value,
        pruned(f, me, node, depth, Score::NegInf, Score::PosInf, my_move).leaves <= minimax(
            f,
            me,
            node,
            depth,
            my_move,
        ).leaves,
{
    pruning_brackets_minimax(f, me, node, depth, Score::NegInf, Score::PosInf, my_move);
    let r = pruned(f, me, node, depth, Score::NegInf, Score::PosInf, my_move).value;
    let v = minimax(f, me, node, depth, my_move).value;
    Score::rank_is_injective(r, v);
}

/// The index of the first score that no other score exceeds, among the
/// first `k` scores. With no score to look at it is 0.
pub open spec fn first_best(scores: Seq<Score>, k: nat) -> int
    decreases k,
{
    if k <= 1 {
        0
    } else {
        let before = first_best(scores, (k - 1) as nat);
        if scores[k - 1].rank() > scores[before].rank() {
            k - 1
        } else {
            before
        }
    }
}

/// `first_best` names a score that is maximal, and the first of its kind.
pub proof fn first_best_is_first_maximum(scores: Seq<Score>, k: nat)
    requires
        1 <= k <= scores.len(),
    ensures
        0 <= first_best(scores, k) < k,
        forall|j: int|
            0 <= j < k ==> (#[trigger] scores[j]).rank() <= scores[first_best(scores, k)].rank(),
        forall|j: int|
            0 <= j < first_best(scores, k) ==> (#[trigger] scores[j]).rank() < scores[first_best(
                scores,
                k,
            )].rank(),
    decreases k,
{
    if k > 1 {
        first_best_is_first_maximum(scores, (k - 1) as nat);
    }
}

/// The minimax scores of the root's moves when `me` is to play them: each
/// move is followed by a search of the given depth in which the opponent
/// moves first.
pub open spec fn minimax_scores<B: Board, F: Fn(PlayerMark, &B) -> Score>(
    f: F,
    me: PlayerMark,
    root: B,
    depth: nat,
) -> Seq<Score> {
    Seq::new(
        root.moves().len(),
        |i: int| minimax(f, me, child(root, me, true, i), depth, false).value,
    )
}

/// The alpha-beta scores of the root's moves, each searched with the window
/// wide open.
pub open spec fn pruned_scores<B: Board, F: Fn(PlayerMark, &B) -> Score>(
    f: F,
    me: PlayerMark,
    root: B,
    depth: nat,
) -> Seq<Score> {
    Seq::new(
        root.moves().len(),
        |i: int|
            pruned(f, me, child(root, me, true, i), depth, Score::NegInf, Score::PosInf, false).value,
    )
}

/// The move that plain minimax plays: the first of the moves with the
/// highest minimax score.
pub open spec fn minimax_choice<B: Board, F: Fn(PlayerMark, &B) -> Score>(
    f: F,
    me: PlayerMark,
    root: B,
    depth: nat,
) -> B::Coordinate {
    root.moves()[first_best(minimax_scores(f, me, root, depth), root.moves().len())]
}

/// The move that alpha-beta plays: the first of the moves with the highest
/// alpha-beta score.
pub open spec fn pruned_choice<B: Board, F: Fn(PlayerMark, &B) -> Score>(
    f: F,
    me: PlayerMark,
    root: B,
    depth: nat,
) -> B::Coordinate {
    root.moves()[first_best(pruned_scores(f, me, root, depth), root.moves().len())]
}

/// The leaves that plain minimax scores for a decision at the root, counted
/// over the first `k` moves.
pub open spec fn minimax_effort<B: Board, F: Fn(PlayerMark, &B) -> Score>(
    f: F,
    me: PlayerMark,
    root: B,
    depth: nat,
    k: nat,
) -> nat
    decreases k,
{
    if k == 0 {
        0
    } else {
        minimax_effort(f, me, root, depth, (k - 1) as nat) + minimax(
            f,
            me,
            child(root, me, true, k - 1),
            depth,
            false,
        ).leaves
    }
}

/// The leaves that alpha-beta scores for a decision at the root, counted over
/// the first `k` moves.
pub open spec fn pruned_effort<B: Board, F: Fn(PlayerMark, &B) -> Score>(
    f: F,
    me: PlayerMark,
    root: B,
    depth: nat,
    k: nat,
) -> nat
    decreases k,
{
    if k == 0 {
        0
    } else {
        pruned_effort(f, me, root, depth, (k - 1) as nat) + pruned(
            f,
            me,
            child(root, me, true, k - 1),
            depth,
            Score::NegInf,
            Score::PosInf,
            false,
        ).leaves
    }
}

/// Pruning costs nothing in quality and saves work: for every position,
/// depth and heuristic, alpha-beta and plain minimax give every move of the
/// root the same score and so choose the same move, and alpha-beta scores no
/// more leaves than minimax does.
pub proof fn pruning_equivalence<B: Board, F: Fn(PlayerMark, &B) -> Score>(
    f: F,
    me: PlayerMark,
    root: B,
    depth: nat,
)
    ensures
        pruned_scores(f, me, root, depth) == minimax_scores(f, me, root, depth),
        pruned_choice(f, me, root, depth) == minimax_choice(f, me, root, depth),
        pruned_effort(f, me, root, depth, root.moves().len()) <= minimax_effort(
            f,
            me,
            root,
            depth,
            root.moves().len(),
        ),
{
    assert forall|i: int| 0 <= i < root.moves().len() implies pruned_scores(f, me, root, depth)[i]
        == minimax_scores(f, me, root, depth)[i] by {
        open_window_is_exact(f, me, child(root, me, true, i), depth, false);
    }
    assert(pruned_scores(f, me, root, depth) =~= minimax_scores(f, me, root, depth));
    pruning_saves_effort(f, me, root, depth, root.moves().len());
}

/// Over any number of the root's moves alpha-beta scores no more leaves than
/// minimax.
pub proof fn pruning_saves_effort<B: Board, F: Fn(PlayerMark, &B) -> Score>(
    f: F,
    me: PlayerMark,
    root: B,
    depth: nat,
    k: nat,
)
    ensures
        pruned_effort(f, me, root, depth, k) <= minimax_effort(f, me, root, depth, k),
    decreases k,
{
    if k > 0 {
        pruning_saves_effort(f, me, root, depth, (k - 1) as nat);
        open_window_is_exact(f, me, child(root, me, true, k - 1), depth, false);
    }
}

} // verus!
