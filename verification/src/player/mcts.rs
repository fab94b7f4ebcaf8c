//! Monte Carlo Tree Search -- general implementation
//! This holds a general implementation of the MCTS algorithm, which is a general algorithm for solving MDPs where the state
//! evolves in a tree-like structure. It will not work if you can have cycles in the state space.
//!
//! It also holds a Ai struct, that knows how to play a game using MCTS, assuming the MDP structure of the games is known.

use core::marker::PhantomData;
use rand::rngs::StdRng;
use vstd::prelude::*;
use crate::base::{BlitzPlayer, GameStatus, GameType, Keyed, Player, PlayerMark};
use crate::chance::{choose_item, choose_ref, seeded};
use crate::clock::{nanos_since, now};
use crate::game::cells::same_mark;
use crate::player::qmap::{Mdp, QMap, Stat};
use crate::player::ucb::{back_up, backed_up, clamped, one_more, ucb, ucb_score, UNIT};
use crate::score::Score;

verus! {

/// The UCB1 score of taking `a` from `s`, as the table `q` has it.
pub open spec fn score_of<M: Mdp>(q: &QMap<M>, s: M::State, c: nat, a: M::Action) -> Score {
    ucb_score(
        c,
        q.stat(s, a).total as int,
        q.stat(s, a).visits as nat,
        q.state_visits(s) as nat,
    )
}

/// The UCB1 scores of the actions allowed in `s`, in their order.
pub open spec fn scores<M: Mdp>(q: &QMap<M>, s: M::State, c: nat) -> Seq<Score> {
    Seq::new(M::allowed(s).len(), |i: int| score_of(q, s, c, M::allowed(s)[i]))
}

/// The best score met so far and the actions that reached it.
pub struct Lead<A> {
    pub record: Score,
    pub actions: Seq<A>,
}

/// The leaders among the first `k` actions: the actions whose score no
/// other of them exceeds, in their order.
pub open spec fn leaders<A>(actions: Seq<A>, scores: Seq<Score>, k: nat) -> Lead<A>
    decreases k,
{
    if k == 0 {
        Lead { record: Score::NegInf, actions: Seq::empty() }
    } else {
        let before = leaders(actions, scores, (k - 1) as nat);
        let s = scores[k - 1];
        if s == before.record {
            Lead { record: before.record, actions: before.actions.push(actions[k - 1]) }
        } else if s.rank() > before.record.rank() {
            Lead { record: s, actions: seq![actions[k - 1]] }
        } else {
            before
        }
    }
}

/// The actions among which the search picks at random. Where no action was
/// taken from the state yet, these are all the allowed actions; otherwise
/// they are the allowed actions with the highest UCB1 score.
pub open spec fn candidates<M: Mdp>(q: &QMap<M>, s: M::State, c: nat) -> Seq<M::Action> {
    if q.has_actions(s) {
        leaders(M::allowed(s), scores(q, s, c), M::allowed(s).len()).actions
    } else {
        M::allowed(s)
    }
}

/// The leaders are exactly the actions with the highest score: no score
/// exceeds the record, every leader reached it, and every action that
/// reached it is a leader. Where there is an action there is a leader.
pub proof fn leaders_are_the_best<A>(actions: Seq<A>, scores: Seq<Score>, k: nat)
    requires
        k <= actions.len(),
        k <= scores.len(),
    ensures
        forall|i: int| 0 <= i < k ==> (#[trigger] scores[i]).rank() <= leaders(actions, scores, k).record.rank(),
        forall|i: int|
            0 <= i < k && #[trigger] scores[i] == leaders(actions, scores, k).record ==> leaders(
                actions,
                scores,
                k,
            ).actions.contains(actions[i]),
        forall|j: int|
            0 <= j < leaders(actions, scores, k).actions.len() ==> exists|i: int|
                0 <= i < k && actions[i] == #[trigger] leaders(actions, scores, k).actions[j] && scores[i]
                    == leaders(actions, scores, k).record,
        k > 0 ==> leaders(actions, scores, k).actions.len() > 0,
    decreases k,
{
    if k > 0 {
        leaders_are_the_best(actions, scores, (k - 1) as nat);
        let before = leaders(actions, scores, (k - 1) as nat);
        let now = leaders(actions, scores, k);
        let s = scores[k - 1];
        Score::rank_is_injective(s, before.record);
        if s == before.record {
            assert(now.actions[before.actions.len() as int] == actions[k - 1]);
            assert forall|i: int| 0 <= i < k && #[trigger] scores[i] == now.record implies now.actions.contains(
                actions[i],
            ) by {
                if i < k - 1 {
                    let j = choose|j: int| 0 <= j < before.actions.len() && before.actions[j] == actions[i];
                    assert(now.actions[j] == actions[i]);
                }
            }
            assert forall|j: int| 0 <= j < now.actions.len() implies exists|i: int|
                0 <= i < k && actions[i] == #[trigger] now.actions[j] && scores[i] == now.record by {
                if j < before.actions.len() {
                    assert(now.actions[j] == before.actions[j]);
                    let i = choose|i: int|
                        0 <= i < k - 1 && actions[i] == before.actions[j] && scores[i] == before.record;
                    assert(0 <= i < k && actions[i] == now.actions[j] && scores[i] == now.record);
                } else {
                    assert(actions[k - 1] == now.actions[j] && scores[k - 1] == now.record);
                }
            }
        } else if s.rank() > before.record.rank() {
            assert(now.actions[0] == actions[k - 1]);
            assert forall|i: int| 0 <= i < k && #[trigger] scores[i] == now.record implies now.actions.contains(
                actions[i],
            ) by {
                assert(i == k - 1);
            }
            assert forall|j: int| 0 <= j < now.actions.len() implies exists|i: int|
                0 <= i < k && actions[i] == #[trigger] now.actions[j] && scores[i] == now.record by {
                assert(actions[k - 1] == now.actions[j] && scores[k - 1] == now.record);
            }
        } else {
            assert forall|j: int| 0 <= j < now.actions.len() implies exists|i: int|
                0 <= i < k && actions[i] == #[trigger] now.actions[j] && scores[i] == now.record by {
                let i = choose|i: int|
                    0 <= i < k - 1 && actions[i] == before.actions[j] && scores[i] == before.record;
                assert(0 <= i < k && actions[i] == now.actions[j] && scores[i] == now.record);
            }
        }
    }
}

/// The actions among which `best_action` picks.
pub fn best_candidates<M: Mdp>(state: &M::State, c: u32, qmap: &QMap<M>) -> (best: Vec<M::Action>)
    requires
        M::valid(*state),
        qmap.wf(),
    ensures
        best@ == candidates(qmap, *state, c as nat),
        !M::terminal(*state) ==> M::allowed(*state).len() > 0,
{
    let allowed_actions = M::allowed_actions(state);
    if !qmap.knows(state) {
        return allowed_actions;
    }
    let t = qmap.n_state_visits(state);
    let ghost all = scores(qmap, *state, c as nat);
    let mut record = Score::NegInf;
    let mut actions: Vec<M::Action> = Vec::new();
    let mut i: usize = 0;
    while i < allowed_actions.len()
        invariant
            i <= allowed_actions.len(),
            qmap.wf(),
            allowed_actions@ == M::allowed(*state),
            t == qmap.state_visits(*state),
            all == scores(qmap, *state, c as nat),
            record == leaders(allowed_actions@, all, i as nat).record,
            actions@ == leaders(allowed_actions@, all, i as nat).actions,
        decreases allowed_actions.len() - i,
    {
        let action = allowed_actions[i];
        let score = match qmap.get(state, &action) {
            Some(stat) => ucb(c, stat.total, stat.visits, t),
            None => ucb(c, 0, 0, t),
        };
        assert(score == all[i as int]);
        if score == record {
            actions.push(action);
        } else if score.gt(&record) {
            record = score;
            actions = Vec::new();
            actions.push(action);
        }
        i += 1;
    }
    actions
}

/// Picks the action to take from an open state: one of the candidates, each
/// with the same chance.
pub fn best_action<M: Mdp>(state: &M::State, c: u32, qmap: &QMap<M>, rng: &mut StdRng) -> (best: M::Action)
    requires
        M::valid(*state),
        !M::terminal(*state),
        qmap.wf(),
    ensures
        candidates(qmap, *state, c as nat).contains(best),
        M::allowed(*state).contains(best),
{
    let best = best_candidates::<M>(state, c, qmap);
    proof {
        leaders_are_the_best(M::allowed(*state), scores(qmap, *state, c as nat), M::allowed(*state).len());
        candidates_are_allowed(qmap, *state, c as nat);
    }
    choose_item(best, rng).unwrap()
}

/// Every candidate is an allowed action.
pub proof fn candidates_are_allowed<M: Mdp>(q: &QMap<M>, s: M::State, c: nat)
    ensures
        forall|a: M::Action| candidates(q, s, c).contains(a) ==> M::allowed(s).contains(a),
{
    let all = M::allowed(s);
    let l = leaders(all, scores(q, s, c), all.len());
    leaders_are_the_best(all, scores(q, s, c), all.len());
    assert forall|a: M::Action| candidates(q, s, c).contains(a) implies all.contains(a) by {
        if q.has_actions(s) {
            let j = choose|j: int| 0 <= j < l.actions.len() && l.actions[j] == a;
            let i = choose|i: int|
                0 <= i < all.len() && all[i] == #[trigger] l.actions[j] && scores(q, s, c)[i] == l.record;
            assert(all[i] == a);
        }
    }
}

/// A step from `s`: the allowed action `a` may be answered with the state
/// `next` and the reward `reward`. What is returned `later` plays no part.
pub open spec fn is_step<M: Mdp>(s: M::State, a: M::Action, next: M::State, reward: i64, later: int) -> bool {
    M::allowed(s).contains(a) && M::may_follow(s, a, next, reward) && M::horizon(next) < M::horizon(s)
}

/// A way to play on from `s` can return `g`: from a terminal state only 0
/// is returned; from any other state the return is the reward of a step
/// that may follow an allowed action, plus the discounted return of a way
/// to play on from where the step led.
pub open spec fn can_return<M: Mdp>(s: M::State, g: int) -> bool
    decreases M::horizon(s),
{
    if M::terminal(s) {
        g == 0
    } else {
        exists|a: M::Action, next: M::State, reward: i64, later: int|
            #[trigger] is_step::<M>(s, a, next, reward, later) && g == backed_up(
                reward as int,
                M::discount(),
                later,
            ) && can_return::<M>(next, later)
    }
}

/// The return `g` from `s` comes about by the action `a`, which is answered
/// with the state `next` and the reward `reward`, and a way to play on from
/// `next` that returns `later`.
pub open spec fn returns_via<M: Mdp>(
    s: M::State,
    g: int,
    a: M::Action,
    next: M::State,
    reward: i64,
    later: int,
) -> bool {
    &&& is_step::<M>(s, a, next, reward, later)
    &&& g == backed_up(reward as int, M::discount(), later)
    &&& can_return::<M>(next, later)
}

/// The return `g` from `s` comes about by the action `a` and some way to
/// play on after it.
pub open spec fn can_return_after<M: Mdp>(s: M::State, a: M::Action, g: int) -> bool {
    exists|next: M::State, reward: i64, later: int| #[trigger] returns_via::<M>(s, g, a, next, reward, later)
}

/// Play randomly until end of game, and return the 'return'
/// The return is the sum of all future rewards, discounted by the discount factor
pub fn rollout<M: Mdp>(s: M::State, rng: &mut StdRng) -> (g: i64)
    requires
        M::valid(s),
    ensures
        can_return::<M>(s, g as int),
    decreases M::horizon(s),
{
    if M::is_terminal(&s) {
        return 0;
    }
    let actions = M::allowed_actions(&s);
    let action = choose_ref(&actions, rng).unwrap();
    let (state, reward) = M::act(s, action);
    let later = rollout::<M>(state, rng);
    let g = back_up(reward, M::discount_factor(), later);
    assert(returns_via::<M>(s, g as int, *action, state, reward, later as int));
    g
}

/// The search took `a` from `state` and saw the return `g`: `a` was one of
/// the candidates, `g` is what a way to play on after `a` can return, the
/// state and the action were visited once more, the return was added to the
/// action's total, and nothing else is new about the state.
pub open spec fn took<M: Mdp>(
    before: &QMap<M>,
    after: &QMap<M>,
    state: M::State,
    c: nat,
    g: int,
    a: M::Action,
) -> bool {
    &&& candidates(before, state, c).contains(a)
    &&& can_return_after::<M>(state, a, g)
    &&& after.state_visits(state) == one_more(before.state_visits(state) as nat)
    &&& after.stat(state, a) == (Stat {
        total: clamped(before.stat(state, a).total + g) as i64,
        visits: one_more(before.stat(state, a).visits as nat) as u64,
    })
    &&& forall|b: M::Action| b != a ==> #[trigger] after.stat(state, b) == before.stat(state, b)
}

/// What one step of the search from `state` does to the table, whatever the
/// dice gave. No count ever falls. What the table says of the states that
/// cannot follow `state` stays as it was. From a terminal state nothing
/// changes and the return is 0; from any other state one action was taken.
pub open spec fn stepped<M: Mdp>(before: &QMap<M>, after: &QMap<M>, state: M::State, c: nat, g: int) -> bool {
    &&& forall|s: M::State| #[trigger] after.state_visits(s) >= before.state_visits(s)
    &&& forall|s: M::State, a: M::Action| (#[trigger] after.stat(s, a)).visits >= before.stat(s, a).visits
    &&& forall|s: M::State|
        M::horizon(s) >= M::horizon(state) && s != state ==> #[trigger] after.agrees_on(before, s)
    &&& if M::terminal(state) {
        g == 0 && forall|s: M::State| #[trigger] after.agrees_on(before, s)
    } else {
        exists|a: M::Action| took(before, after, state, c, g, a)
    }
}

/// The return of a step of the search is what a way to play on from the
/// state can return.
pub proof fn step_returns_what_play_can<M: Mdp>(
    before: &QMap<M>,
    after: &QMap<M>,
    state: M::State,
    c: nat,
    g: int,
)
    requires
        stepped(before, after, state, c, g),
    ensures
        can_return::<M>(state, g),
{
    if !M::terminal(state) {
        let a = choose|a: M::Action| took(before, after, state, c, g, a);
        let (next, reward, later) = choose|next: M::State, reward: i64, later: int| #[trigger]
            returns_via::<M>(state, g, a, next, reward, later);
        assert(returns_via::<M>(state, g, a, next, reward, later));
    }
}

/// Run one step of the MCTS algorithm
/// The algorithm is:
/// 1. Select. Go down the game tree until you find a leaf node. I.e. a node that has not been visited yet.
///    The selection process is by taking the 'best' child at each node, where 'best' is defined by the UCB1 formula (or some other tree planning algo)
/// 2. Expand. If the node is new, expand into all its children. This step is kind of funny, because if you don't keep track of all non-taken actions, it is a noop.
/// 3. Rollout. From a new state, do a random rollout until the end of the game, and return the return.
/// 4. Backup. All the states visited in the selection process are updated with the return of the rollout. Apply discounting if needed.
///
/// N.B. You may accumulate return at every step in the tree.
/// The "Reward" is called G and is the total reward over all future steps.
pub fn mcts_step<M: Mdp>(state: &M::State, c: u32, qmap: &mut QMap<M>, rng: &mut StdRng) -> (g_return: i64)
    requires
        M::valid(*state),
        old(qmap).wf(),
    ensures
        final(qmap).wf(),
        stepped(old(qmap), final(qmap), *state, c as nat, g_return as int),
    decreases M::horizon(*state),
{
    if M::is_terminal(state) {
        return 0;
    }
    let best_action = best_action::<M>(state, c, qmap, rng);
    let (new_state, reward) = M::act(*state, &best_action);
    let n_visits_to_new = qmap.n_state_visits(&new_state);
    let later = if n_visits_to_new == 0 {
        qmap.increment_state_visits(&new_state);
        rollout::<M>(new_state, rng)
    } else {
        mcts_step::<M>(&new_state, c, qmap, rng)
    };
    let g_return = back_up(reward, M::discount_factor(), later);
    let ghost mid = *qmap;
    proof {
        assert(can_return::<M>(new_state, later as int)) by {
            if n_visits_to_new != 0 {
                step_returns_what_play_can::<M>(old(qmap), &mid, new_state, c as nat, later as int);
            }
        }
        assert(returns_via::<M>(*state, g_return as int, best_action, new_state, reward, later as int));
    }
    proof {
        assert(mid.agrees_on(old(qmap), *state));
        assert forall|s: M::State| M::horizon(s) >= M::horizon(*state) implies #[trigger] mid.agrees_on(
            old(qmap),
            s,
        ) by {}
        assert forall|s: M::State| #[trigger] mid.state_visits(s) >= old(qmap).state_visits(s) by {
            if n_visits_to_new == 0 {
                if s != new_state {
                    assert(mid.agrees_on(old(qmap), s));
                }
            }
        }
        assert forall|s: M::State, a: M::Action| (#[trigger] mid.stat(s, a)).visits >= old(qmap).stat(
            s,
            a,
        ).visits by {
            if n_visits_to_new == 0 {
                if s != new_state {
                    assert(mid.agrees_on(old(qmap), s));
                }
            }
        }
    }

    // Update the Q-function
    qmap.add_to_state_action_data(state, &best_action, g_return);
    proof {
        let before = old(qmap);
        let after = &*qmap;
        assert(took(before, after, *state, c as nat, g_return as int, best_action));
        assert forall|s: M::State| #[trigger] after.state_visits(s) >= before.state_visits(s) by {
            assert(mid.state_visits(s) >= before.state_visits(s));
            if s != *state {
                assert(after.agrees_on(&mid, s));
            }
        }
        assert forall|s: M::State, a: M::Action| (#[trigger] after.stat(s, a)).visits >= before.stat(
            s,
            a,
        ).visits by {
            assert(mid.stat(s, a).visits >= before.stat(s, a).visits);
            if s != *state {
                assert(after.agrees_on(&mid, s));
            }
        }
        assert forall|s: M::State| M::horizon(s) >= M::horizon(*state) && s != *state implies #[trigger] after.agrees_on(
            before,
            s,
        ) by {
            assert(after.agrees_on(&mid, s));
            assert(mid.agrees_on(before, s));
        }
    }
    g_return
}

/// A count that has seen `n` more, as far as 64 bits can count.
pub open spec fn n_more(x: nat, n: nat) -> nat {
    if x + n >= u64::MAX {
        u64::MAX as nat
    } else {
        x + n
    }
}

/// What `n` steps of the search from `state` do to the table, whatever the
/// dice gave. No count ever falls. What the table says of the states that
/// cannot follow `state` stays as it was. An open state was visited `n`
/// times more; of a terminal state all stays as it was.
pub open spec fn searched<M: Mdp>(before: &QMap<M>, after: &QMap<M>, state: M::State, n: nat) -> bool {
    &&& forall|s: M::State| #[trigger] after.state_visits(s) >= before.state_visits(s)
    &&& forall|s: M::State, a: M::Action| (#[trigger] after.stat(s, a)).visits >= before.stat(s, a).visits
    &&& forall|s: M::State|
        M::horizon(s) >= M::horizon(state) && s != state ==> #[trigger] after.agrees_on(before, s)
    &&& if M::terminal(state) {
        after.agrees_on(before, state)
    } else {
        after.state_visits(state) == n_more(before.state_visits(state) as nat, n)
    }
}

/// One step more carries a search on.
pub proof fn search_goes_on<M: Mdp>(
    before: &QMap<M>,
    mid: &QMap<M>,
    after: &QMap<M>,
    state: M::State,
    c: nat,
    g: int,
    n: nat,
)
    requires
        searched(before, mid, state, n),
        stepped(mid, after, state, c, g),
    ensures
        searched(before, after, state, n + 1),
{
    assert forall|s: M::State| #[trigger] after.state_visits(s) >= before.state_visits(s) by {
        assert(mid.state_visits(s) >= before.state_visits(s));
    }
    assert forall|s: M::State, a: M::Action| (#[trigger] after.stat(s, a)).visits >= before.stat(
        s,
        a,
    ).visits by {
        assert(mid.stat(s, a).visits >= before.stat(s, a).visits);
    }
    assert forall|s: M::State| M::horizon(s) >= M::horizon(state) && s != state implies #[trigger] after.agrees_on(
        before,
        s,
    ) by {
        assert(after.agrees_on(mid, s));
        assert(mid.agrees_on(before, s));
    }
    if M::terminal(state) {
        assert(after.agrees_on(mid, state));
    } else {
        let a = choose|a: M::Action| took(mid, after, state, c, g, a);
    }
}

/// From a fresh table, two steps of the search from a state with two
/// allowed actions take each action once: an action that was never taken
/// scores above every number, so the second step takes the action that the
/// first step left.
pub proof fn two_steps_take_both_actions<M: Mdp>(
    q0: &QMap<M>,
    q1: &QMap<M>,
    q2: &QMap<M>,
    root: M::State,
    c: nat,
    g1: int,
    g2: int,
)
    requires
        q0.is_fresh(),
        !M::terminal(root),
        M::allowed(root).len() == 2,
        M::allowed(root)[0] != M::allowed(root)[1],
        stepped(q0, q1, root, c, g1),
        stepped(q1, q2, root, c, g2),
    ensures
        q2.state_visits(root) == 2,
        q2.stat(root, M::allowed(root)[0]).visits == 1,
        q2.stat(root, M::allowed(root)[1]).visits == 1,
{
    let all = M::allowed(root);
    let first = choose|a: M::Action| took(q0, q1, root, c, g1, a);
    let second = choose|a: M::Action| took(q1, q2, root, c, g2, a);
    candidates_are_allowed(q0, root, c);
    candidates_are_allowed(q1, root, c);
    assert(all.contains(first));
    assert(all.contains(second));
    let i = choose|i: int| 0 <= i < all.len() && all[i] == first;
    let rest = all[1 - i];
    assert(rest != first);
    assert(q1.stat(root, first).visits == 1);
    assert(q1.stat(root, rest) == q0.stat(root, rest));
    assert(q1.has_actions(root));
    // In the second step the action that was left is the only candidate.
    let sc = scores(q1, root, c);
    leaders_are_the_best(all, sc, 2);
    let l = leaders(all, sc, 2);
    assert(sc[1 - i] == Score::PosInf);
    assert(sc[i] is Finite);
    assert(sc[1 - i].rank() <= l.record.rank());
    assert(l.record == Score::PosInf) by {
        Score::rank_is_injective(l.record, Score::PosInf);
    }
    let j = choose|j: int| 0 <= j < l.actions.len() && l.actions[j] == second;
    let k = choose|k: int| 0 <= k < 2 && all[k] == #[trigger] l.actions[j] && sc[k] == l.record;
    assert(k == 1 - i);
    assert(second == rest);
}

/// The discount factor of the games, in thousandths. It is negative: what
/// is good for the side that moves is bad for the side that moved before.
/// It stays a little short of -1 so that far rewards fade.
pub const DISCOUNT_FACTOR: i64 = -999;

/// The number of search steps that a player takes before each move when it
/// plays without a clock, unless told otherwise.
pub const PLAY_STEPS: u32 = 10000;

/// The share of the remaining time that a move may take when playing with
/// a clock: one in this many.
pub const TIME_SHARE: u128 = 8;

/// The reward for the move that led to a position with the given status,
/// for the side `mover` that made it: a unit for a win, minus a unit for a
/// loss, nothing otherwise.
pub open spec fn reward_of(status: GameStatus, mover: PlayerMark) -> int {
    match status {
        GameStatus::Won(mark) => if mark == mover {
            UNIT as int
        } else {
            -UNIT
        },
        _ => 0,
    }
}

/// The game on boards of type `B`, seen as a decision process of one agent
/// that moves for both sides in turn. The states are the positions, the
/// actions are the legal moves, and the reward belongs to the side that
/// moved.
pub struct BoardMdp<B> {
    board: PhantomData<B>,
}

impl<B: Keyed> Mdp for BoardMdp<B> {
    type State = B;

    type Action = B::Coordinate;

    open spec fn valid(s: B) -> bool {
        s.inv()
    }

    open spec fn terminal(s: B) -> bool {
        !(s.status() is Undecided)
    }

    open spec fn allowed(s: B) -> Seq<B::Coordinate> {
        s.moves()
    }

    open spec fn horizon(s: B) -> nat {
        s.room()
    }

    open spec fn discount() -> int {
        DISCOUNT_FACTOR as int
    }

    open spec fn code(s: B) -> u64 {
        s.code_of()
    }

    /// The side to move makes the move, and the reward is the one that the
    /// new position gives it.
    open spec fn may_follow(s: B, a: B::Coordinate, next: B, reward: i64) -> bool {
        next == s.placed(a, s.to_move()) && reward == reward_of(next.status(), s.to_move())
    }

    fn discount_factor() -> (d: i64) {
        DISCOUNT_FACTOR
    }

    /// The side to move makes the move; the reward is a unit if that won
    /// the game.
    fn act(s: B, action: &B::Coordinate) -> (r: (B, i64)) {
        let mut board = s;
        let player_mark = board.current_player();
        proof {
            s.placed_is_consistent(*action, player_mark);
        }
        board.place_mark(*action, player_mark);
        let reward: i64 = match board.game_status() {
            GameStatus::Won(mark) => {
                if same_mark(player_mark, mark) {
                    UNIT
                } else {
                    -UNIT
                }
            },
            _ => 0,
        };
        (board, reward)
    }

    fn is_terminal(s: &B) -> (t: bool) {
        !matches!(s.game_status(), GameStatus::Undecided)
    }

    fn allowed_actions(s: &B) -> (v: Vec<B::Coordinate>) {
        proof {
            if s.status() is Undecided {
                s.open_game_has_moves();
            }
        }
        s.valid_moves()
    }

    fn same_state(a: &B, b: &B) -> (same: bool) {
        a.same(b)
    }

    fn same_action(a: &B::Coordinate, b: &B::Coordinate) -> (same: bool) {
        B::same_move(a, b)
    }

    fn state_code(s: &B) -> (h: u64) {
        s.code()
    }
}

/// The exploration constant that suits the game, in thousandths. It is
/// smaller where the game branches more.
pub fn get_c(game: GameType) -> (c: u32)
    ensures
        c == match game {
            GameType::Ttt => 1000u32,
            GameType::Uttt => 750u32,
            GameType::C4 => 1000u32,
        },
{
    match game {
        GameType::Ttt => 1000,
        GameType::Uttt => 750,
        GameType::C4 => 1000,
    }
}

/// With `elapsed` nanoseconds spent on `n_steps` steps of the search, one
/// step more would take the move over its share of the `time_remaining`:
/// the time spent, the time of an average step and a millisecond in hand
/// exceed one eighth of what is left.
pub open spec fn out_of_time(elapsed: nat, n_steps: nat, time_remaining: nat) -> bool {
    elapsed + elapsed / n_steps + 1_000_000 > time_remaining / (TIME_SHARE as nat)
}

/// Must the search stop now?
pub fn time_is_up(elapsed: u128, n_steps: u32, time_remaining: u128) -> (stop: bool)
    requires
        n_steps > 0,
    ensures
        stop == out_of_time(elapsed as nat, n_steps as nat, time_remaining as nat),
{
    let duration_per_step = elapsed / (n_steps as u128);
    let share = time_remaining / TIME_SHARE;
    match elapsed.checked_add(duration_per_step) {
        None => true,
        Some(spent) => match spent.checked_add(1_000_000) {
            None => true,
            Some(needed) => needed > share,
        },
    }
}

/// A table of statistics that is known to be in order.
pub struct Memory<B: Keyed> {
    qmap: QMap<BoardMdp<B>>,
}

impl<B: Keyed> Memory<B> {
    #[verifier::type_invariant]
    spec fn table_is_in_order(self) -> bool {
        self.qmap.wf()
    }

    /// The table.
    pub closed spec fn table(&self) -> &QMap<BoardMdp<B>> {
        &self.qmap
    }

    /// An empty table.
    pub fn new() -> (m: Self)
        ensures
            m.table().is_fresh(),
    {
        Memory { qmap: QMap::new() }
    }

    /// Takes a table that is in order.
    pub fn from_table(qmap: QMap<BoardMdp<B>>) -> (m: Self)
        requires
            qmap.wf(),
        ensures
            *m.table() == qmap,
    {
        Memory { qmap }
    }

    /// Hands the table out.
    pub fn into_table(self) -> (qmap: QMap<BoardMdp<B>>)
        ensures
            qmap == *self.table(),
            qmap.wf(),
    {
        proof {
            use_type_invariant(&self);
        }
        self.qmap
    }
}

/// A counter of search steps that started at `before` and has seen `steps`
/// more. It stops at the largest number it can hold.
pub open spec fn counted_steps(before: u32, steps: nat) -> u32 {
    if before + steps > u32::MAX {
        u32::MAX
    } else {
        (before + steps) as u32
    }
}

/// The player that searches with random playouts. It keeps what it learns
/// from move to move and from game to game.
pub struct MctsAi<B: Keyed> {
    memory: Memory<B>,
    rng: StdRng,
    /// The exploration constant in the UCB1 formula, in thousandths.
    c: u32,
    steps_taken: u32,
    play_steps: u32,
}

impl<B: Keyed> MctsAi<B> {
    /// What the player has learnt.
    pub closed spec fn table(&self) -> &QMap<BoardMdp<B>> {
        self.memory.table()
    }

    /// The exploration constant of the player, in thousandths.
    pub closed spec fn exploration(&self) -> u32 {
        self.c
    }

    /// The number of search steps before each move without a clock.
    pub closed spec fn budget(&self) -> u32 {
        self.play_steps
    }

    /// The number of search steps taken since construction, as far as the
    /// counter can count.
    pub closed spec fn steps(&self) -> u32 {
        self.steps_taken
    }

    /// seed is for the RNG, c is the exploration constant in the UCB1 formula
    pub fn new(seed: u64, c: u32) -> (ai: Self)
        ensures
            ai.table().is_fresh(),
            ai.exploration() == c,
            ai.budget() == PLAY_STEPS,
            ai.steps() == 0,
    {
        MctsAi { memory: Memory::new(), rng: seeded(seed), c, steps_taken: 0, play_steps: PLAY_STEPS }
    }

    /// A player that starts from what was learnt before.
    pub fn with_memory(seed: u64, c: u32, qmap: QMap<BoardMdp<B>>) -> (ai: Self)
        requires
            qmap.wf(),
        ensures
            *ai.table() == qmap,
            ai.exploration() == c,
            ai.budget() == PLAY_STEPS,
            ai.steps() == 0,
    {
        MctsAi {
            memory: Memory::from_table(qmap),
            rng: seeded(seed),
            c,
            steps_taken: 0,
            play_steps: PLAY_STEPS,
        }
    }

    /// Ends the player and hands out what it has learnt, to be stored.
    pub fn into_memory(self) -> (qmap: QMap<BoardMdp<B>>)
        ensures
            qmap == *self.table(),
            qmap.wf(),
    {
        self.memory.into_table()
    }

    /// The number of search steps taken since construction, as far as the
    /// counter can count.
    pub fn steps_taken(&self) -> (n: u32)
        ensures
            n == self.steps(),
    {
        self.steps_taken
    }

    /// Sets the number of search steps before each move without a clock.
    pub fn set_play_steps(&mut self, steps: u32)
        ensures
            final(self).table() == old(self).table(),
            final(self).exploration() == old(self).exploration(),
            final(self).steps() == old(self).steps(),
            final(self).budget() == steps,
    {
        self.play_steps = steps;
    }

    /// Takes the table out of the player, leaving an empty one in its place.
    fn take_table(&mut self) -> (qmap: QMap<BoardMdp<B>>)
        ensures
            qmap == *old(self).table(),
            qmap.wf(),
            final(self).c == old(self).c,
            final(self).play_steps == old(self).play_steps,
            final(self).steps_taken == old(self).steps_taken,
    {
        let mut memory = Memory::new();
        core::mem::swap(&mut self.memory, &mut memory);
        memory.into_table()
    }
}

impl<B: Keyed> Player<B> for MctsAi<B> {
    /// Searches for a fixed number of steps and plays one of the candidates
    /// of the table as it stands after the search.
    fn play(&mut self, b: &B) -> (c: B::Coordinate)
        ensures
            searched(old(self).table(), final(self).table(), *b, old(self).budget() as nat),
            candidates(final(self).table(), *b, old(self).exploration() as nat).contains(c),
            final(self).exploration() == old(self).exploration(),
            final(self).budget() == old(self).budget(),
            final(self).steps() == counted_steps(old(self).steps(), old(self).budget() as nat),
    {
        let mut qmap = self.take_table();
        let steps = self.play_steps;
        let mut n: u32 = 0;
        while n < steps
            invariant
                n <= steps,
                b.inv(),
                qmap.wf(),
                self.c == old(self).c,
                self.play_steps == old(self).play_steps,
                self.steps_taken == counted_steps(old(self).steps_taken, n as nat),
                searched(old(self).table(), &qmap, *b, n as nat),
            decreases steps - n,
        {
            let ghost mid = qmap;
            let g = mcts_step::<BoardMdp<B>>(b, self.c, &mut qmap, &mut self.rng);
            proof {
                search_goes_on(old(self).table(), &mid, &qmap, *b, self.c as nat, g as int, n as nat);
            }
            self.steps_taken = self.steps_taken.saturating_add(1);
            n += 1;
        }
        let a = best_action::<BoardMdp<B>>(b, self.c, &qmap, &mut self.rng);
        self.memory = Memory::from_table(qmap);
        a
    }
}

impl<B: Keyed> BlitzPlayer<B> for MctsAi<B> {
    /// Searches as long as the clock allows and plays one of the candidates
    /// of the table as it stands after the search. At least one step of the
    /// search is taken.
    fn blitz(&mut self, b: &B, time_remaining: u128) -> (c: B::Coordinate)
        ensures
            exists|n: nat|
                n >= 1 && #[trigger] searched(old(self).table(), final(self).table(), *b, n)
                    && final(self).steps() == counted_steps(old(self).steps(), n),
            candidates(final(self).table(), *b, old(self).exploration() as nat).contains(c),
            final(self).exploration() == old(self).exploration(),
            final(self).budget() == old(self).budget(),
    {
        let mut qmap = self.take_table();
        let t0 = now();
        let mut n_steps: u32 = 0;
        while n_steps < u32::MAX
            invariant
                b.inv(),
                qmap.wf(),
                self.c == old(self).c,
                self.play_steps == old(self).play_steps,
                self.steps_taken == old(self).steps_taken,
                searched(old(self).table(), &qmap, *b, n_steps as nat),
            ensures
                n_steps >= 1,
            decreases u32::MAX - n_steps,
        {
            let ghost mid = qmap;
            let g = mcts_step::<BoardMdp<B>>(b, self.c, &mut qmap, &mut self.rng);
            proof {
                search_goes_on(old(self).table(), &mid, &qmap, *b, self.c as nat, g as int, n_steps as nat);
            }
            n_steps += 1;
            if time_is_up(nanos_since(&t0), n_steps, time_remaining) {
                break ;
            }
        }
        self.steps_taken = self.steps_taken.saturating_add(n_steps);
        let a = best_action::<BoardMdp<B>>(b, self.c, &qmap, &mut self.rng);
        self.memory = Memory::from_table(qmap);
        assert(searched(old(self).table(), self.table(), *b, n_steps as nat) && self.steps()
            == counted_steps(old(self).steps(), n_steps as nat));
        a
    }
}

} // verus!
