//! The statistics that the tree search with random playouts learns: how
//! often each state was visited, and for each action taken from a state how
//! often it was taken and what it returned in total.

use std::collections::HashMap;
use vstd::prelude::*;
use crate::player::ucb::{add_clamped, clamped, one_more};

verus! {

/// A Markov decision process: states, the actions allowed in each, and a
/// step that answers an action with a new state and a reward. The step may
/// be random. Rewards and the discount factor are counted in thousandths.
///
/// Every step must lead closer to the end: `horizon` bounds the number of
/// steps that can still follow, so a state never comes back.
pub trait Mdp {
    type State: Copy;

    type Action: Copy;

    /// The state is one that the process can be in. Unless an implementation
    /// says otherwise, every state is.
    open spec fn valid(s: Self::State) -> bool {
        true
    }

    /// No action is allowed any more. An implementation says when.
    open spec fn terminal(s: Self::State) -> bool {
        arbitrary()
    }

    /// The actions allowed in the state, in the order in which
    /// `allowed_actions` lists them. An implementation says which.
    open spec fn allowed(s: Self::State) -> Seq<Self::Action> {
        arbitrary()
    }

    /// A bound on the number of steps that can follow the state. An
    /// implementation says which.
    open spec fn horizon(s: Self::State) -> nat {
        arbitrary()
    }

    /// The discount factor in thousandths: 1000 = no discount, 0 = only
    /// immediate reward. An implementation says which.
    open spec fn discount() -> int {
        arbitrary()
    }

    /// The number under which the statistics file the state. An
    /// implementation says which.
    open spec fn code(s: Self::State) -> u64 {
        arbitrary()
    }

    /// The step may answer the action `a` in state `s` with the state `next`
    /// and the reward `reward`. An implementation says when.
    open spec fn may_follow(s: Self::State, a: Self::Action, next: Self::State, reward: i64) -> bool {
        arbitrary()
    }

    fn discount_factor() -> (d: i64)
        ensures
            d == Self::discount(),
    ;

    /// Sample from p(s',r|s,a)
    /// see Sutton&Barto Equation 3.2
    /// The return is always as perceived by the actor that takes the action
    /// In 2 player games, this means that the reward has to be negated if the action is taken by the 'other' player
    /// One trick is to have a negative discount factor
    fn act(s: Self::State, action: &Self::Action) -> (r: (Self::State, i64))
        requires
            Self::valid(s),
            !Self::terminal(s),
            Self::allowed(s).contains(*action),
        ensures
            Self::valid(r.0),
            Self::horizon(r.0) < Self::horizon(s),
            Self::may_follow(s, *action, r.0, r.1),
    ;

    fn is_terminal(s: &Self::State) -> (t: bool)
        requires
            Self::valid(*s),
        ensures
            t == Self::terminal(*s),
    ;

    fn allowed_actions(s: &Self::State) -> (v: Vec<Self::Action>)
        requires
            Self::valid(*s),
        ensures
            v@ == Self::allowed(*s),
            !Self::terminal(*s) ==> v.len() > 0,
    ;

    fn same_state(a: &Self::State, b: &Self::State) -> (same: bool)
        ensures
            same == (*a == *b),
    ;

    fn same_action(a: &Self::Action, b: &Self::Action) -> (same: bool)
        ensures
            same == (*a == *b),
    ;

    fn state_code(s: &Self::State) -> (h: u64)
        ensures
            h == Self::code(*s),
    ;
}

/// What is known of one action taken from a state.
#[derive(Debug, PartialEq, Eq)]
pub struct ActionStat<A> {
    pub action: A,
    /// The sum of the returns that followed the action, in thousandths.
    pub total: i64,
    /// How often the action was taken.
    pub visits: u64,
}

/// What is known of one state.
#[derive(Debug, PartialEq, Eq)]
pub struct StateStat<S, A> {
    pub state: S,
    /// How often the state was visited.
    pub visits: u64,
    /// The actions taken from the state so far.
    pub actions: Vec<ActionStat<A>>,
}

/// The accumulated return and the number of visits of an action.
#[derive(Clone, Copy, Debug, PartialEq, Eq, Structural)]
pub struct Stat {
    pub total: i64,
    pub visits: u64,
}

/// The table of the statistics. It maps a state to the number of its visits,
/// and a state and an action to the accumulated return and the number of
/// visits of the action. What was never recorded counts as zero.
pub struct QMap<M: Mdp> {
    /// One entry for each state seen, in the order in which they were seen.
    entries: Vec<StateStat<M::State, M::Action>>,
    /// For each state code the places of the entries whose state has it.
    index: HashMap<u64, Vec<usize>>,
}

/// The table as two maps: from the states that were visited to the number
/// of their visits, and from the pairs of a state and an action taken from
/// it to what was seen of the action.
#[verifier::reject_recursive_types(S)]
#[verifier::reject_recursive_types(A)]
pub struct QView<S, A> {
    pub visits: Map<S, u64>,
    pub stats: Map<(S, A), Stat>,
}

impl<M: Mdp> View for QMap<M> {
    type V = QView<M::State, M::Action>;

    open spec fn view(&self) -> QView<M::State, M::Action> {
        QView {
            visits: Map::new(|s: M::State| self.state_visits(s) > 0, |s: M::State| self.state_visits(s)),
            stats: Map::new(
                |k: (M::State, M::Action)| self.stat(k.0, k.1).visits > 0,
                |k: (M::State, M::Action)| self.stat(k.0, k.1),
            ),
        }
    }
}

/// The place of the action in the list, if it is there.
pub open spec fn listed_at<A>(actions: Seq<ActionStat<A>>, a: A, k: int) -> bool {
    0 <= k < actions.len() && actions[k].action == a
}

/// What the list says of the action; zero where it does not hold it.
pub open spec fn stat_in<A>(actions: Seq<ActionStat<A>>, a: A) -> Stat {
    if exists|k: int| listed_at(actions, a, k) {
        let k = choose|k: int| listed_at(actions, a, k);
        Stat { total: actions[k].total, visits: actions[k].visits }
    } else {
        Stat { total: 0, visits: 0 }
    }
}

/// No action occurs twice in the list, and each was taken at least once.
pub open spec fn is_action_list<A>(actions: Seq<ActionStat<A>>) -> bool {
    &&& forall|k: int, l: int|
        0 <= k < l < actions.len() ==> (#[trigger] actions[k]).action != (#[trigger] actions[l]).action
    &&& forall|k: int| 0 <= k < actions.len() ==> (#[trigger] actions[k]).visits >= 1
}

/// In a list without repetition an action is found at one place only.
pub proof fn stat_in_reads_the_entry<A>(actions: Seq<ActionStat<A>>, k: int)
    requires
        is_action_list(actions),
        0 <= k < actions.len(),
    ensures
        stat_in(actions, actions[k].action) == (Stat {
            total: actions[k].total,
            visits: actions[k].visits,
        }),
{
    let a = actions[k].action;
    assert(listed_at(actions, a, k));
    let j = choose|j: int| listed_at(actions, a, j);
    if j < k {
        assert(actions[j].action != actions[k].action);
    } else if k < j {
        assert(actions[k].action != actions[j].action);
    }
}

/// The first `n` entries are in order and the index leads to each of them
/// and to no other: no state has two entries, every entry lists each action
/// once, and every place in the index holds an entry whose state has the
/// code under which the place is filed.
pub open spec fn is_indexed<M: Mdp>(
    entries: Seq<StateStat<M::State, M::Action>>,
    index: Map<u64, Vec<usize>>,
    n: nat,
) -> bool {
    &&& n <= entries.len()
    &&& forall|i: int, j: int|
        0 <= i < j < n ==> (#[trigger] entries[i]).state != (#[trigger] entries[j]).state
    &&& forall|i: int| 0 <= i < n ==> is_action_list((#[trigger] entries[i]).actions@)
    &&& forall|h: u64, j: int|
        index.contains_key(h) && 0 <= j < index[h].len() ==> {
            let i = #[trigger] index[h][j];
            i < n && M::code(entries[i as int].state) == h
        }
    &&& forall|i: int|
        0 <= i < n ==> index.contains_key(M::code((#[trigger] entries[i]).state)) && index[M::code(
            entries[i].state,
        )]@.contains(i as usize)
}

/// The place among the first `n` entries that holds the state, if there is
/// one.
fn find_in<M: Mdp>(
    entries: &Vec<StateStat<M::State, M::Action>>,
    index: &HashMap<u64, Vec<usize>>,
    n: usize,
    s: &M::State,
) -> (r: Option<usize>)
    requires
        is_indexed::<M>(entries@, index@, n as nat),
    ensures
        match r {
            Some(i) => i < n && entries[i as int].state == *s,
            None => forall|i: int| 0 <= i < n ==> (#[trigger] entries[i]).state != *s,
        },
{
    let h = M::state_code(s);
    match index.get(&h) {
        None => {
            assert forall|i: int| 0 <= i < n implies (#[trigger] entries[i]).state != *s by {
                assert(index@.contains_key(M::code(entries[i].state)));
            }
            None
        },
        Some(bucket) => {
            let mut j: usize = 0;
            while j < bucket.len()
                invariant
                    j <= bucket.len(),
                    is_indexed::<M>(entries@, index@, n as nat),
                    h == M::code(*s),
                    index@.contains_key(h),
                    *bucket == index@[h],
                    forall|l: int| 0 <= l < j ==> entries[(#[trigger] bucket[l]) as int].state != *s,
                decreases bucket.len() - j,
            {
                let i = bucket[j];
                assert(index@[h][j as int] == i);
                if M::same_state(&entries[i].state, s) {
                    return Some(i);
                }
                j += 1;
            }
            assert forall|i: int| 0 <= i < n implies (#[trigger] entries[i]).state != *s by {
                if entries[i].state == *s {
                    assert(index@[M::code(entries[i].state)]@.contains(i as usize));
                    let l = choose|l: int| 0 <= l < bucket@.len() && bucket@[l] == i as usize;
                    assert(entries[bucket[l] as int].state != *s);
                }
            }
            None
        },
    }
}

/// Files the entry at place `place` under the code of its state.
fn file_entry<M: Mdp>(
    entries: &Vec<StateStat<M::State, M::Action>>,
    index: &mut HashMap<u64, Vec<usize>>,
    place: usize,
)
    requires
        place < entries.len(),
        is_indexed::<M>(entries@, old(index)@, place as nat),
        forall|i: int| 0 <= i < place ==> (#[trigger] entries[i]).state != entries[place as int].state,
        is_action_list(entries[place as int].actions@),
    ensures
        is_indexed::<M>(entries@, final(index)@, (place + 1) as nat),
{
    let h = M::state_code(&entries[place].state);
    let mut bucket = match index.remove(&h) {
        Some(b) => b,
        None => Vec::new(),
    };
    let ghost before = bucket@;
    bucket.push(place);
    index.insert(h, bucket);
    proof {
        let n = place + 1;
        assert forall|k: u64, j: int| index@.contains_key(k) && 0 <= j < index@[k].len() implies {
            let i = #[trigger] index@[k][j];
            i < n && M::code(entries[i as int].state) == k
        } by {
            if k == h {
                if j < before.len() {
                    assert(old(index)@.contains_key(h));
                    assert(old(index)@[h][j] == before[j]);
                }
            } else {
                assert(old(index)@.contains_key(k));
                assert(old(index)@[k][j] == index@[k][j]);
            }
        }
        assert forall|i: int| 0 <= i < n implies index@.contains_key(M::code((#[trigger] entries[i]).state))
            && index@[M::code(entries[i].state)]@.contains(i as usize) by {
            let k = M::code(entries[i].state);
            if i == place {
                assert(index@[h][before.len() as int] == place);
            } else {
                assert(old(index)@.contains_key(k));
                let l = choose|l: int| 0 <= l < old(index)@[k]@.len() && old(index)@[k]@[l] == i as usize;
                if k == h {
                    assert(index@[h][l] == i as usize);
                } else {
                    assert(index@[k][l] == i as usize);
                }
            }
        }
    }
}

/// Does the list hold each action once, and each with a visit?
fn is_valid_action_list<M: Mdp>(actions: &Vec<ActionStat<M::Action>>) -> (ok: bool)
    ensures
        ok == is_action_list(actions@),
{
    let mut l: usize = 0;
    while l < actions.len()
        invariant
            l <= actions.len(),
            forall|i: int, j: int|
                0 <= i < j < l ==> (#[trigger] actions[i]).action != (#[trigger] actions[j]).action,
            forall|i: int| 0 <= i < l ==> (#[trigger] actions[i]).visits >= 1,
        decreases actions.len() - l,
    {
        if actions[l].visits == 0 {
            return false;
        }
        let mut k: usize = 0;
        while k < l
            invariant
                k <= l,
                l < actions.len(),
                forall|i: int| 0 <= i < k ==> (#[trigger] actions[i]).action != actions[l as int].action,
            decreases l - k,
        {
            if M::same_action(&actions[k].action, &actions[l].action) {
                return false;
            }
            k += 1;
        }
        l += 1;
    }
    true
}

impl<M: Mdp> QMap<M> {
    /// The entry at place `i` holds the state.
    pub closed spec fn holds_at(&self, s: M::State, i: int) -> bool {
        0 <= i < self.entries.len() && self.entries[i].state == s
    }

    /// The state has an entry.
    pub closed spec fn recorded(&self, s: M::State) -> bool {
        exists|i: int| self.holds_at(s, i)
    }

    /// The place of the state's entry.
    pub closed spec fn slot(&self, s: M::State) -> int {
        choose|i: int| self.holds_at(s, i)
    }

    /// No state has two entries, every entry lists each action once, and the
    /// index leads to every entry.
    pub closed spec fn wf(&self) -> bool {
        is_indexed::<M>(self.entries@, self.index@, self.entries.len() as nat)
    }

    /// How often the state was visited.
    pub closed spec fn state_visits(&self, s: M::State) -> u64 {
        if self.recorded(s) {
            self.entries[self.slot(s)].visits
        } else {
            0
        }
    }

    /// The accumulated return and the number of visits of the action taken
    /// from the state.
    pub closed spec fn stat(&self, s: M::State, a: M::Action) -> Stat {
        if self.recorded(s) {
            stat_in(self.entries[self.slot(s)].actions@, a)
        } else {
            Stat { total: 0, visits: 0 }
        }
    }

    /// Some action was taken from the state.
    pub open spec fn has_actions(&self, s: M::State) -> bool {
        exists|a: M::Action| (#[trigger] self.stat(s, a)).visits > 0
    }

    /// Nothing was recorded yet.
    pub open spec fn is_fresh(&self) -> bool {
        &&& forall|s: M::State| #[trigger] self.state_visits(s) == 0
        &&& forall|s: M::State, a: M::Action| #[trigger] self.stat(s, a) == (Stat { total: 0, visits: 0 })
    }

    /// The two tables say the same of the state.
    pub open spec fn agrees_on(&self, other: &Self, s: M::State) -> bool {
        &&& self.state_visits(s) == other.state_visits(s)
        &&& forall|a: M::Action| #[trigger] self.stat(s, a) == other.stat(s, a)
    }

    /// A state is found at one place only.
    proof fn slot_is_unique(&self, s: M::State, i: int)
        requires
            self.wf(),
            self.holds_at(s, i),
        ensures
            self.recorded(s),
            self.slot(s) == i,
    {
        let j = self.slot(s);
        assert(self.holds_at(s, j));
        if i < j {
            assert(self.entries[i].state != self.entries[j].state);
        } else if j < i {
            assert(self.entries[j].state != self.entries[i].state);
        }
    }

    /// Two tables that hold the same states at the same places file every
    /// state at the same place.
    proof fn same_places(&self, other: &Self)
        requires
            self.wf(),
            other.wf(),
            forall|s: M::State, j: int| self.holds_at(s, j) == other.holds_at(s, j),
        ensures
            forall|s: M::State| #[trigger] self.recorded(s) == other.recorded(s),
            forall|s: M::State| self.recorded(s) ==> #[trigger] self.slot(s) == other.slot(s),
    {
        assert forall|s: M::State| #[trigger] self.recorded(s) == other.recorded(s) by {
            if self.recorded(s) {
                assert(other.holds_at(s, self.slot(s)));
            }
            if other.recorded(s) {
                assert(self.holds_at(s, other.slot(s)));
            }
        }
        assert forall|s: M::State| self.recorded(s) implies #[trigger] self.slot(s) == other.slot(s) by {
            let j = self.slot(s);
            assert(other.holds_at(s, j));
            other.slot_is_unique(s, j);
        }
    }

    /// The empty table.
    pub fn new() -> (q: Self)
        ensures
            q.wf(),
            q.is_fresh(),
    {
        let q = QMap { entries: Vec::new(), index: HashMap::new() };
        assert(q.index@.dom() =~= Set::empty());
        assert(forall|s: M::State, i: int| !q.holds_at(s, i));
        q
    }

    /// The place of the state's entry, if it has one.
    fn find(&self, s: &M::State) -> (r: Option<usize>)
        requires
            self.wf(),
        ensures
            match r {
                Some(i) => self.holds_at(*s, i as int) && self.recorded(*s) && self.slot(*s) == i,
                None => !self.recorded(*s),
            },
    {
        let r = find_in::<M>(&self.entries, &self.index, self.entries.len(), s);
        proof {
            match r {
                Some(i) => {
                    self.slot_is_unique(*s, i as int);
                },
                None => {
                    assert forall|i: int| !self.holds_at(*s, i) by {
                        if 0 <= i < self.entries.len() {
                            assert(self.entries[i].state != *s);
                        }
                    }
                },
            }
        }
        r
    }

    /// The place of the action in the list, if it is there.
    fn find_action(actions: &Vec<ActionStat<M::Action>>, a: &M::Action) -> (r: Option<usize>)
        requires
            is_action_list(actions@),
        ensures
            match r {
                Some(k) => listed_at(actions@, *a, k as int) && stat_in(actions@, *a) == (Stat {
                    total: actions[k as int].total,
                    visits: actions[k as int].visits,
                }),
                None => forall|k: int| !listed_at(actions@, *a, k),
            },
    {
        let mut k: usize = 0;
        while k < actions.len()
            invariant
                k <= actions.len(),
                is_action_list(actions@),
                forall|l: int| 0 <= l < k ==> !listed_at(actions@, *a, l),
            decreases actions.len() - k,
        {
            if M::same_action(&actions[k].action, a) {
                proof {
                    stat_in_reads_the_entry(actions@, k as int);
                }
                return Some(k);
            }
            k += 1;
        }
        None
    }

    /// The number of visits to the state.
    pub fn n_state_visits(&self, state: &M::State) -> (n: u64)
        requires
            self.wf(),
        ensures
            n == self.state_visits(*state),
    {
        match self.find(state) {
            Some(i) => self.entries[i].visits,
            None => 0,
        }
    }

    /// What the table holds for the action taken from the state, or nothing
    /// where the action was never taken from it.
    pub fn get(&self, s: &M::State, a: &M::Action) -> (r: Option<Stat>)
        requires
            self.wf(),
        ensures
            match r {
                Some(stat) => stat == self.stat(*s, *a) && stat.visits > 0,
                None => self.stat(*s, *a) == (Stat { total: 0, visits: 0 }),
            },
    {
        match self.find(s) {
            None => None,
            Some(i) => {
                match Self::find_action(&self.entries[i].actions, a) {
                    None => None,
                    Some(k) => {
                        let e = &self.entries[i].actions[k];
                        Some(Stat { total: e.total, visits: e.visits })
                    },
                }
            },
        }
    }

    /// Was any action taken from the state yet?
    pub fn knows(&self, s: &M::State) -> (known: bool)
        requires
            self.wf(),
        ensures
            known == self.has_actions(*s),
    {
        match self.find(s) {
            None => false,
            Some(i) => {
                let known = self.entries[i].actions.len() > 0;
                proof {
                    let actions = self.entries[i as int].actions@;
                    if known {
                        stat_in_reads_the_entry(actions, 0);
                        assert(self.stat(*s, actions[0].action).visits > 0);
                    } else {
                        assert forall|a: M::Action| (#[trigger] self.stat(*s, a)).visits == 0 by {
                            assert(forall|k: int| !listed_at(actions, a, k));
                        }
                    }
                }
                known
            },
        }
    }

    /// Counts one more visit to the state. Nothing else changes.
    pub fn increment_state_visits(&mut self, state: &M::State)
        requires
            old(self).wf(),
        ensures
            final(self).wf(),
            final(self).state_visits(*state) == one_more(old(self).state_visits(*state) as nat),
            forall|a: M::Action| #[trigger] final(self).stat(*state, a) == old(self).stat(*state, a),
            forall|s: M::State| s != *state ==> #[trigger] final(self).agrees_on(old(self), s),
    {
        match self.find(state) {
            Some(i) => {
                let n = self.entries[i].visits;
                self.entries[i].visits = if n == u64::MAX {
                    n
                } else {
                    n + 1
                };
                proof {
                    assert forall|s: M::State, j: int| self.holds_at(s, j) == old(self).holds_at(s, j) by {}
                    assert(self.wf());
                    self.same_places(old(self));
                }
            },
            None => {
                let place = self.entries.len();
                self.entries.push(StateStat { state: *state, visits: 1, actions: Vec::new() });
                proof {
                    assert forall|i: int| 0 <= i < place implies (#[trigger] self.entries[i]).state != *state by {
                        assert(!old(self).holds_at(*state, i));
                    }
                    assert(is_indexed::<M>(self.entries@, self.index@, place as nat)) by {
                        assert forall|i: int| 0 <= i < place implies self.entries[i] == old(self).entries[i] by {}
                    }
                }
                file_entry::<M>(&self.entries, &mut self.index, place);
                proof {
                    assert forall|s: M::State, j: int| old(self).holds_at(s, j) implies self.holds_at(s, j) by {}
                    assert forall|s: M::State, j: int| self.holds_at(s, j) implies old(self).holds_at(s, j)
                        || (s == *state && j == place) by {}
                    assert(self.holds_at(*state, place as int));
                    assert(self.wf());
                    self.slot_is_unique(*state, place as int);
                    assert forall|s: M::State| s != *state implies self.recorded(s) == old(self).recorded(s)
                        && (self.recorded(s) ==> self.slot(s) == old(self).slot(s)) by {
                        if old(self).recorded(s) {
                            let j = old(self).slot(s);
                            assert(old(self).holds_at(s, j));
                            self.slot_is_unique(s, j);
                        }
                        if self.recorded(s) {
                            let j = self.slot(s);
                            assert(self.holds_at(s, j));
                            assert(old(self).holds_at(s, j));
                        }
                    }
                    assert forall|a: M::Action| #[trigger] self.stat(*state, a) == old(self).stat(*state, a) by {
                        assert(forall|k: int| !listed_at(self.entries[place as int].actions@, a, k));
                    }
                }
            },
        }
    }

    /// Records that the action was taken from the state and returned
    /// `g_return`: the state and the action are each visited once more, and
    /// the return is added to the action's total. Nothing else changes.
    pub fn add_to_state_action_data(&mut self, s: &M::State, a: &M::Action, g_return: i64)
        requires
            old(self).wf(),
        ensures
            final(self).wf(),
            final(self).state_visits(*s) == one_more(old(self).state_visits(*s) as nat),
            final(self).stat(*s, *a) == (Stat {
                total: clamped(old(self).stat(*s, *a).total + g_return) as i64,
                visits: one_more(old(self).stat(*s, *a).visits as nat) as u64,
            }),
            forall|b: M::Action| b != *a ==> #[trigger] final(self).stat(*s, b) == old(self).stat(*s, b),
            forall|t: M::State| t != *s ==> #[trigger] final(self).agrees_on(old(self), t),
    {
        self.increment_state_visits(s);
        let ghost mid = *self;
        let found = self.find(s);
        assert(found is Some) by {
            if !self.recorded(*s) {
                assert(self.state_visits(*s) == 0);
            }
        }
        let i = found.unwrap();
        let ghost actions = self.entries[i as int].actions@;
        match Self::find_action(&self.entries[i].actions, a) {
            Some(k) => {
                let total = add_clamped(self.entries[i].actions[k].total, g_return);
                let seen = self.entries[i].actions[k].visits;
                let visits = if seen == u64::MAX {
                    seen
                } else {
                    seen + 1
                };
                self.entries[i].actions[k].total = total;
                self.entries[i].actions[k].visits = visits;
                proof {
                    let after = self.entries[i as int].actions@;
                    assert(after =~= actions.update(k as int, after[k as int]));
                    assert(is_action_list(after));
                    stat_in_reads_the_entry(after, k as int);
                    assert forall|b: M::Action| b != *a implies stat_in(after, b) == stat_in(actions, b) by {
                        assert forall|l: int| listed_at(after, b, l) == listed_at(actions, b, l) by {}
                        if exists|l: int| listed_at(actions, b, l) {
                            let l = choose|l: int| listed_at(actions, b, l);
                            stat_in_reads_the_entry(actions, l);
                            stat_in_reads_the_entry(after, l);
                        }
                    }
                }
            },
            None => {
                self.entries[i].actions.push(ActionStat { action: *a, total: g_return, visits: 1 });
                proof {
                    let after = self.entries[i as int].actions@;
                    assert(after =~= actions.push(after[actions.len() as int]));
                    assert(is_action_list(after)) by {
                        assert forall|k: int, l: int| 0 <= k < l < after.len() implies (#[trigger] after[k]).action
                            != (#[trigger] after[l]).action by {
                            if l == actions.len() {
                                assert(!listed_at(actions, *a, k));
                            }
                        }
                    }
                    stat_in_reads_the_entry(after, actions.len() as int);
                    assert(stat_in(actions, *a) == (Stat { total: 0, visits: 0 }));
                    assert forall|b: M::Action| b != *a implies stat_in(after, b) == stat_in(actions, b) by {
                        assert forall|l: int| listed_at(after, b, l) == listed_at(actions, b, l) by {}
                        if exists|l: int| listed_at(actions, b, l) {
                            let l = choose|l: int| listed_at(actions, b, l);
                            stat_in_reads_the_entry(actions, l);
                            stat_in_reads_the_entry(after, l);
                        }
                    }
                }
            },
        }
        proof {
            assert forall|t: M::State, j: int| self.holds_at(t, j) == mid.holds_at(t, j) by {}
            assert(self.wf());
            self.same_places(&mid);
            let after = self.entries[i as int].actions@;
            assert(mid.slot(*s) == i);
            assert(self.slot(*s) == i);
            assert(self.stat(*s, *a) == stat_in(after, *a));
            assert(mid.stat(*s, *a) == stat_in(actions, *a));
            assert forall|b: M::Action| b != *a implies #[trigger] self.stat(*s, b) == old(self).stat(*s, b) by {
                assert(self.stat(*s, b) == stat_in(after, b));
                assert(mid.stat(*s, b) == stat_in(actions, b));
            }
            assert forall|t: M::State| t != *s implies #[trigger] self.agrees_on(old(self), t) by {
                assert(mid.agrees_on(old(self), t));
                if self.recorded(t) {
                    let j = self.slot(t);
                    assert(self.holds_at(t, j));
                    assert(j != i);
                }
                assert forall|b: M::Action| #[trigger] self.stat(t, b) == old(self).stat(t, b) by {
                    assert(mid.stat(t, b) == old(self).stat(t, b));
                }
            }
        }
    }
}

impl<M: Mdp> QMap<M> {
    /// The entries of the table, one for each state, in the order in which
    /// the states were first seen.
    pub closed spec fn listing(&self) -> Seq<StateStat<M::State, M::Action>> {
        self.entries@
    }

    /// What the table says is written in its listing: two tables with the
    /// same listing agree on every state.
    pub proof fn listing_determines_table(&self, other: &Self)
        requires
            self.wf(),
            other.wf(),
            self.listing() == other.listing(),
        ensures
            forall|s: M::State| #[trigger] self.agrees_on(other, s),
            forall|s: M::State| self.has_actions(s) == other.has_actions(s),
    {
        assert forall|s: M::State, i: int| self.holds_at(s, i) == other.holds_at(s, i) by {}
        self.same_places(other);
        assert forall|s: M::State| #[trigger] self.agrees_on(other, s) by {
            assert(self.recorded(s) == other.recorded(s));
            if self.recorded(s) {
                assert(self.slot(s) == other.slot(s));
            }
        }
        assert forall|s: M::State| self.has_actions(s) == other.has_actions(s) by {
            assert(self.agrees_on(other, s));
            if self.has_actions(s) {
                let a = choose|a: M::Action| (#[trigger] self.stat(s, a)).visits > 0;
                assert(other.stat(s, a).visits > 0);
            }
            if other.has_actions(s) {
                let a = choose|a: M::Action| (#[trigger] other.stat(s, a)).visits > 0;
                assert(self.stat(s, a).visits > 0);
            }
        }
    }

    /// The listing says what the table says: each entry holds the visits
    /// of its state and, for each action that it lists, the total and the
    /// visits of the action; a state without an entry was never visited,
    /// and an action that the entry of its state does not list was never
    /// taken.
    pub proof fn listing_says_what_table_says(&self, s: M::State, a: M::Action)
        requires
            self.wf(),
        ensures
            forall|i: int|
                0 <= i < self.listing().len() && (#[trigger] self.listing()[i]).state == s ==> {
                    &&& self.state_visits(s) == self.listing()[i].visits
                    &&& self.stat(s, a) == stat_in(self.listing()[i].actions@, a)
                },
            (forall|i: int| 0 <= i < self.listing().len() ==> (#[trigger] self.listing()[i]).state != s) ==> {
                &&& self.state_visits(s) == 0
                &&& self.stat(s, a) == (Stat { total: 0, visits: 0 })
            },
    {
        assert forall|i: int|
            0 <= i < self.listing().len() && (#[trigger] self.listing()[i]).state == s implies {
            &&& self.state_visits(s) == self.listing()[i].visits
            &&& self.stat(s, a) == stat_in(self.listing()[i].actions@, a)
        } by {
            assert(self.holds_at(s, i));
            self.slot_is_unique(s, i);
        }
        if forall|i: int| 0 <= i < self.listing().len() ==> (#[trigger] self.listing()[i]).state != s {
            assert forall|i: int| !self.holds_at(s, i) by {
                if 0 <= i < self.entries.len() {
                    assert(self.listing()[i].state != s);
                }
            }
        }
    }

    /// The listing of a table that is in order can be read back: it is the
    /// listing of a table.
    pub proof fn listing_can_be_read_back(&self)
        requires
            self.wf(),
        ensures
            is_listing::<M>(self.listing()),
    {
    }

    /// Hands out the entries, to be stored.
    pub fn into_entries(self) -> (entries: Vec<StateStat<M::State, M::Action>>)
        ensures
            entries@ == self.listing(),
    {
        self.entries
    }
}

/// The entries can be the listing of a table: no state has two entries, and
/// no entry lists an action twice or with no visit.
pub open spec fn is_listing<M: Mdp>(entries: Seq<StateStat<M::State, M::Action>>) -> bool {
    &&& forall|i: int, j: int|
        0 <= i < j < entries.len() ==> (#[trigger] entries[i]).state != (#[trigger] entries[j]).state
    &&& forall|i: int| 0 <= i < entries.len() ==> is_action_list((#[trigger] entries[i]).actions@)
}

impl<M: Mdp> QMap<M> {
    /// Builds the table that has the given listing. Entries that cannot be
    /// the listing of a table give nothing.
    pub fn from_entries(entries: Vec<StateStat<M::State, M::Action>>) -> (r: Option<Self>)
        ensures
            r is Some <==> is_listing::<M>(entries@),
            r matches Some(q) ==> q.wf() && q.listing() == entries@,
    {
        let mut index: HashMap<u64, Vec<usize>> = HashMap::new();
        assert(index@.dom() =~= Set::empty());
        let mut i: usize = 0;
        while i < entries.len()
            invariant
                i <= entries.len(),
                is_indexed::<M>(entries@, index@, i as nat),
            decreases entries.len() - i,
        {
            if !is_valid_action_list::<M>(&entries[i].actions) {
                return None;
            }
            match find_in::<M>(&entries, &index, i, &entries[i].state) {
                Some(j) => {
                    assert(entries[j as int].state == entries[i as int].state);
                    return None;
                },
                None => {},
            }
            file_entry::<M>(&entries, &mut index, i);
            i += 1;
        }
        Some(QMap { entries, index })
    }
}

} // verus!
