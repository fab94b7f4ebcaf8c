use rand::rngs::StdRng;
use rand::{thread_rng, Rng, SeedableRng};
use xoxo::base::{Board, GameStatus, GameType, Player, PlayerMark};
use xoxo::game::connect_four::C4Board;
use xoxo::game::tictactoe::{TTTAddr, TTTBoard};
use xoxo::game::ultimate_ttt::UTTTBoard;
use xoxo::player::mcts::{best_action, best_candidates, get_c, mcts_step, rollout, time_is_up, BoardMdp, MctsAi};
use xoxo::player::qmap::{ActionStat, Mdp, QMap, Stat, StateStat};
use xoxo::player::ucb::{add_clamped, back_up, isqrt, ln_millionths, ucb};
use xoxo::score::Score;

/// The longest game of counting that is followed.
const LONGEST: usize = 200;

/// The numbers drawn so far.
#[derive(Debug, Clone, Copy, PartialEq, Eq)]
struct CountGameState {
    drawn: [i8; LONGEST],
    len: usize,
}

impl CountGameState {
    fn root() -> Self {
        CountGameState { drawn: [0; LONGEST], len: 0 }
    }

    fn total(&self) -> i32 {
        self.drawn[..self.len].iter().map(|&x| x as i32).sum()
    }

    fn push(&mut self, x: i8) {
        self.drawn[self.len] = x;
        self.len += 1;
    }
}

#[derive(Clone, Debug, PartialEq, Copy, Hash, Eq, Ord, PartialOrd)]
enum CountGameAction {
    Add,
    Sub,
}

struct CountGameMDP {}

impl Mdp for CountGameMDP {
    type Action = CountGameAction;
    type State = CountGameState;

    fn discount_factor() -> i64 {
        990
    }

    fn is_terminal(s: &CountGameState) -> bool {
        let total = s.total();
        total <= -10 || total >= 10 || s.len == LONGEST
    }

    fn act(s: CountGameState, action: &Self::Action) -> (CountGameState, i64) {
        let mut s = s;
        match action {
            CountGameAction::Add => s.push(thread_rng().gen_range(-1..=3)),
            CountGameAction::Sub => s.push(thread_rng().gen_range(-3..=1)),
        };
        let reward = if s.total() >= 10 { 1000 } else { 0 }; // reward is one unit for winning
        (s, reward)
    }

    fn allowed_actions(_s: &Self::State) -> Vec<Self::Action> {
        vec![CountGameAction::Add, CountGameAction::Sub]
    }

    fn same_state(a: &CountGameState, b: &CountGameState) -> bool {
        a.len == b.len && a.drawn[..a.len] == b.drawn[..b.len]
    }

    fn same_action(a: &CountGameAction, b: &CountGameAction) -> bool {
        a == b
    }

    fn state_code(s: &CountGameState) -> u64 {
        s.drawn[..s.len]
            .iter()
            .fold(s.len as u64, |h, &x| h.wrapping_mul(31).wrapping_add((x + 3) as u64))
    }
}

// If I take two steps, will both children be visited once?
#[test]
fn mcts_test_mcts_step() {
    let root: CountGameState = CountGameState::root();
    let mut qmap = QMap::new();
    let mut rng = StdRng::from_entropy();
    let c = 750;
    mcts_step::<CountGameMDP>(&root, c, &mut qmap, &mut rng);
    mcts_step::<CountGameMDP>(&root, c, &mut qmap, &mut rng);
    // The root state should have been visited twice
    assert!(qmap.n_state_visits(&root) > 0);
    assert_eq!(qmap.n_state_visits(&root), 2);
    // check that there are two actions in the qmap associated with the root state
    let visits = [CountGameAction::Add, CountGameAction::Sub]
        .iter()
        .filter_map(|a| qmap.get(&root, a))
        .map(|stat| stat.visits)
        .collect::<Vec<_>>();
    assert_eq!(visits.len(), 2);
    assert_eq!(visits[0], 1);
    assert_eq!(visits[1], 1);
}

// If I run the game many times, Have I identified the best move?
#[test]
fn mcts_test_mcts() {
    let root: CountGameState = CountGameState::root();
    let mut qmap = QMap::new();
    let mut rng = StdRng::from_entropy();
    let c = 750;
    for _ in 0..2000 {
        mcts_step::<CountGameMDP>(&root, c, &mut qmap, &mut rng);
    }
    let best_move = best_action::<CountGameMDP>(&root, c, &qmap, &mut rng);
    assert_eq!(
        best_move,
        CountGameAction::Add,
        "Stochastic test that might fail sometimes"
    );
}

#[test]
fn mcts_counts_never_fall_and_add_up() {
    let root = TTTBoard::default();
    let mut qmap: QMap<BoardMdp<TTTBoard>> = QMap::new();
    let mut rng = StdRng::seed_from_u64(5);
    let mut before = 0;
    for n in 1..=300u64 {
        mcts_step::<BoardMdp<TTTBoard>>(&root, 1000, &mut qmap, &mut rng);
        let now = qmap.n_state_visits(&root);
        assert!(now >= before);
        assert_eq!(now, n);
        before = now;
    }
    // every visit of the root took one of its nine moves
    let taken: u64 = root
        .valid_moves()
        .iter()
        .filter_map(|a| qmap.get(&root, a))
        .map(|stat| stat.visits)
        .sum();
    assert_eq!(taken, 300);
    assert!(qmap.knows(&root));
}

#[test]
fn mcts_step_from_a_finished_game_changes_nothing() {
    let over = TTTBoard::from_str("xxxoo    ").unwrap();
    let mut qmap: QMap<BoardMdp<TTTBoard>> = QMap::new();
    let mut rng = StdRng::seed_from_u64(5);
    assert_eq!(mcts_step::<BoardMdp<TTTBoard>>(&over, 1000, &mut qmap, &mut rng), 0);
    assert_eq!(qmap.n_state_visits(&over), 0);
    assert!(!qmap.knows(&over));
    assert_eq!(rollout::<BoardMdp<TTTBoard>>(over, &mut rng), 0);
    assert!(qmap.into_entries().is_empty());
}

#[test]
fn mcts_rollout_of_a_game_returns_at_most_a_unit() {
    let mut rng = StdRng::seed_from_u64(9);
    for _ in 0..50 {
        let g = rollout::<BoardMdp<C4Board>>(C4Board::default(), &mut rng);
        assert!(-1000 <= g && g <= 1000);
    }
}

#[test]
fn mcts_reward_goes_to_the_side_that_moved() {
    let b = TTTBoard::from_str("oo  xx   ").unwrap();
    // four marks: naughts are to move, and 3 wins
    assert_eq!(b.current_player(), PlayerMark::Naught);
    let (after, reward) = BoardMdp::<TTTBoard>::act(b, &TTTAddr(3));
    assert_eq!(after.game_status(), GameStatus::Won(PlayerMark::Naught));
    assert_eq!(reward, 1000);
    let (after, reward) = BoardMdp::<TTTBoard>::act(b, &TTTAddr(9));
    assert_eq!(after.game_status(), GameStatus::Undecided);
    assert_eq!(reward, 0);
    assert_eq!(BoardMdp::<TTTBoard>::discount_factor(), -999);
    assert!(!BoardMdp::<TTTBoard>::is_terminal(&b));
    assert_eq!(BoardMdp::<TTTBoard>::allowed_actions(&b).len(), 5);
}

#[test]
fn mcts_candidates_are_the_best_scoring_actions() {
    let root = TTTBoard::from_str("oo  xx   ").unwrap();
    let mut qmap: QMap<BoardMdp<TTTBoard>> = QMap::new();
    // nothing known: every move is a candidate
    assert_eq!(best_candidates::<BoardMdp<TTTBoard>>(&root, 1000, &qmap), root.valid_moves());
    // one move taken: the others score above every number
    qmap.add_to_state_action_data(&root, &TTTAddr(4), 1000);
    assert_eq!(
        best_candidates::<BoardMdp<TTTBoard>>(&root, 1000, &qmap),
        vec![TTTAddr(3), TTTAddr(7), TTTAddr(8), TTTAddr(9)]
    );
    // all taken once: the one with the highest return leads
    for a in [3, 7, 8, 9] {
        qmap.add_to_state_action_data(&root, &TTTAddr(a), if a == 8 { 1000 } else { -500 });
    }
    assert_eq!(qmap.n_state_visits(&root), 5);
    assert_eq!(
        best_candidates::<BoardMdp<TTTBoard>>(&root, 1000, &qmap),
        vec![TTTAddr(4), TTTAddr(8)]
    );
    let mut rng = StdRng::seed_from_u64(1);
    for _ in 0..20 {
        let a = best_action::<BoardMdp<TTTBoard>>(&root, 1000, &qmap, &mut rng);
        assert!(a == TTTAddr(4) || a == TTTAddr(8));
    }
}

#[test]
fn qmap_records_returns_and_visits() {
    let s = C4Board::default();
    let mut t = s;
    t.place_mark(0, PlayerMark::Naught);
    let mut qmap: QMap<BoardMdp<C4Board>> = QMap::new();
    assert_eq!(qmap.n_state_visits(&s), 0);
    assert_eq!(qmap.get(&s, &3), None);
    assert!(!qmap.knows(&s));
    qmap.increment_state_visits(&t);
    assert_eq!(qmap.n_state_visits(&t), 1);
    assert!(!qmap.knows(&t));
    qmap.add_to_state_action_data(&s, &3, 700);
    qmap.add_to_state_action_data(&s, &3, -200);
    qmap.add_to_state_action_data(&s, &4, 1);
    assert_eq!(qmap.n_state_visits(&s), 3);
    assert_eq!(qmap.get(&s, &3), Some(Stat { total: 500, visits: 2 }));
    assert_eq!(qmap.get(&s, &4), Some(Stat { total: 1, visits: 1 }));
    assert_eq!(qmap.get(&s, &5), None);
    assert_eq!(qmap.get(&t, &3), None);
    assert_eq!(qmap.n_state_visits(&t), 1);
    assert!(qmap.knows(&s));
    // totals stop at the ends of their range
    qmap.add_to_state_action_data(&t, &1, i64::MAX);
    qmap.add_to_state_action_data(&t, &1, 5);
    assert_eq!(qmap.get(&t, &1), Some(Stat { total: i64::MAX, visits: 2 }));
}

#[test]
fn qmap_listing_round_trip() {
    let root = UTTTBoard::default();
    let mut qmap: QMap<BoardMdp<UTTTBoard>> = QMap::new();
    let mut rng = StdRng::seed_from_u64(2);
    for _ in 0..200 {
        mcts_step::<BoardMdp<UTTTBoard>>(&root, 750, &mut qmap, &mut rng);
    }
    let moves = root.valid_moves();
    let before: Vec<Option<Stat>> = moves.iter().map(|a| qmap.get(&root, a)).collect();
    let visits = qmap.n_state_visits(&root);
    let entries = qmap.into_entries();
    let states: Vec<UTTTBoard> = entries.iter().map(|e| e.state).collect();
    let counts: Vec<u64> = entries.iter().map(|e| e.visits).collect();
    let reloaded = QMap::<BoardMdp<UTTTBoard>>::from_entries(entries).unwrap();
    assert_eq!(reloaded.n_state_visits(&root), visits);
    let after: Vec<Option<Stat>> = moves.iter().map(|a| reloaded.get(&root, a)).collect();
    assert_eq!(before, after);
    for (s, n) in states.iter().zip(counts) {
        assert_eq!(reloaded.n_state_visits(s), n);
    }
}

#[test]
fn qmap_refuses_entries_that_are_no_listing() {
    let s = TTTBoard::default();
    let entry = |visits: u64| StateStat {
        state: s,
        visits,
        actions: vec![ActionStat { action: TTTAddr(1), total: 5, visits: 1 }],
    };
    // a state with two entries
    assert!(QMap::<BoardMdp<TTTBoard>>::from_entries(vec![entry(1), entry(2)]).is_none());
    // an action listed twice
    let twice = StateStat {
        state: s,
        visits: 2,
        actions: vec![
            ActionStat { action: TTTAddr(1), total: 5, visits: 1 },
            ActionStat { action: TTTAddr(1), total: 6, visits: 1 },
        ],
    };
    assert!(QMap::<BoardMdp<TTTBoard>>::from_entries(vec![twice]).is_none());
    // an action without a visit
    let unvisited = StateStat {
        state: s,
        visits: 2,
        actions: vec![ActionStat { action: TTTAddr(1), total: 5, visits: 0 }],
    };
    assert!(QMap::<BoardMdp<TTTBoard>>::from_entries(vec![unvisited]).is_none());
    let q = QMap::<BoardMdp<TTTBoard>>::from_entries(vec![entry(3)]).unwrap();
    assert_eq!(q.n_state_visits(&s), 3);
    assert_eq!(q.get(&s, &TTTAddr(1)), Some(Stat { total: 5, visits: 1 }));
}

#[test]
fn ucb_formula_values() {
    // an action never taken scores above every number
    assert_eq!(ucb(1000, 0, 0, 10), Score::PosInf);
    assert_eq!(ucb(0, -7, 0, 0), Score::PosInf);
    // at time 1 the logarithm is 0 and the mean is all there is
    assert_eq!(ucb(1000, 1500, 2, 1), Score::Finite(750));
    assert_eq!(ucb(1000, -1501, 2, 1), Score::Finite(-750));
    // ln(2) = 0.693147, its root 0.832 (in thousandths, rounded down)
    assert_eq!(ucb(1000, 0, 1, 2), Score::Finite(832));
    assert_eq!(ucb(750, 0, 1, 2), Score::Finite(624));
    // ln(4) / 2 = 0.693147 again; mean 250
    assert_eq!(ucb(2000, 500, 2, 4), Score::Finite(250 + 1664));
    // the sum stops at the ends of the range
    assert_eq!(ucb(1000, i64::MAX, 1, 2), Score::Finite(i64::MAX));
}

#[test]
fn logarithm_and_root_values() {
    assert_eq!(ln_millionths(0), 0);
    assert_eq!(ln_millionths(1), 0);
    assert_eq!(ln_millionths(2), 693_147);
    // halfway between 2 and 4 on the straight line: 1.5 * ln 2
    assert_eq!(ln_millionths(3), 1_039_720);
    assert_eq!(ln_millionths(1024), 6_931_470);
    assert_eq!(ln_millionths(u64::MAX), 44_361_407);
    assert_eq!(isqrt(0), 0);
    assert_eq!(isqrt(1), 1);
    assert_eq!(isqrt(15), 3);
    assert_eq!(isqrt(16), 4);
    assert_eq!(isqrt(693_147), 832);
    assert_eq!(isqrt(u64::MAX), 4_294_967_295);
}

#[test]
fn returns_are_backed_up_with_the_discount() {
    assert_eq!(back_up(0, -999, 1000), -999);
    assert_eq!(back_up(1000, -999, 0), 1000);
    assert_eq!(back_up(0, -999, -999), 998);
    assert_eq!(back_up(0, 990, 1), 0);
    assert_eq!(back_up(0, 990, -1), 0);
    assert_eq!(back_up(5, 1000, i64::MAX), i64::MAX);
    assert_eq!(back_up(-5, 1000, i64::MIN), i64::MIN);
    assert_eq!(add_clamped(i64::MIN, -1), i64::MIN);
    assert_eq!(add_clamped(-3, 5), 2);
}

#[test]
fn exploration_constants() {
    assert_eq!(get_c(GameType::Ttt), 1000);
    assert_eq!(get_c(GameType::Uttt), 750);
    assert_eq!(get_c(GameType::C4), 1000);
}

#[test]
fn clock_decision() {
    // one second left: an eighth of it is 125 ms
    let second: u128 = 1_000_000_000;
    assert!(!time_is_up(0, 1, second));
    assert!(!time_is_up(61_000_000, 1, second));
    // 62 ms spent in one step: 62 + 62 + 1 is no more than 125
    assert!(!time_is_up(62_000_000, 1, second));
    assert!(time_is_up(62_000_001, 1, second));
    // the same time spread over many steps leaves room
    assert!(!time_is_up(100_000_000, 10, second));
    assert!(time_is_up(u128::MAX, 1, u128::MAX));
    assert!(time_is_up(0, 1, 0));
}

#[test]
fn mcts_player_plays_legal_moves_and_learns() {
    let mut ai: MctsAi<TTTBoard> = MctsAi::new(123, 1000);
    ai.set_play_steps(300);
    let board = TTTBoard::from_str("oo  xx   ").unwrap();
    let a = ai.play(&board);
    assert!(board.valid_moves().contains(&a));
    assert_eq!(ai.steps_taken(), 300);
    let memory = ai.into_memory();
    assert_eq!(memory.n_state_visits(&board), 300);
    let mut ai: MctsAi<TTTBoard> = MctsAi::with_memory(7, 1000, memory);
    ai.set_play_steps(10);
    ai.play(&board);
    assert_eq!(ai.into_memory().n_state_visits(&board), 310);
}

#[test]
fn mcts_player_takes_the_win() {
    // naughts to move; 3 wins at once. Without a bonus for seldom tried
    // moves the mean return decides, and only the win returns a full unit.
    let board = TTTBoard::from_str("oo  xx   ").unwrap();
    for seed in 0..10 {
        let mut ai: MctsAi<TTTBoard> = MctsAi::new(seed, 0);
        ai.set_play_steps(50);
        assert_eq!(ai.play(&board), TTTAddr(3));
    }
}
