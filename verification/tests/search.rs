use rand::rngs::StdRng;
use rand::SeedableRng;
use xoxo::base::{with_move, BlitzPlayer, Board, GameStatus, Player, PlayerMark};
use xoxo::game::connect_four::C4Board;
use xoxo::game::tictactoe::{TTTAddr, TTTBoard};
use xoxo::game::ultimate_ttt::UTTTBoard;
use xoxo::player::{c4_heuristic, ttt_heuristic, uttt_heuristic, ABAi, MinMaxAi, RandomAi};
use xoxo::score::Score;

#[test]
fn alpha_beta_can_find_winning_move() {
    let b = TTTBoard::from_str("   xx    ").unwrap();
    let mut ai = ABAi::<TTTBoard, _>::new(PlayerMark::Cross, ttt_heuristic, 10);
    let action = ai.play(&b);
    assert_eq!(action, TTTAddr(6))
}

#[test]
fn alpha_beta_can_block_winning_move() {
    let b = TTTBoard::from_str("oo  x    ").unwrap();
    let mut ai = ABAi::<TTTBoard, _>::new(PlayerMark::Cross, ttt_heuristic, 10);
    let action = ai.play(&b);
    assert_eq!(action, TTTAddr(3))
}

#[test]
fn min_max_can_find_winning_move() {
    let b = TTTBoard::from_str("   xx    ").unwrap();
    let mut ai = MinMaxAi::<TTTBoard, _>::new(PlayerMark::Cross, ttt_heuristic, 10);
    let action: TTTAddr = ai.play(&b);
    assert_eq!(action, TTTAddr(6))
}

#[test]
fn min_max_can_block_winning_move() {
    let b = TTTBoard::from_str("oo  x    ").unwrap();
    let mut ai = MinMaxAi::<TTTBoard, _>::new(PlayerMark::Cross, ttt_heuristic, 10);
    let action = ai.play(&b);
    assert_eq!(action, TTTAddr(3))
}

#[test]
fn can_find_winning_move() {
    let b = TTTBoard::from_str("   xx    ").unwrap();
    let mut ai = MinMaxAi::<TTTBoard, _>::new(PlayerMark::Cross, ttt_heuristic, 10);
    let action: TTTAddr = ai.blitz(&b, 0);
    assert_eq!(action, TTTAddr(6))
}

#[test]
fn can_block_winning_move() {
    let b = TTTBoard::from_str("oo  x    ").unwrap();
    let mut ai = MinMaxAi::<TTTBoard, _>::new(PlayerMark::Cross, ttt_heuristic, 10);
    let action = ai.blitz(&b, 0);
    assert_eq!(action, TTTAddr(3))
}

#[test]
fn pruning_ttt_can_find_winning_move() {
    let b = TTTBoard::from_str("   xx    ").unwrap();
    let mut ai = ABAi::<TTTBoard, _>::new(PlayerMark::Cross, ttt_heuristic, 10);
    let action: TTTAddr = ai.play(&b);
    assert_eq!(action, TTTAddr(6))
}

#[test]
fn pruning_ttt_can_block_winning_move() {
    let b = TTTBoard::from_str("oo  x    ").unwrap();
    let mut ai = ABAi::<TTTBoard, _>::new(PlayerMark::Cross, ttt_heuristic, 10);
    let action = ai.play(&b);
    assert_eq!(action, TTTAddr(3))
}

/// Plays a game of tic-tac-toe between two random players and hands each
/// position that occurs to `check`.
fn for_random_ttt_positions(seed: u64, check: &mut dyn FnMut(&TTTBoard)) {
    let mut random = RandomAi::new(seed);
    let mut board = TTTBoard::default();
    let mut mark = PlayerMark::Naught;
    while !board.game_is_over() {
        check(&board);
        let a = random.play(&board);
        board.place_mark(a, mark);
        mark = mark.other();
    }
}

#[test]
fn pruning_never_changes_the_move_in_tic_tac_toe() {
    for seed in 0..20 {
        for depth in [0usize, 1, 2, 4, 9] {
            for_random_ttt_positions(seed, &mut |board: &TTTBoard| {
                for mark in [PlayerMark::Cross, PlayerMark::Naught] {
                    let mut pruning = ABAi::<TTTBoard, _>::new(mark, ttt_heuristic, depth);
                    let mut plain = MinMaxAi::<TTTBoard, _>::new(mark, ttt_heuristic, depth);
                    assert_eq!(pruning.play(board), plain.play(board));
                    assert!(pruning.n_leafs_evaluated() <= plain.n_leafs_evaluated());
                }
            });
        }
    }
}

#[test]
fn pruning_never_changes_the_move_in_connect_four() {
    let mut random = RandomAi::new(7);
    let mut board = C4Board::default();
    let mut mark = PlayerMark::Naught;
    while !board.game_is_over() {
        let mut pruning = ABAi::<C4Board, _>::new(mark, c4_heuristic, 3);
        let mut plain = MinMaxAi::<C4Board, _>::new(mark, c4_heuristic, 3);
        assert_eq!(pruning.play(&board), plain.play(&board));
        assert!(pruning.n_leafs_evaluated() <= plain.n_leafs_evaluated());
        let a = random.play(&board);
        board.place_mark(a, mark);
        mark = mark.other();
    }
}

#[test]
fn pruning_never_changes_the_move_in_ultimate_tic_tac_toe() {
    let mut random = RandomAi::new(11);
    let mut board = UTTTBoard::default();
    let mut mark = PlayerMark::Naught;
    let mut n = 0;
    while !board.game_is_over() {
        if n % 5 == 0 {
            let mut pruning = ABAi::<UTTTBoard, _>::new(mark, uttt_heuristic, 2);
            let mut plain = MinMaxAi::<UTTTBoard, _>::new(mark, uttt_heuristic, 2);
            assert_eq!(pruning.play(&board), plain.play(&board));
            assert!(pruning.n_leafs_evaluated() <= plain.n_leafs_evaluated());
        }
        let a = random.play(&board);
        board.place_mark(a, mark);
        mark = mark.other();
        n += 1;
    }
}

#[test]
fn first_of_the_best_moves_is_played() {
    // With depth 0 on the empty board every move scores the same: one mark.
    let b = TTTBoard::default();
    let mut ai = ABAi::<TTTBoard, _>::new(PlayerMark::Naught, ttt_heuristic, 0);
    assert_eq!(ai.play(&b), TTTAddr(1));
    assert_eq!(ai.n_leafs_evaluated(), 9);
    let mut ai = MinMaxAi::<TTTBoard, _>::new(PlayerMark::Naught, ttt_heuristic, 0);
    assert_eq!(ai.play(&b), TTTAddr(1));
    assert_eq!(ai.n_leafs_evaluated(), 9);
}

#[test]
fn leaves_are_counted() {
    // one move left: one leaf, whatever the depth
    let b = TTTBoard::from_str("xoxoxoox ").unwrap();
    let mut ai = MinMaxAi::<TTTBoard, _>::new(PlayerMark::Cross, ttt_heuristic, 5);
    assert_eq!(ai.play(&b), TTTAddr(9));
    assert_eq!(ai.n_leafs_evaluated(), 1);
    // two moves left and depth 1: each move is followed by one reply
    let b = TTTBoard::from_str("xoxoxoo  ").unwrap();
    let mut ai = MinMaxAi::<TTTBoard, _>::new(PlayerMark::Cross, ttt_heuristic, 1);
    ai.play(&b);
    assert_eq!(ai.n_leafs_evaluated(), 2);
}

#[test]
fn tic_tac_toe_heuristic_values() {
    let b = TTTBoard::from_str("xx oo    ").unwrap();
    assert_eq!(ttt_heuristic(PlayerMark::Cross, &b), Score::Finite(4));
    assert_eq!(ttt_heuristic(PlayerMark::Naught, &b), Score::Finite(4));
    let b = TTTBoard::from_str("xxxoo    ").unwrap();
    assert_eq!(ttt_heuristic(PlayerMark::Cross, &b), Score::Finite(95));
    assert_eq!(ttt_heuristic(PlayerMark::Naught, &b), Score::Finite(-95));
}

#[test]
fn connect_four_heuristic_values() {
    let b = C4Board::from_str(
        "
        .......
        .......
        .......
        ...o...
        ..xo...
        oxxox..
        ",
    )
    .unwrap();
    // naughts: nothing in column 3, three marks in column 4, nothing in column 5,
    // and no row with three of the first four cells
    assert_eq!(c4_heuristic(PlayerMark::Naught, &b), Score::Finite(6));
    // crosses: two marks in column 3, one in column 5
    assert_eq!(c4_heuristic(PlayerMark::Cross, &b), Score::Finite(3));
    let b = C4Board::from_str(
        "
        .......
        .......
        .......
        .......
        xx.....
        ooo....
        ",
    )
    .unwrap();
    // three in the bottom row and one mark in column 3
    assert_eq!(c4_heuristic(PlayerMark::Naught, &b), Score::Finite(6));
    let mut won = b;
    won.place_mark(3, PlayerMark::Naught);
    // the win, one mark in column 3, one in column 4 counted twice; the row
    // now holds four marks, not three
    assert_eq!(c4_heuristic(PlayerMark::Naught, &won), Score::Finite(103));
    assert_eq!(c4_heuristic(PlayerMark::Cross, &won), Score::Finite(-100));
}

#[test]
fn ultimate_heuristic_values() {
    let mut b = UTTTBoard::default();
    assert_eq!(uttt_heuristic(PlayerMark::Naught, &b), Score::Finite(0));
    let center = xoxo::game::ultimate_ttt::Action::try_from((1, 1, 1, 1)).unwrap();
    b.place_mark(center, PlayerMark::Naught);
    // one mark, and it holds the middle cell of a sub-board
    assert_eq!(uttt_heuristic(PlayerMark::Naught, &b), Score::Finite(11));
    assert_eq!(uttt_heuristic(PlayerMark::Cross, &b), Score::Finite(11));
}

#[test]
fn scores_are_ordered() {
    let low = Score::NegInf;
    let high = Score::PosInf;
    let a = Score::Finite(-3);
    let b = Score::Finite(i64::MAX);
    assert!(high.gt(&b) && b.gt(&a) && a.gt(&low));
    assert!(low.le(&low) && high.ge(&high));
    assert_eq!(a.max(b), b);
    assert_eq!(a.min(b), a);
    assert_eq!(low.max(a), a);
    assert_eq!(high.min(a), a);
}

#[test]
fn move_on_a_copy_leaves_the_board() {
    let b = TTTBoard::from_str("x o      ").unwrap();
    let child = with_move(&b, TTTAddr(5), PlayerMark::Cross);
    assert_eq!(b, TTTBoard::from_str("x o      ").unwrap());
    assert_eq!(child, TTTBoard::from_str("x o x    ").unwrap());
    assert_eq!(child.game_status(), GameStatus::Undecided);
}

#[test]
fn random_player_plays_legal_moves() {
    let mut random = RandomAi::new(3);
    let mut entropy = RandomAi::from_rng(StdRng::from_entropy());
    let mut board = C4Board::default();
    let mut mark = PlayerMark::Naught;
    while !board.game_is_over() {
        let moves = board.valid_moves();
        let a: usize = if mark == PlayerMark::Naught {
            random.play(&board)
        } else {
            entropy.play(&board)
        };
        assert!(moves.contains(&a));
        board.place_mark(a, mark);
        mark = mark.other();
    }
    assert!(xoxo::player::random::pick_move(&vec![5, 6, 7], 4) == 6);
}

#[test]
fn random_player_draws_from_the_generator_it_was_given() {
    let board = C4Board::default();
    let rng = StdRng::seed_from_u64(99);
    let mut first = RandomAi::from_rng(rng.clone());
    let mut second = RandomAi::from_rng(rng);
    let mut third = RandomAi::new(99);
    for _ in 0..50 {
        let a: usize = first.play(&board);
        let b: usize = second.play(&board);
        let c: usize = third.play(&board);
        assert_eq!(a, b);
        assert_eq!(a, c);
    }
}
