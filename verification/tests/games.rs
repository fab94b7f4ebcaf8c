use xoxo::base::{
    end_status, run_game, BlitzPlayer, Board, GameEndStatus, GameStatus, Keyed, Player, PlayerMark,
};
use xoxo::game::connect_four::C4Board;
use xoxo::game::tictactoe::{TTTAddr, TTTBoard};
use xoxo::game::ultimate_ttt::{Action, UTTTBoard};
use xoxo::game::{charge, run_blitz_game};
use xoxo::player::{ttt_heuristic, ABAi, ConsolePlayer, MctsAi, RandomAi};

#[test]
fn marks_swap() {
    assert_eq!(PlayerMark::Cross.other(), PlayerMark::Naught);
    assert_eq!(PlayerMark::Naught.other(), PlayerMark::Cross);
    assert_eq!(PlayerMark::Naught.other().other(), PlayerMark::Naught);
}

#[test]
fn end_status_names_the_outcome() {
    assert_eq!(end_status(GameStatus::Draw), GameEndStatus::Draw);
    assert_eq!(end_status(GameStatus::Won(PlayerMark::Cross)), GameEndStatus::X);
    assert_eq!(end_status(GameStatus::Won(PlayerMark::Naught)), GameEndStatus::O);
}

#[test]
fn tic_tac_toe_board_from_letters() {
    let b = TTTBoard::from_str("x o  x  o").unwrap();
    assert_eq!(b.n_moves_made(), 4);
    assert_eq!(b.winner(), None);
    assert_eq!(b.game_status(), GameStatus::Undecided);
    assert_eq!(b.current_player(), PlayerMark::Naught);
    assert_eq!(
        b.valid_moves(),
        vec![TTTAddr(2), TTTAddr(4), TTTAddr(5), TTTAddr(7), TTTAddr(8)]
    );
    assert!(TTTBoard::from_str("x o  x  ").is_none());
    assert!(TTTBoard::from_str("x o  x  oo").is_none());
    assert!(TTTBoard::from_str("x o  X  o").is_none());
    assert_eq!(TTTBoard::from_str("         ").unwrap(), TTTBoard::default());
    assert_eq!(TTTBoard::new_game(), TTTBoard::new());
}

#[test]
fn tic_tac_toe_lines_win() {
    for picture in [
        "xxx      ", "   xxx   ", "      xxx", "x  x  x  ", " x  x  x ", "  x  x  x", "x   x   x",
        "  x x x  ",
    ] {
        let b = TTTBoard::from_str(picture).unwrap();
        assert_eq!(b.winner(), Some(PlayerMark::Cross));
        assert_eq!(b.game_status(), GameStatus::Won(PlayerMark::Cross));
        let o = TTTBoard::from_str(&picture.replace('x', "o")).unwrap();
        assert_eq!(o.winner(), Some(PlayerMark::Naught));
    }
    let draw = TTTBoard::from_str("xoxxoxoxo").unwrap();
    assert_eq!(draw.winner(), None);
    assert_eq!(draw.game_status(), GameStatus::Draw);
    assert!(draw.valid_moves().is_empty());
    assert_eq!(draw.n_moves_made(), 9);
}

#[test]
fn tic_tac_toe_place_and_copy() {
    let mut b = TTTBoard::default();
    let kept = b.clone();
    b.place_mark(TTTAddr(5), PlayerMark::Naught);
    b.place(1, PlayerMark::Cross);
    assert_eq!(b, TTTBoard::from_str("x   o    ").unwrap());
    assert_eq!(kept, TTTBoard::default());
    assert_eq!(b.current_player(), PlayerMark::Naught);
    assert!(b.same(&TTTBoard::from_str("x   o    ").unwrap()));
    assert!(!b.same(&kept));
    assert_eq!(b.code(), TTTBoard::from_str("x   o    ").unwrap().code());
    assert_ne!(b.code(), kept.code());
}

#[test]
fn ultimate_moves_follow_the_last_move() {
    let mut b = UTTTBoard::default();
    assert_eq!(b.valid_moves().len(), 81);
    assert_eq!(b.target_board(), None);
    assert_eq!(b.current_player(), PlayerMark::Naught);
    let a = Action::try_from((0, 0, 1, 2)).unwrap();
    assert_eq!(a.board(), (0, 0));
    assert_eq!(a.position(), (1, 2));
    assert!(b.validate(a));
    b.place_mark(a, PlayerMark::Naught);
    assert_eq!(b.n_moves_made(), 1);
    assert_eq!(b.current_player(), PlayerMark::Cross);
    assert_eq!(b.get_board()[0][0][1][2], Some(PlayerMark::Naught));
    // the next move must go to the sub-board in row 1, column 2
    assert_eq!(b.target_board(), Some((1, 2)));
    let moves = b.valid_moves();
    assert_eq!(moves.len(), 9);
    assert!(moves.iter().all(|m| m.board() == (1, 2)));
    assert!(!b.validate(Action::try_from((0, 0, 0, 0)).unwrap()));
    assert!(b.validate(Action::try_from((1, 2, 0, 0)).unwrap()));
    assert!(Action::try_from((3, 0, 0, 0)).is_err());
    assert!(Action::try_from((0, 0, 0, 3)).is_err());
    assert_eq!(
        Action::try_from((0, 3, 0, 0)),
        Err("Some index >2. Invalid action".to_string())
    );
}

/// Plays the moves in turn, naughts first.
fn play_uttt(moves: &[(usize, usize, usize, usize)]) -> UTTTBoard {
    let mut b = UTTTBoard::default();
    let mut mark = PlayerMark::Naught;
    for &m in moves {
        let a = Action::try_from(m).unwrap();
        assert!(b.valid_moves().contains(&a), "{:?} is no legal move", m);
        b.place_mark(a, mark);
        mark = mark.other();
    }
    b
}

#[test]
fn ultimate_sub_board_is_won_and_closed() {
    // Crosses are sent to the top left sub-board again and again and take
    // its diagonal from the bottom left to the top right with their sixth
    // mark there.
    let moves = [
        (0, 0, 0, 0),
        (0, 0, 1, 1),
        (1, 1, 0, 0),
        (0, 0, 2, 2),
        (2, 2, 0, 0),
        (0, 0, 1, 0),
        (1, 0, 0, 0),
        (0, 0, 2, 0),
        (2, 0, 0, 0),
        (0, 0, 0, 1),
        (0, 1, 0, 0),
        (0, 0, 0, 2),
    ];
    let before = play_uttt(&moves[..11]);
    assert_eq!(before.get_sup_board()[0][0], GameStatus::Undecided);
    let b = play_uttt(&moves);
    let sup = b.get_sup_board();
    assert_eq!(sup[0][0], GameStatus::Won(PlayerMark::Cross));
    assert_eq!(b.get_winner(), GameStatus::Undecided);
    assert_eq!(b.n_moves_made(), 12);
    // the last move points to the sub-board in row 0, column 2
    assert_eq!(b.target_board(), Some((0, 2)));
    // every legal move goes to an open sub-board
    for m in b.valid_moves() {
        let (i, j) = m.board();
        assert_eq!(sup[i][j], GameStatus::Undecided);
    }
}

#[test]
fn ultimate_line_in_a_sub_board_wins_it() {
    // naughts: (1,1) cells (0,0), (0,1), (0,2); crosses are sent around
    let b = play_uttt(&[
        (1, 1, 0, 0),
        (0, 0, 1, 1),
        (1, 1, 0, 1),
        (0, 1, 1, 1),
        (1, 1, 0, 2),
    ]);
    assert_eq!(b.get_sup_board()[1][1], GameStatus::Won(PlayerMark::Naught));
    assert_eq!(b.get_winner(), GameStatus::Undecided);
    // the last move points to sub-board (0, 2), which is open
    assert_eq!(b.target_board(), Some((0, 2)));
    let b = play_uttt(&[
        (1, 1, 0, 0),
        (0, 0, 1, 1),
        (1, 1, 0, 1),
        (0, 1, 1, 1),
        (1, 1, 0, 2),
        (0, 2, 1, 1),
    ]);
    // the last move points to the sub-board that was won: any open sub-board may be played
    assert_eq!(b.target_board(), None);
    let moves = b.valid_moves();
    assert_eq!(moves.len(), 81 - 9 - 3);
    assert!(moves.iter().all(|m| m.board() != (1, 1)));
}

#[test]
fn ultimate_line_of_sub_boards_wins_the_game() {
    // Naughts win the sub-boards (0,0), (1,1) and (2,2) by their top rows.
    let mut b = UTTTBoard::default();
    for (i, j) in [(0usize, 0usize), (1, 1), (2, 2)] {
        for l in 0..3 {
            assert_eq!(b.get_winner(), GameStatus::Undecided);
            b.mark(Action::try_from((i, j, 0, l)).unwrap(), PlayerMark::Naught);
        }
        assert_eq!(b.get_sup_board()[i][j], GameStatus::Won(PlayerMark::Naught));
    }
    assert_eq!(b.get_winner(), GameStatus::Won(PlayerMark::Naught));
    assert_eq!(b.game_status(), GameStatus::Won(PlayerMark::Naught));
    assert!(b.game_is_over());
    assert_eq!(b.n_moves_made(), 9);
}

#[test]
fn ultimate_board_from_parts() {
    let x = Some(PlayerMark::Cross);
    let o = Some(PlayerMark::Naught);
    let e = None;
    let empty = [[e; 3]; 3];
    let won_by_x = [[x, x, x], [o, o, e], [e, e, e]];
    let won_by_o = [[o, x, x], [x, o, e], [e, e, o]];
    let drawn = [[x, o, x], [x, o, o], [o, x, x]];
    let last = Action::try_from((0, 0, 0, 2)).unwrap();
    let b = UTTTBoard::from_parts(
        [[won_by_x, empty, drawn], [empty, won_by_o, empty], [empty, empty, empty]],
        Some(last),
    );
    let sup = b.get_sup_board();
    assert_eq!(sup[0][0], GameStatus::Won(PlayerMark::Cross));
    assert_eq!(sup[0][1], GameStatus::Undecided);
    assert_eq!(sup[0][2], GameStatus::Draw);
    assert_eq!(sup[1][1], GameStatus::Won(PlayerMark::Naught));
    assert_eq!(b.get_winner(), GameStatus::Undecided);
    assert_eq!(b.last_action(), Some(last));
    // the last move points to the drawn sub-board: every open one may be played
    assert_eq!(b.target_board(), None);
    assert_eq!(b.valid_moves().len(), 6 * 9);
    assert_eq!(b.n_moves_made(), 5 + 6 + 9);
    // a row of sub-boards for crosses
    let b = UTTTBoard::from_parts(
        [[won_by_x, won_by_x, won_by_x], [empty, won_by_o, empty], [empty, empty, empty]],
        Some(last),
    );
    assert_eq!(b.get_winner(), GameStatus::Won(PlayerMark::Cross));
    // nothing open and no line: a draw
    let b = UTTTBoard::from_parts(
        [[won_by_x, won_by_o, won_by_x], [won_by_x, won_by_o, won_by_o], [won_by_o, won_by_x, drawn]],
        Some(last),
    );
    assert_eq!(b.get_winner(), GameStatus::Draw);
    assert!(b.valid_moves().is_empty());
    assert_eq!(UTTTBoard::from_parts([[empty; 3]; 3], None).get_winner(), GameStatus::Undecided);
    assert!(UTTTBoard::from_parts([[empty; 3]; 3], None).same(&UTTTBoard::default()));
}

#[test]
fn ultimate_copy_is_independent() {
    let kept = UTTTBoard::default();
    let mut copy = kept.clone();
    copy.place_mark(Action::try_from((1, 1, 1, 1)).unwrap(), PlayerMark::Naught);
    assert_eq!(kept.n_moves_made(), 0);
    assert_eq!(kept.get_board()[1][1][1][1], None);
    assert_eq!(copy.get_board()[1][1][1][1], Some(PlayerMark::Naught));
    assert!(!kept.same(&copy));
    assert!(kept.same(&UTTTBoard::default()));
}

#[test]
fn games_are_played_to_the_end() {
    for seed in 0..10 {
        let (result, board) = run_game::<TTTBoard, _, _>(
            RandomAi::new(seed),
            ABAi::<TTTBoard, _>::new(PlayerMark::Cross, ttt_heuristic, 9),
        );
        assert!(board.game_is_over());
        assert_eq!(result, end_status(board.game_status()));
        // the searching side never loses
        assert_ne!(result, GameEndStatus::O);
    }
    let (result, board) =
        run_game::<UTTTBoard, _, _>(RandomAi::new(1), RandomAi::new(2));
    assert_eq!(result, end_status(board.game_status()));
    let (result, board) = run_game::<C4Board, _, _>(RandomAi::new(1), RandomAi::new(2));
    assert_eq!(result, end_status(board.game_status()));
}

#[test]
fn searching_players_finish_their_games() {
    let mut searcher: MctsAi<C4Board> = MctsAi::new(4, 1000);
    searcher.set_play_steps(200);
    let (result, board) = run_game::<C4Board, _, _>(searcher, RandomAi::new(8));
    assert!(board.game_is_over());
    assert_eq!(result, end_status(board.game_status()));
    let mut searcher: MctsAi<UTTTBoard> = MctsAi::new(4, 750);
    searcher.set_play_steps(50);
    let (result, board) = run_game::<UTTTBoard, _, _>(RandomAi::new(8), searcher);
    assert!(board.game_is_over());
    assert_eq!(result, end_status(board.game_status()));
}

#[test]
fn ultimate_boards_are_equal_by_their_marks() {
    let a = play_uttt(&[(0, 0, 1, 1), (1, 1, 0, 0)]);
    let b = play_uttt(&[(0, 0, 1, 1), (1, 1, 0, 0)]);
    let c = play_uttt(&[(0, 0, 1, 1), (1, 1, 0, 1)]);
    assert_eq!(a, b);
    assert_ne!(a, c);
    assert!(a.same(&b));
    assert_eq!(a.code(), b.code());
    // the same marks with another last move: equal as boards, not the same position
    let moved = UTTTBoard::from_parts(*a.get_board(), Some(Action::try_from((0, 0, 1, 1)).unwrap()));
    assert_eq!(a, moved);
    assert!(!a.same(&moved));
}

#[test]
fn clock_is_charged() {
    assert_eq!(charge(10, 3), 7);
    assert_eq!(charge(10, 10), 0);
    assert_eq!(charge(10, 11), 0);
    assert_eq!(charge(0, 0), 0);
}

#[test]
fn blitz_game_without_time_is_lost_by_naughts() {
    let out = run_blitz_game::<TTTBoard, _, _>(RandomAi::new(1), RandomAi::new(2), 0);
    assert_eq!(out.result, GameEndStatus::X);
    assert_eq!(out.time_remaining_naughts, 0);
    assert_eq!(out.board, TTTBoard::default());
}

#[test]
fn blitz_game_with_time_is_played_to_the_end() {
    let minute: u128 = 60_000_000_000;
    let out = run_blitz_game::<C4Board, _, _>(RandomAi::new(1), RandomAi::new(2), minute);
    assert!(out.time_remaining_naughts > 0 && out.time_remaining_naughts <= minute);
    assert!(out.time_remaining_crosses > 0 && out.time_remaining_crosses <= minute);
    assert!(out.board.game_is_over());
    assert_eq!(out.result, end_status(out.board.game_status()));
}

#[test]
fn blitz_player_keeps_within_its_share() {
    let mut ai: MctsAi<TTTBoard> = MctsAi::new(3, 1000);
    let board = TTTBoard::default();
    // 80 ms for the game: the move may take about 10 ms
    let a = ai.blitz(&board, 80_000_000);
    assert!(board.valid_moves().contains(&a));
    assert!(ai.steps_taken() >= 1);
}

#[test]
fn console_answers() {
    assert_eq!(ConsolePlayer::new(PlayerMark::Cross).name, "X");
    assert_eq!(ConsolePlayer::new(PlayerMark::Naught).name, "O");
    assert_eq!(ConsolePlayer::ttt_move("5\n"), Some(TTTAddr(5)));
    assert_eq!(ConsolePlayer::ttt_move("9"), Some(TTTAddr(9)));
    assert_eq!(ConsolePlayer::ttt_move("0"), None);
    assert_eq!(ConsolePlayer::ttt_move(""), None);
    assert_eq!(ConsolePlayer::ttt_move(" 5"), None);
    assert_eq!(ConsolePlayer::ttt_move("x"), None);
    assert_eq!(ConsolePlayer::c4_move("  7\n"), Some(6));
    assert_eq!(ConsolePlayer::c4_move("1"), Some(0));
    assert_eq!(ConsolePlayer::c4_move("8"), None);
    assert_eq!(ConsolePlayer::c4_move("\n"), None);
    assert_eq!(ConsolePlayer::c4_move("a"), None);
    assert_eq!(
        ConsolePlayer::uttt_move("1 2 3 1\n"),
        Some(Action::try_from((0, 1, 2, 0)).unwrap())
    );
    assert_eq!(
        ConsolePlayer::uttt_move("  3\t3 3 3 9"),
        Some(Action::try_from((2, 2, 2, 2)).unwrap())
    );
    assert_eq!(ConsolePlayer::uttt_move("1 2 3"), None);
    assert_eq!(ConsolePlayer::uttt_move("1 2 3 4"), None);
    assert_eq!(ConsolePlayer::uttt_move("12 3 1"), None);
    assert_eq!(ConsolePlayer::uttt_move("1 2 3 x"), None);
    assert_eq!(ConsolePlayer::uttt_move("1 0 3 1"), None);
}
