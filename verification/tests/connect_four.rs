use xoxo::base::{Board, GameStatus, PlayerMark};
use xoxo::game::connect_four::C4Board;

#[test]
fn connect_four_test_winner_in_column() {
    let mut board = C4Board::default();
    board.place_mark(0, PlayerMark::Cross);
    board.place_mark(0, PlayerMark::Cross);
    board.place_mark(0, PlayerMark::Cross);
    assert_eq!(board.winner(), None);
    assert_eq!(C4Board::raw_winner_in_column(&board.raw_board(), 0), None);
    board.place_mark(0, PlayerMark::Cross);
    assert_eq!(board.winner(), Some(PlayerMark::Cross));
    assert_eq!(
        C4Board::raw_winner_in_column(&board.raw_board(), 0),
        Some(PlayerMark::Cross)
    );
}

#[test]
fn connect_four_test_winner_in_row() {
    let mut board = C4Board::default();
    board.place_mark(0, PlayerMark::Cross);
    board.place_mark(1, PlayerMark::Cross);
    board.place_mark(2, PlayerMark::Cross);
    board.place_mark(3, PlayerMark::Cross);
    assert_eq!(board.winner(), Some(PlayerMark::Cross));
    assert_eq!(
        C4Board::raw_winner_in_row(&board.raw_board(), 0),
        Some(PlayerMark::Cross)
    );
}

#[test]
fn connect_four_parse_board() {
    let board = C4Board::from_str(
        "
        .......
        .......
        ...x...
        ..x....
        .x.....
        xooo.o.
        ",
    )
    .unwrap();
    let raw = board.raw_board();
    assert_eq!(raw[0][1], None);
    assert_eq!(raw[0][0], Some(PlayerMark::Cross));
    assert_eq!(raw[1][1], Some(PlayerMark::Cross));
    assert_eq!(raw[2][2], Some(PlayerMark::Cross));
    assert_eq!(raw[3][3], Some(PlayerMark::Cross));
    assert_eq!(raw[4][4], None);
}

#[test]
fn connect_four_test_winner_in_slash_diagonal() {
    let board = C4Board::from_str(
        "
        .......
        .......
        ...x...
        ..x....
        oxo....
        xoo....
        ",
    )
    .unwrap();
    let raw = board.raw_board();
    assert_eq!(C4Board::raw_winner_in_slash_diagonal(&raw, 0), None);
    assert_eq!(C4Board::raw_winner_in_slash_diagonal(&raw, 1), None);
    assert_eq!(C4Board::raw_winner_in_slash_diagonal(&raw, 2), None);
    assert_eq!(C4Board::raw_winner_in_slash_diagonal(&raw, 3), None);
    assert_eq!(C4Board::raw_winner_in_slash_diagonal(&raw, 4), None);
    assert_eq!(
        C4Board::raw_winner_in_slash_diagonal(&raw, 5),
        Some(PlayerMark::Cross)
    );
    assert_eq!(C4Board::raw_winner_in_slash_diagonal(&raw, 6), None);
    assert_eq!(C4Board::raw_winner_in_slash_diagonal(&raw, 7), None);
    assert_eq!(C4Board::raw_winner_in_slash_diagonal(&raw, 8), None);
    assert_eq!(C4Board::raw_winner_in_slash_diagonal(&raw, 9), None);
    assert_eq!(C4Board::raw_winner_in_slash_diagonal(&raw, 10), None);
    assert_eq!(C4Board::raw_winner_in_slash_diagonal(&raw, 11), None);
}

#[test]
fn connect_four_test_realizes_game_over() {
    let board: C4Board = C4Board::from_str(
        "
        .......
        .......
        .o.....
        .oo....
        .xxo...
        xoxxo..",
    )
    .unwrap();
    assert_eq!(
        C4Board::raw_winner_in_backslash_diagonal(&board.raw_board(), 4),
        Some(PlayerMark::Naught)
    );
    assert_eq!(board.winner(), Some(PlayerMark::Naught));
    assert!(matches!(board.game_status(), GameStatus::Won(_)));
    assert_eq!(board.game_is_over(), true);
}

#[test]
fn connect_four_win_on_the_fourth_mark_in_every_direction() {
    // rising diagonal, built on a staircase of naughts
    let mut board = C4Board::default();
    let moves: [(usize, PlayerMark); 10] = [
        (0, PlayerMark::Cross),
        (1, PlayerMark::Naught),
        (1, PlayerMark::Cross),
        (2, PlayerMark::Naught),
        (2, PlayerMark::Naught),
        (2, PlayerMark::Cross),
        (3, PlayerMark::Naught),
        (3, PlayerMark::Naught),
        (3, PlayerMark::Naught),
        (6, PlayerMark::Naught),
    ];
    for (col, mark) in moves {
        board.place_mark(col, mark);
        assert_eq!(board.game_status(), GameStatus::Undecided);
    }
    board.place_mark(3, PlayerMark::Cross);
    assert_eq!(board.game_status(), GameStatus::Won(PlayerMark::Cross));

    // falling diagonal, the mirror image
    let mut board = C4Board::default();
    let moves: [(usize, PlayerMark); 10] = [
        (6, PlayerMark::Naught),
        (5, PlayerMark::Cross),
        (5, PlayerMark::Naught),
        (4, PlayerMark::Cross),
        (4, PlayerMark::Cross),
        (4, PlayerMark::Naught),
        (3, PlayerMark::Cross),
        (3, PlayerMark::Cross),
        (3, PlayerMark::Cross),
        (0, PlayerMark::Cross),
    ];
    for (col, mark) in moves {
        board.place_mark(col, mark);
        assert_eq!(board.game_status(), GameStatus::Undecided);
    }
    board.place_mark(3, PlayerMark::Naught);
    assert_eq!(board.game_status(), GameStatus::Won(PlayerMark::Naught));
    assert_eq!(
        C4Board::raw_winner_in_backslash_diagonal(&board.raw_board(), 6),
        Some(PlayerMark::Naught)
    );
}

#[test]
fn connect_four_diagonal_win_is_seen_above_an_empty_corner() {
    // The winning window does not start in the first cell of its diagonal,
    // and that first cell is empty.
    let board = C4Board::from_str(
        "
        .......
        ....x..
        ...xo..
        ..xoo..
        .xooo..
        .xxox..
        ",
    )
    .unwrap();
    assert_eq!(
        C4Board::raw_winner_in_slash_diagonal(&board.raw_board(), 5),
        Some(PlayerMark::Cross)
    );
    assert_eq!(C4Board::raw_winner(&board.raw_board()), Some(PlayerMark::Cross));
    assert_eq!(board.game_status(), GameStatus::Won(PlayerMark::Cross));
}

#[test]
fn connect_four_full_board_without_four_is_a_draw() {
    let picture = "
        xxoxoxo
        ooxoxox
        ooxoxox
        xxoxoxo
        xxoxoxo
        ooxoxox
        ";
    let board = C4Board::from_str(picture).unwrap();
    assert_eq!(C4Board::raw_winner(&board.raw_board()), None);
    assert_eq!(board.game_status(), GameStatus::Draw);
    assert!(board.valid_moves().is_empty());
    assert_eq!(C4Board::raw_game_status(board.raw_board()), GameStatus::Draw);
}

#[test]
fn connect_four_last_mark_draws_the_game() {
    // the same position, short of the mark in the top left corner
    let mut board = C4Board::from_str(
        "
        .xoxoxo
        ooxoxox
        ooxoxox
        xxoxoxo
        xxoxoxo
        ooxoxox
        ",
    )
    .unwrap();
    assert_eq!(board.game_status(), GameStatus::Undecided);
    assert_eq!(board.valid_moves(), vec![0]);
    assert_eq!(board.current_player(), PlayerMark::Cross);
    board.place_mark(0, PlayerMark::Cross);
    assert_eq!(board.game_status(), GameStatus::Draw);
}

#[test]
fn connect_four_pictures_that_are_none() {
    assert!(C4Board::from_str("").is_none());
    assert!(C4Board::from_str("......").is_none());
    // a letter that is not allowed
    assert!(C4Board::from_str(
        "
        .......
        .......
        .......
        .......
        .......
        ...z...
        "
    )
    .is_none());
    // two crosses and no naught: no game gets there
    assert!(C4Board::from_str(
        "
        .......
        .......
        .......
        .......
        .......
        ..xx...
        "
    )
    .is_none());
}

#[test]
fn connect_four_turns_and_moves() {
    let mut board = C4Board::default();
    assert_eq!(board.current_player(), PlayerMark::Naught);
    assert_eq!(board.valid_moves(), vec![0, 1, 2, 3, 4, 5, 6]);
    for _ in 0..3 {
        board.place_mark(2, PlayerMark::Naught);
        board.place_mark(2, PlayerMark::Cross);
    }
    assert_eq!(board.valid_moves(), vec![0, 1, 3, 4, 5, 6]);
    assert_eq!(board.current_player(), PlayerMark::Naught);
    assert_eq!(board.raw_board()[2][5], Some(PlayerMark::Cross));
    assert_eq!(C4Board::raw_current_player(board.raw_board()), PlayerMark::Naught);
    board.place_mark(0, PlayerMark::Naught);
    assert_eq!(C4Board::raw_current_player(board.raw_board()), PlayerMark::Cross);
}

#[test]
fn connect_four_copy_is_independent() {
    let kept = C4Board::default();
    let mut copy = kept.clone();
    copy.place_mark(3, PlayerMark::Naught);
    assert_eq!(kept, C4Board::default());
    assert_eq!(kept.raw_board()[3][0], None);
    assert_eq!(copy.raw_board()[3][0], Some(PlayerMark::Naught));
}

// The same five tests on bare grids, where no status is kept and nothing is
// asked of the balance of the marks.

#[test]
fn test_winner_in_column() {
    let mut board = C4Board::default();
    board.place_mark(0, PlayerMark::Cross);
    board.place_mark(0, PlayerMark::Cross);
    board.place_mark(0, PlayerMark::Cross);
    assert_eq!(C4Board::raw_winner_in_column(&board.raw_board(), 0), None);
    board.place_mark(0, PlayerMark::Cross);
    assert_eq!(
        C4Board::raw_winner_in_column(&board.raw_board(), 0),
        Some(PlayerMark::Cross)
    );
}

#[test]
fn test_winner_in_row() {
    let mut board = C4Board::default();
    board.place_mark(0, PlayerMark::Cross);
    board.place_mark(1, PlayerMark::Cross);
    board.place_mark(2, PlayerMark::Cross);
    board.place_mark(3, PlayerMark::Cross);
    assert_eq!(
        C4Board::raw_winner_in_row(&board.raw_board(), 0),
        Some(PlayerMark::Cross)
    );
}

#[test]
fn parse_board() {
    let board = C4Board::raw_from_str(
        "
        .......
        .......
        ...x...
        ..x....
        .x.....
        x......
        ",
    )
    .unwrap();
    assert_eq!(board[0][1], None);
    assert_eq!(board[0][0], Some(PlayerMark::Cross));
    assert_eq!(board[1][1], Some(PlayerMark::Cross));
    assert_eq!(board[2][2], Some(PlayerMark::Cross));
    assert_eq!(board[3][3], Some(PlayerMark::Cross));
    assert_eq!(board[4][4], None);
}

#[test]
fn test_winner_in_slash_diagonal() {
    let board = C4Board::raw_from_str(
        "
        .......
        .......
        ...x...
        ..x....
        .x.....
        x......
        ",
    )
    .unwrap();
    assert_eq!(C4Board::raw_winner_in_slash_diagonal(&board, 3), None);
    assert_eq!(C4Board::raw_winner_in_slash_diagonal(&board, 4), None);
    assert_eq!(
        C4Board::raw_winner_in_slash_diagonal(&board, 5),
        Some(PlayerMark::Cross)
    );
    assert_eq!(C4Board::raw_winner_in_slash_diagonal(&board, 6), None);
    assert_eq!(C4Board::raw_winner_in_slash_diagonal(&board, 7), None);
    assert_eq!(C4Board::raw_winner_in_slash_diagonal(&board, 8), None);
}

#[test]
fn test_realizes_game_over() {
    let board = C4Board::raw_from_str(
        "
        .......
        .......
        .o.....
        .oo....
        .xxo...
        xoxxo..",
    )
    .unwrap();
    assert_eq!(
        C4Board::raw_winner_in_backslash_diagonal(&board, 4),
        Some(PlayerMark::Naught)
    );
    assert_eq!(C4Board::raw_winner(&board), Some(PlayerMark::Naught));
    assert_eq!(
        C4Board::raw_game_status(board) != GameStatus::Undecided,
        true
    );
}
