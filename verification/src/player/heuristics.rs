//! The scoring functions that the tree searches use at their leaves.

use vstd::prelude::*;
use crate::base::{GameStatus, PlayerMark};
use crate::game::cells::{count_in_rows, count_of, count_take_step, holds, occupied, Cell};
use crate::game::connect_four::{C4Board, C4View, Grid};
use crate::game::tictactoe::{line_winner, TTTBoard};
use crate::game::ultimate_ttt::{sup_marks, UTTTBoard, UtttView};
use crate::score::Score;

verus! {

/// The tic-tac-toe score of a position for `me`: a win counts 100, a loss
/// -100, and every mark on the board takes one off either, so that quick wins
/// and slow losses score best. An undecided or drawn position scores the
/// number of marks.
pub open spec fn ttt_score(me: PlayerMark, cells: Seq<Cell>) -> int {
    let n = occupied(cells) as int;
    match line_winner(cells) {
        None => n,
        Some(mark) => if mark == me {
            100 - n
        } else {
            -100 + n
        },
    }
}

/// It is good to win. It is bad to lose.
/// If we can win, we want to win fast,
/// If we must lose or tie, we want to lose slowly
pub fn ttt_heuristic(my_marker: PlayerMark, b: &TTTBoard) -> (s: Score)
    requires
        b.wf(),
        !b.both_won(),
    ensures
        s == Score::Finite(ttt_score(my_marker, b@) as i64),
        -100 <= ttt_score(my_marker, b@) <= 100,
{
    let n_moves_made: i64 = b.n_moves_made() as i64;
    match b.winner() {
        None => Score::Finite(n_moves_made),
        Some(mark) => {
            if mark == my_marker {
                Score::Finite(100 - n_moves_made)
            } else {
                Score::Finite(-100 + n_moves_made)
            }
        },
    }
}

/// 1 where the cell holds a mark of `me`, 0 where it does not.
pub open spec fn one_if_mine(c: Cell, me: PlayerMark) -> int {
    if c == Some(me) {
        1
    } else {
        0
    }
}

/// The number of rows among the first `n` in which `me` holds exactly three
/// of the four cells on the left half of the board.
pub open spec fn rows_with_three(g: Grid, me: PlayerMark, n: nat) -> nat
    decreases n,
{
    if n == 0 {
        0
    } else {
        let r = n - 1;
        let mine = one_if_mine(g[0][r], me) + one_if_mine(g[1][r], me) + one_if_mine(g[2][r], me)
            + one_if_mine(g[3][r], me);
        rows_with_three(g, me, (n - 1) as nat) + if mine == 3 {
            1nat
        } else {
            0nat
        }
    }
}

/// The connect-four score of a position for `me`: 100 for a won game and
/// -100 for a lost one; one point for each own mark in the third and in the
/// fifth column and two for each in the middle column; five points for each
/// row with three own marks among its first four cells.
pub open spec fn c4_score(me: PlayerMark, v: C4View) -> int {
    let win = match v.status {
        GameStatus::Won(mark) => if mark == me {
            1int
        } else {
            -1int
        },
        _ => 0int,
    };
    100 * win + count_of(v.cells[2], Some(me)) + 2 * count_of(v.cells[3], Some(me)) + count_of(
        v.cells[4],
        Some(me),
    ) + 5 * rows_with_three(v.cells, me, 6)
}

/// The number of marks of `what` in a column.
fn markers_in_col(col: &[Cell; 6], me: PlayerMark) -> (n: i64)
    ensures
        n == count_of(col@, Some(me)),
        0 <= n <= 6,
{
    let mut n: i64 = 0;
    let mut r: usize = 0;
    while r < 6
        invariant
            r <= 6,
            0 <= n <= r,
            n == count_of(col@.take(r as int), Some(me)),
        decreases 6 - r,
    {
        proof {
            count_take_step(col@, r as int, Some(me));
        }
        if holds(col[r], me) {
            n += 1;
        }
        r += 1;
    }
    assert(col@.take(6) =~= col@);
    n
}

/// Scores a position of connect four: a win is worth most, then marks near
/// the middle and rows that are about to be completed.
pub fn c4_heuristic(my_marker: PlayerMark, b: &C4Board) -> (s: Score)
    ensures
        s == Score::Finite(c4_score(my_marker, b@) as i64),
        -100 <= c4_score(my_marker, b@) <= 154,
{
    let raw_board = b.raw_board();
    let ghost g = b@.cells;
    let markers_in_col_3 = markers_in_col(&raw_board[2], my_marker);
    let markers_in_col_4 = markers_in_col(&raw_board[3], my_marker);
    let markers_in_col_5 = markers_in_col(&raw_board[4], my_marker);
    let mut three_in_rows: i64 = 0;
    let mut row: usize = 0;
    while row < 6
        invariant
            row <= 6,
            g == crate::game::connect_four::grid_of(raw_board),
            0 <= three_in_rows <= row,
            three_in_rows == rows_with_three(g, my_marker, row as nat),
        decreases 6 - row,
    {
        let mut j: usize = 0;
        let mut col: usize = 0;
        while col < 4
            invariant
                col <= 4,
                row < 6,
                j <= col,
                g == crate::game::connect_four::grid_of(raw_board),
                j == (if col > 0 {
                    one_if_mine(g[0][row as int], my_marker)
                } else {
                    0
                }) + (if col > 1 {
                    one_if_mine(g[1][row as int], my_marker)
                } else {
                    0
                }) + (if col > 2 {
                    one_if_mine(g[2][row as int], my_marker)
                } else {
                    0
                }) + (if col > 3 {
                    one_if_mine(g[3][row as int], my_marker)
                } else {
                    0
                }),
            decreases 4 - col,
        {
            if holds(raw_board[col][row], my_marker) {
                j += 1;
            }
            col += 1;
        }
        if j == 3 {
            three_in_rows += 1;
        }
        row += 1;
    }
    let win: i64 = match b.winner() {
        Some(mark) => {
            if mark == my_marker {
                1
            } else {
                -1
            }
        },
        _ => 0,
    };
    Score::Finite(
        100 * win + markers_in_col_3 + 2 * markers_in_col_4 + markers_in_col_5 + 5 * three_in_rows,
    )
}

/// The marks in the middle cells of the nine sub-boards.
pub open spec fn centers(cells: Seq<Seq<Cell>>) -> Seq<Cell> {
    Seq::new(9, |s: int| cells[s][4])
}

/// The finite part of the score of ultimate tic-tac-toe for `me`: one point
/// for every mark on the board, 100 for every sub-board won and -100 for
/// every sub-board lost, 30 for owning the middle sub-board, and 10 for each
/// middle cell that naughts hold more than crosses.
pub open spec fn uttt_points(me: PlayerMark, v: UtttView) -> int {
    let marks = sup_marks(v.sup);
    let n_moves_made = count_in_rows(v.cells, Some(PlayerMark::Cross), 9) + count_in_rows(
        v.cells,
        Some(PlayerMark::Naught),
        9,
    );
    let balance = count_of(marks, Some(me)) - count_of(marks, Some(me.opponent()));
    let mid = one_if_mine(marks[4], me);
    let midpoints = count_of(centers(v.cells), Some(PlayerMark::Naught)) - count_of(
        centers(v.cells),
        Some(PlayerMark::Cross),
    );
    n_moves_made + 100 * balance + 30 * mid + 10 * midpoints
}

/// The score of ultimate tic-tac-toe for `me`: a certain win for a won game,
/// a certain loss for a lost one, and the points otherwise.
pub open spec fn uttt_score(me: PlayerMark, v: UtttView) -> Score {
    match v.status {
        GameStatus::Won(mark) => if mark == me {
            Score::PosInf
        } else {
            Score::NegInf
        },
        _ => Score::Finite(uttt_points(me, v) as i64),
    }
}

/// A variant of the heuristic of Powell and Merrill for Ultimate Tic-Tac-Toe
pub fn uttt_heuristic(my_marker: PlayerMark, b: &UTTTBoard) -> (s: Score)
    ensures
        s == uttt_score(my_marker, b@),
        -1200 <= uttt_points(my_marker, b@) <= 1200,
{
    let n_moves_made: i64 = b.n_moves_made() as i64;
    let sup = b.get_sup_board();
    let board = b.get_board();
    let rival = my_marker.other();
    let ghost marks = sup_marks(b@.sup);
    let ghost mids = centers(b@.cells);
    let mut won: i64 = 0;
    let mut lost: i64 = 0;
    let mut naught_mids: i64 = 0;
    let mut cross_mids: i64 = 0;
    let mut n: usize = 0;
    proof {
        b.view_has_shape();
    }
    while n < 9
        invariant
            n <= 9,
            marks == sup_marks(b@.sup),
            mids == centers(b@.cells),
            rival == my_marker.opponent(),
            forall|i: int, j: int| 0 <= i < 3 && 0 <= j < 3 ==> #[trigger] sup@[i]@[j] == b@.sup[3 * i + j],
            forall|i: int, j: int, k: int, l: int|
                0 <= i < 3 && 0 <= j < 3 && 0 <= k < 3 && 0 <= l < 3 ==> #[trigger] board@[i]@[j]@[k]@[l]
                    == b@.cells[3 * i + j][3 * k + l],
            0 <= won <= n,
            0 <= lost <= n,
            0 <= naught_mids <= n,
            0 <= cross_mids <= n,
            won == count_of(marks.take(n as int), Some(my_marker)),
            lost == count_of(marks.take(n as int), Some(rival)),
            naught_mids == count_of(mids.take(n as int), Some(PlayerMark::Naught)),
            cross_mids == count_of(mids.take(n as int), Some(PlayerMark::Cross)),
        decreases 9 - n,
    {
        let i = n / 3;
        let j = n % 3;
        proof {
            count_take_step(marks, n as int, Some(my_marker));
            count_take_step(marks, n as int, Some(rival));
            count_take_step(mids, n as int, Some(PlayerMark::Naught));
            count_take_step(mids, n as int, Some(PlayerMark::Cross));
            assert(sup@[i as int]@[j as int] == b@.sup[3 * i + j]);
            assert(board@[i as int]@[j as int]@[1]@[1] == b@.cells[3 * i + j][4]);
        }
        match sup[i][j] {
            GameStatus::Won(marker) => {
                if marker == my_marker {
                    won += 1;
                } else {
                    lost += 1;
                }
            },
            _ => {},
        }
        match board[i][j][1][1] {
            None => {},
            Some(PlayerMark::Cross) => {
                cross_mids += 1;
            },
            Some(PlayerMark::Naught) => {
                naught_mids += 1;
            },
        }
        n += 1;
    }
    proof {
        assert(marks.take(9) =~= marks);
        assert(mids.take(9) =~= mids);
        assert(sup@[1]@[1] == b@.sup[3 * 1int + 1]);
    }
    let did_win_mid_supboard: i64 = if sup[1][1] == GameStatus::Won(my_marker) {
        1
    } else {
        0
    };
    match b.get_winner() {
        GameStatus::Won(mark) => {
            if mark == my_marker {
                Score::PosInf
            } else {
                Score::NegInf
            }
        },
        _ => Score::Finite(
            n_moves_made + (won - lost) * 100 + did_win_mid_supboard * 30 + 10 * (naught_mids
                - cross_mids),
        ),
    }
}

/// The three heuristics of this library are fit for the tree searches.
pub proof fn library_heuristics_are_heuristics()
    ensures
        crate::player::game_tree::is_heuristic::<TTTBoard, _>(ttt_heuristic),
        crate::player::game_tree::is_heuristic::<C4Board, _>(c4_heuristic),
        crate::player::game_tree::is_heuristic::<UTTTBoard, _>(uttt_heuristic),
{
}

} // verus!
