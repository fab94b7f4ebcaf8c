//! Ultimate tic-tac-toe: a 3x3 board of 3x3 boards. A mark in a cell of a
//! sub-board sends the opponent to the sub-board in the same place of the
//! big board; a won sub-board counts as a mark on the big board.

use vstd::prelude::*;
use crate::base::{Board, GameStatus, Keyed, PlayerMark};
use crate::game::cells::{
    code_of_cells, code_of_rows, code_take_step, count_in_rows, count_in_rows_after_change,
    count_of, count_take_step, count_update, count_zero_iff_absent, holds, mix, same_cell, Cell,
};
use crate::game::tictactoe::{has_line, line_full, line_winner, new_mark_completes_own_lines_only};

verus! {

/// A move: the sub-board to play in and the cell within it, each as a row
/// and a column counted from 0 at the top left.
#[derive(Debug, Clone, Copy, PartialEq, PartialOrd, Ord, Eq, Hash)]
pub struct Action {
    board: (usize, usize),
    position: (usize, usize),
}

impl Action {
    /// All four indices are 0, 1 or 2. Every move that the program holds is in
    /// range.
    #[verifier::type_invariant]
    pub closed spec fn in_range(&self) -> bool {
        self.board.0 <= 2 && self.board.1 <= 2 && self.position.0 <= 2 && self.position.1 <= 2
    }

    /// The number of the sub-board, counted row by row from 0 to 8.
    pub closed spec fn sub(&self) -> int {
        3 * self.board.0 + self.board.1
    }

    /// The number of the cell within the sub-board, counted row by row from
    /// 0 to 8.
    pub closed spec fn pos(&self) -> int {
        3 * self.position.0 + self.position.1
    }

    /// The move into cell `p` of sub-board `s`.
    pub closed spec fn at(s: int, p: int) -> Action {
        Action {
            board: ((s / 3) as usize, (s % 3) as usize),
            position: ((p / 3) as usize, (p % 3) as usize),
        }
    }

    /// Moves and pairs of numbers from 0 to 8 stand for each other.
    pub proof fn numbering(s: int, p: int)
        requires
            0 <= s < 9,
            0 <= p < 9,
        ensures
            Self::at(s, p).in_range(),
            Self::at(s, p).sub() == s,
            Self::at(s, p).pos() == p,
    {
    }

    /// A move in range is the move that its two numbers name.
    pub proof fn numbers_name_the_move(&self)
        requires
            self.in_range(),
        ensures
            0 <= self.sub() < 9,
            0 <= self.pos() < 9,
            Self::at(self.sub(), self.pos()) == *self,
    {
    }

    /// The move into the cell at `(pos_x, pos_y)` of the sub-board at
    /// `(board_x, board_y)`, where all four are at most 2.
    pub fn try_from(t: (usize, usize, usize, usize)) -> (r: Result<Self, String>)
        ensures
            r is Ok <==> t.0 <= 2 && t.1 <= 2 && t.2 <= 2 && t.3 <= 2,
            r matches Ok(a) ==> a.in_range() && a.sub() == 3 * t.0 + t.1 && a.pos() == 3 * t.2 + t.3,
            r matches Err(e) ==> e@ == "Some index >2. Invalid action"@,
    {
        let (board_x, board_y, pos_x, pos_y) = t;
        if board_x > 2 || board_y > 2 || pos_x > 2 || pos_y > 2 {
            Err("Some index >2. Invalid action".to_string())
        } else {
            Ok(Self { board: (board_x, board_y), position: (pos_x, pos_y) })
        }
    }

    /// Row and column of the sub-board.
    pub fn board(&self) -> (b: (usize, usize))
        ensures
            b.0 <= 2 && b.1 <= 2 && self.sub() == 3 * b.0 + b.1,
    {
        proof {
            use_type_invariant(self);
        }
        self.board
    }

    /// Row and column of the cell within the sub-board.
    pub fn position(&self) -> (p: (usize, usize))
        ensures
            p.0 <= 2 && p.1 <= 2 && self.pos() == 3 * p.0 + p.1,
    {
        proof {
            use_type_invariant(self);
        }
        self.position
    }
}

/// What one sees of a position: the nine sub-boards with their nine cells
/// each, the status of each sub-board, the status of the game, and the last
/// move. Sub-boards and cells are numbered row by row.
pub struct UtttView {
    pub cells: Seq<Seq<Cell>>,
    pub sup: Seq<GameStatus>,
    pub status: GameStatus,
    pub last: Option<Action>,
}

/// The side that owns a decided sub-board, if it was won.
pub open spec fn owner(s: GameStatus) -> Cell {
    match s {
        GameStatus::Won(m) => Some(m),
        _ => None,
    }
}

/// The big board as a board of tic-tac-toe: each won sub-board is a mark of
/// its winner.
pub open spec fn sup_marks(sup: Seq<GameStatus>) -> Seq<Cell> {
    Seq::new(9, |n: int| owner(sup[n]))
}

/// No sub-board is open any more.
pub open spec fn all_decided(sup: Seq<GameStatus>) -> bool {
    forall|n: int| 0 <= n < 9 ==> !((#[trigger] sup[n]) is Undecided)
}

/// The status of the game that the statuses of the sub-boards amount to.
pub open spec fn overall_status(sup: Seq<GameStatus>) -> GameStatus {
    match line_winner(sup_marks(sup)) {
        Some(m) => GameStatus::Won(m),
        None => if all_decided(sup) {
            GameStatus::Draw
        } else {
            GameStatus::Undecided
        },
    }
}

/// The sub-board that the next move must go to: the one in the place of the
/// last move's cell, as long as it is open.
pub open spec fn target(v: UtttView) -> Option<int> {
    match v.last {
        Some(a) => if v.sup[a.pos()] is Undecided {
            Some(a.pos())
        } else {
            None
        },
        None => None,
    }
}

/// The move obeys the rule of the target sub-board and goes to an empty
/// cell. Before the first move every move does.
pub open spec fn is_valid(v: UtttView, a: Action) -> bool {
    match v.last {
        None => true,
        Some(last) => !(v.sup[last.pos()] is Undecided && a.sub() != last.pos()) && v.cells[a.sub()][a.pos()]
            is None,
    }
}

/// The move may be played: it is valid and goes to an open sub-board.
pub open spec fn is_legal(v: UtttView, a: Action) -> bool {
    a.in_range() && v.sup[a.sub()] is Undecided && is_valid(v, a)
}

/// The legal moves among the first `n` cells, counted through the
/// sub-boards one after the other.
pub open spec fn legal_upto(v: UtttView, n: nat) -> Seq<Action>
    decreases n,
{
    if n == 0 {
        Seq::empty()
    } else {
        let before = legal_upto(v, (n - 1) as nat);
        let a = Action::at((n - 1) / 9, (n - 1) % 9);
        if is_legal(v, a) {
            before.push(a)
        } else {
            before
        }
    }
}

/// Nine sub-boards of nine cells, and nine statuses.
pub open spec fn is_shape(v: UtttView) -> bool {
    &&& v.cells.len() == 9
    &&& forall|s: int| 0 <= s < 9 ==> (#[trigger] v.cells[s]).len() == 9
    &&& v.sup.len() == 9
}

/// The statuses agree with the marks: every sub-board has the status that
/// its cells amount to, the game has the status that the sub-boards amount
/// to, and a board that has not seen a move is empty.
pub open spec fn is_consistent(v: UtttView) -> bool {
    &&& is_shape(v)
    &&& forall|s: int| 0 <= s < 9 ==> #[trigger] v.sup[s] == crate::game::tictactoe::status_of(v.cells[s])
    &&& v.status == overall_status(v.sup)
    &&& v.last matches Some(a) ==> a.in_range()
    &&& v.last is None ==> forall|s: int, p: int|
        0 <= s < 9 && 0 <= p < 9 ==> (#[trigger] v.cells[s][p]) is None
}

/// The lines through cell `num` of a 3x3 board, one of them filled by `m`.
pub open spec fn completes_line(cells: Seq<Cell>, num: int, m: PlayerMark) -> bool {
    ||| line_full(cells, num / 3, m)
    ||| line_full(cells, 3 + num % 3, m)
    ||| (num / 3 == num % 3 && line_full(cells, 6, m))
    ||| (num / 3 == 2 - num % 3 && line_full(cells, 7, m))
}

/// What one sees after `m` has marked the cell that `a` names. Only the
/// lines through the new mark are looked at, first in the sub-board, then on
/// the big board.
pub open spec fn view_after(v: UtttView, a: Action, m: PlayerMark) -> UtttView {
    let s = a.sub();
    let p = a.pos();
    let sub = v.cells[s].update(p, Some(m));
    let sub_status = if completes_line(sub, p, m) {
        GameStatus::Won(m)
    } else if count_of(sub, None) == 0 {
        GameStatus::Draw
    } else {
        v.sup[s]
    };
    let sup = v.sup.update(s, sub_status);
    let status = if completes_line(sup_marks(sup), s, m) {
        GameStatus::Won(m)
    } else if all_decided(sup) {
        GameStatus::Draw
    } else {
        v.status
    };
    UtttView { cells: v.cells.update(s, sub), sup, status, last: Some(a) }
}

/// A move is listed exactly when it is legal and its cell is among the
/// first `n`.
pub proof fn legal_upto_lists_legal(v: UtttView, n: nat, a: Action)
    requires
        n <= 81,
    ensures
        legal_upto(v, n).contains(a) <==> is_legal(v, a) && 9 * a.sub() + a.pos() < n,
    decreases n,
{
    if n > 0 {
        let before = legal_upto(v, (n - 1) as nat);
        let here = Action::at((n - 1) / 9, (n - 1) % 9);
        Action::numbering((n - 1) / 9, (n - 1) % 9);
        legal_upto_lists_legal(v, (n - 1) as nat, a);
        if a.in_range() {
            a.numbers_name_the_move();
        }
        if is_legal(v, here) {
            assert(legal_upto(v, n) == before.push(here));
            if a == here {
                assert(before.push(here)[before.len() as int] == here);
            }
            if before.contains(a) {
                let i = choose|i: int| 0 <= i < before.len() && before[i] == a;
                assert(before.push(here)[i] == a);
            }
        }
    }
}

/// In an open game whose statuses agree with the marks, the statuses kept
/// after a legal move agree with the marks again: looking only at the lines
/// through the new mark loses nothing.
pub proof fn view_after_is_consistent(v: UtttView, a: Action, m: PlayerMark)
    requires
        is_consistent(v),
        v.status is Undecided,
        is_legal(v, a),
    ensures
        is_consistent(view_after(v, a, m)),
        count_in_rows(view_after(v, a, m).cells, None, 9) < count_in_rows(v.cells, None, 9),
        v.cells[a.sub()][a.pos()] is None,
{
    a.numbers_name_the_move();
    let s = a.sub();
    let p = a.pos();
    let w = view_after(v, a, m);
    let sub = v.cells[s].update(p, Some(m));
    // The cell was empty.
    assert(v.cells[s][p] is None);
    // The sub-board.
    assert(v.sup[s] == crate::game::tictactoe::status_of(v.cells[s]));
    new_mark_completes_own_lines_only(v.cells[s], p, m);
    assert(w.sup[s] == crate::game::tictactoe::status_of(sub)) by {
        match m {
            PlayerMark::Cross => {},
            PlayerMark::Naught => {},
        }
    }
    assert forall|t: int| 0 <= t < 9 implies #[trigger] w.sup[t] == crate::game::tictactoe::status_of(
        w.cells[t],
    ) by {
        if t != s {
            assert(v.sup[t] == crate::game::tictactoe::status_of(v.cells[t]));
        }
    }
    // The big board.
    let before = sup_marks(v.sup);
    let after = sup_marks(w.sup);
    assert(before[s] is None);
    if owner(w.sup[s]) is Some {
        assert(after =~= before.update(s, Some(m)));
        new_mark_completes_own_lines_only(before, s, m);
        match m {
            PlayerMark::Cross => {},
            PlayerMark::Naught => {},
        }
    } else {
        assert(after =~= before);
        assert(after[s] is None);
    }
    assert(w.status == overall_status(w.sup));
    // The count of empty cells.
    count_in_rows_after_change(v.cells, w.cells, s, None, 9);
    count_update(v.cells[s], p, Some(m), None);
}

/// An open game whose statuses agree with the marks offers a legal move.
pub proof fn open_game_offers_a_move(v: UtttView) -> (a: Action)
    requires
        is_consistent(v),
        v.status is Undecided,
    ensures
        is_legal(v, a),
{
    let s0 = choose|s: int| 0 <= s < 9 && (#[trigger] v.sup[s]) is Undecided;
    let s = match v.last {
        Some(last) => {
            last.numbers_name_the_move();
            if v.sup[last.pos()] is Undecided {
                last.pos()
            } else {
                s0
            }
        },
        None => s0,
    };
    assert(v.sup[s] == crate::game::tictactoe::status_of(v.cells[s]));
    count_zero_iff_absent(v.cells[s], None);
    let sub = v.cells[s];
    let p = choose|p: int| 0 <= p < 9 && #[trigger] sub[p] == None::<PlayerMark>;
    Action::numbering(s, p);
    Action::at(s, p)
}

/// A position of ultimate tic-tac-toe.
#[derive(Debug, Clone, Copy)]
pub struct UTTTBoard {
    /// The board is a 3x3 grid of 3x3 grids
    /// board[i][j] is the sub-board at position (i, j)
    /// so board[0][0] is the top left sub-board
    /// and board[i][j][k][l] is the mark at position (k, l) in the sub-board at position (i, j)
    /// all indices go from 0 to 2
    /// 0 = top or left
    /// 2 = right or bottom
    board: [[[[Cell; 3]; 3]; 3]; 3],
    /// The status of the whole game
    sup_board_status: GameStatus,
    /// The status of the super-board
    /// The super-board is a normal tictactoe board
    /// While being computable from the board, it is easier to keep track of it separately
    sup_board: [[GameStatus; 3]; 3],
    /// The last action taken decides the next board to play in
    /// In the first move, this is None
    last_action: Option<Action>,
}

impl View for UTTTBoard {
    type V = UtttView;

    closed spec fn view(&self) -> UtttView {
        UtttView {
            cells: Seq::new(
                9,
                |s: int| Seq::new(9, |p: int| self.board@[s / 3]@[s % 3]@[p / 3]@[p % 3]),
            ),
            sup: Seq::new(9, |s: int| self.sup_board@[s / 3]@[s % 3]),
            status: self.sup_board_status,
            last: self.last_action,
        }
    }
}

/// Is every cell of the sub-board marked?
fn sub_board_full(sub: &[[Cell; 3]; 3]) -> (full: bool)
    ensures
        full == (count_of(Seq::new(9, |p: int| sub@[p / 3]@[p % 3]), None) == 0),
{
    let ghost flat = Seq::new(9, |p: int| sub@[p / 3]@[p % 3]);
    let mut full = true;
    let mut p: usize = 0;
    while p < 9
        invariant
            p <= 9,
            flat == Seq::new(9, |p: int| sub@[p / 3]@[p % 3]),
            full == forall|q: int| 0 <= q < p ==> (#[trigger] flat[q]) is Some,
        decreases 9 - p,
    {
        assert(flat[p as int] == sub@[p as int / 3]@[p as int % 3]);
        if sub[p / 3][p % 3].is_none() {
            full = false;
        }
        p += 1;
    }
    proof {
        count_zero_iff_absent(flat, None);
    }
    full
}

/// Is no sub-board open any more?
fn super_board_full(sup: &[[GameStatus; 3]; 3]) -> (full: bool)
    ensures
        full == all_decided(Seq::new(9, |s: int| sup@[s / 3]@[s % 3])),
{
    let ghost flat = Seq::new(9, |s: int| sup@[s / 3]@[s % 3]);
    let mut full = true;
    let mut s: usize = 0;
    while s < 9
        invariant
            s <= 9,
            flat == Seq::new(9, |s: int| sup@[s / 3]@[s % 3]),
            full == forall|q: int| 0 <= q < s ==> !((#[trigger] flat[q]) is Undecided),
        decreases 9 - s,
    {
        assert(flat[s as int] == sup@[s as int / 3]@[s as int % 3]);
        if sup[s / 3][s % 3] == GameStatus::Undecided {
            full = false;
        }
        s += 1;
    }
    full
}

/// The lines through the cell in row `row` and column `col`, spelled out
/// cell by cell.
pub proof fn completes_line_cell_by_cell(flat: Seq<Cell>, row: int, col: int, m: PlayerMark)
    requires
        0 <= row < 3,
        0 <= col < 3,
    ensures
        completes_line(flat, 3 * row + col, m) == ((flat[3 * row] == Some(m) && flat[3 * row + 1]
            == Some(m) && flat[3 * row + 2] == Some(m)) || (flat[col] == Some(m) && flat[col + 3]
            == Some(m) && flat[col + 6] == Some(m)) || (col == row && flat[0] == Some(m) && flat[4]
            == Some(m) && flat[8] == Some(m)) || (col == 2 - row && flat[2] == Some(m) && flat[4]
            == Some(m) && flat[6] == Some(m))),
{
    let num = 3 * row + col;
    assert(num / 3 == row && num % 3 == col);
}

/// Does `m` fill one of the lines of the sub-board through the cell in row
/// `row` and column `col`?
fn completes_sub_line(sub: &[[Cell; 3]; 3], row: usize, col: usize, m: PlayerMark) -> (won: bool)
    requires
        row <= 2,
        col <= 2,
    ensures
        won == completes_line(Seq::new(9, |p: int| sub@[p / 3]@[p % 3]), 3 * row + col, m),
{
    let ghost flat = Seq::new(9, |p: int| sub@[p / 3]@[p % 3]);
    proof {
        assert(flat[0] == sub@[0]@[0] && flat[1] == sub@[0]@[1] && flat[2] == sub@[0]@[2]);
        assert(flat[3] == sub@[1]@[0] && flat[4] == sub@[1]@[1] && flat[5] == sub@[1]@[2]);
        assert(flat[6] == sub@[2]@[0] && flat[7] == sub@[2]@[1] && flat[8] == sub@[2]@[2]);
        completes_line_cell_by_cell(flat, row as int, col as int, m);
    }
    let won_row = holds(sub[row][0], m) && holds(sub[row][1], m) && holds(sub[row][2], m);
    let won_col = holds(sub[0][col], m) && holds(sub[1][col], m) && holds(sub[2][col], m);
    let won_diag_se = col == row && holds(sub[0][0], m) && holds(sub[1][1], m) && holds(sub[2][2], m);
    let won_diag_ne = col == 2 - row && holds(sub[0][2], m) && holds(sub[1][1], m) && holds(
        sub[2][0],
        m,
    );
    won_row || won_col || won_diag_se || won_diag_ne
}

/// Does `m` own a line of sub-boards through the sub-board in row `row` and
/// column `col`?
fn completes_super_line(sup: &[[GameStatus; 3]; 3], row: usize, col: usize, m: PlayerMark) -> (won: bool)
    requires
        row <= 2,
        col <= 2,
    ensures
        won == completes_line(sup_marks(Seq::new(9, |s: int| sup@[s / 3]@[s % 3])), 3 * row + col, m),
{
    let ghost flat = sup_marks(Seq::new(9, |s: int| sup@[s / 3]@[s % 3]));
    proof {
        assert(flat[0] == owner(sup@[0]@[0]) && flat[1] == owner(sup@[0]@[1]) && flat[2] == owner(sup@[0]@[2]));
        assert(flat[3] == owner(sup@[1]@[0]) && flat[4] == owner(sup@[1]@[1]) && flat[5] == owner(sup@[1]@[2]));
        assert(flat[6] == owner(sup@[2]@[0]) && flat[7] == owner(sup@[2]@[1]) && flat[8] == owner(sup@[2]@[2]));
        completes_line_cell_by_cell(flat, row as int, col as int, m);
    }
    let goal = GameStatus::Won(m);
    let won_row = sup[row][0] == goal && sup[row][1] == goal && sup[row][2] == goal;
    let won_col = sup[0][col] == goal && sup[1][col] == goal && sup[2][col] == goal;
    let won_diag_se = col == row && sup[0][0] == goal && sup[1][1] == goal && sup[2][2] == goal;
    let won_diag_ne = col == 2 - row && sup[0][2] == goal && sup[1][1] == goal && sup[2][0] == goal;
    won_row || won_col || won_diag_se || won_diag_ne
}

impl UTTTBoard {
    /// The empty board.
    pub fn new() -> (b: Self)
        ensures
            b@.cells == Seq::new(9, |s: int| Seq::new(9, |p: int| None::<PlayerMark>)),
            b@.sup == Seq::new(9, |s: int| GameStatus::Undecided),
            b@.status == GameStatus::Undecided,
            b@.last is None,
    {
        let b = Self {
            sup_board: [[GameStatus::Undecided; 3]; 3],
            board: [[[[None; 3]; 3]; 3]; 3],
            sup_board_status: GameStatus::Undecided,
            last_action: None,
        };
        assert(b@.cells =~~= Seq::new(9, |s: int| Seq::new(9, |p: int| None::<PlayerMark>)));
        assert(b@.sup =~= Seq::new(9, |s: int| GameStatus::Undecided));
        b
    }

    /// A board always shows nine sub-boards of nine cells.
    pub proof fn view_has_shape(&self)
        ensures
            is_shape(self@),
    {
    }

    /// Two boards that look the same are the same board.
    pub proof fn view_determines_board(&self, other: &UTTTBoard)
        requires
            self@ == other@,
        ensures
            *self == *other,
    {
        assert forall|i: int, j: int, k: int, l: int|
            0 <= i < 3 && 0 <= j < 3 && 0 <= k < 3 && 0 <= l < 3 implies self.board@[i]@[j]@[k]@[l]
            == other.board@[i]@[j]@[k]@[l] by {
            let s = 3 * i + j;
            let p = 3 * k + l;
            assert(self@.cells[s][p] == other@.cells[s][p]);
            assert(s / 3 == i && s % 3 == j && p / 3 == k && p % 3 == l);
        }
        assert forall|i: int| 0 <= i < 3 implies self.board@[i] == other.board@[i] by {
            assert forall|j: int| 0 <= j < 3 implies self.board@[i]@[j] == other.board@[i]@[j] by {
                assert forall|k: int| 0 <= k < 3 implies self.board@[i]@[j]@[k] == other.board@[i]@[j]@[k] by {
                    assert(self.board@[i]@[j]@[k] =~= other.board@[i]@[j]@[k]);
                }
                assert(self.board@[i]@[j] =~= other.board@[i]@[j]);
            }
            assert(self.board@[i] =~= other.board@[i]);
        }
        assert(self.board =~= other.board);
        assert forall|i: int| 0 <= i < 3 implies self.sup_board@[i] == other.sup_board@[i] by {
            assert forall|j: int| 0 <= j < 3 implies self.sup_board@[i]@[j] == other.sup_board@[i]@[j] by {
                let s = 3 * i + j;
                assert(s / 3 == i && s % 3 == j);
                assert(self@.sup[s] == self.sup_board@[i]@[j]);
                assert(other@.sup[s] == other.sup_board@[i]@[j]);
            }
            assert(self.sup_board@[i] =~= other.sup_board@[i]);
        }
        assert(self.sup_board =~= other.sup_board);
    }

    /// The statuses of the nine sub-boards.
    pub fn get_sup_board(&self) -> (sup: &[[GameStatus; 3]; 3])
        ensures
            forall|i: int, j: int| 0 <= i < 3 && 0 <= j < 3 ==> #[trigger] sup@[i]@[j] == self@.sup[3 * i + j],
    {
        proof {
            assert forall|i: int, j: int| 0 <= i < 3 && 0 <= j < 3 implies #[trigger] self.sup_board@[i]@[j]
                == self@.sup[3 * i + j] by {
                assert((3 * i + j) / 3 == i && (3 * i + j) % 3 == j);
            }
        }
        &self.sup_board
    }

    /// The marks of the 81 cells.
    pub fn get_board(&self) -> (board: &[[[[Cell; 3]; 3]; 3]; 3])
        ensures
            forall|i: int, j: int, k: int, l: int|
                0 <= i < 3 && 0 <= j < 3 && 0 <= k < 3 && 0 <= l < 3 ==> #[trigger] board@[i]@[j]@[k]@[l]
                    == self@.cells[3 * i + j][3 * k + l],
    {
        proof {
            assert forall|i: int, j: int, k: int, l: int|
                0 <= i < 3 && 0 <= j < 3 && 0 <= k < 3 && 0 <= l < 3 implies #[trigger] self.board@[i]@[j]@[k]@[l]
                == self@.cells[3 * i + j][3 * k + l] by {
                assert((3 * i + j) / 3 == i && (3 * i + j) % 3 == j);
                assert((3 * k + l) / 3 == k && (3 * k + l) % 3 == l);
            }
        }
        &self.board
    }

    /// The status of the game.
    pub fn get_winner(&self) -> (s: GameStatus)
        ensures
            s == self@.status,
    {
        self.sup_board_status
    }

    /// The next move must be placed in this sub-board
    /// indexed 0-2
    pub fn target_board(&self) -> (t: Option<(usize, usize)>)
        ensures
            match target(self@) {
                Some(s) => t matches Some(b) && b.0 <= 2 && b.1 <= 2 && s == 3 * b.0 + b.1,
                None => t is None,
            },
    {
        match self.last_action {
            None => None,
            Some(a) => {
                proof {
                    use_type_invariant(&a);
                    let s = a.pos();
                    assert(s / 3 == a.position.0 && s % 3 == a.position.1);
                }
                if self.sup_board[a.position.0][a.position.1] == GameStatus::Undecided {
                    Some(a.position)
                } else {
                    None
                }
            },
        }
    }

    /// Return `true` if the move is a valid move
    pub fn validate(&self, action: Action) -> (ok: bool)
        ensures
            ok == is_valid(self@, action),
    {
        match self.last_action {
            None => true,
            Some(last) => {
                let desired_target_board = last.position;
                proof {
                    use_type_invariant(&last);
                    use_type_invariant(&action);
                    let s = last.pos();
                    assert(s / 3 == last.position.0 && s % 3 == last.position.1);
                    let t = action.sub();
                    let p = action.pos();
                    assert(t / 3 == action.board.0 && t % 3 == action.board.1);
                    assert(p / 3 == action.position.0 && p % 3 == action.position.1);
                }
                // if the target board is running, verify that the new move is in that board
                if self.sup_board[desired_target_board.0][desired_target_board.1] == GameStatus::Undecided
                    && !(action.board.0 == desired_target_board.0 && action.board.1
                    == desired_target_board.1) {
                    return false;
                }
                // is the target position playable in the target board?

                if self.board[action.board.0][action.board.1][action.position.0][action.position.1].is_some() {
                    return false;
                }
                true
            },
        }
    }

    /// How many cells of the board hold exactly `what`.
    fn count(&self, what: Cell) -> (n: usize)
        ensures
            n == count_in_rows(self@.cells, what, 9),
            n <= 81,
    {
        let ghost g = self@.cells;
        let mut n: usize = 0;
        let mut s: usize = 0;
        while s < 9
            invariant
                s <= 9,
                g == self@.cells,
                n == count_in_rows(g, what, s as nat),
                n <= 9 * s,
            decreases 9 - s,
        {
            let mut p: usize = 0;
            let ghost before = n;
            while p < 9
                invariant
                    p <= 9,
                    s < 9,
                    g == self@.cells,
                    n == before + count_of(g[s as int].take(p as int), what),
                    n <= before + p,
                    before <= 9 * s,
                decreases 9 - p,
            {
                proof {
                    count_take_step(g[s as int], p as int, what);
                }
                let cell = self.board[s / 3][s % 3][p / 3][p % 3];
                let same = match (cell, what) {
                    (None, None) => true,
                    (Some(PlayerMark::Cross), Some(PlayerMark::Cross)) => true,
                    (Some(PlayerMark::Naught), Some(PlayerMark::Naught)) => true,
                    _ => false,
                };
                if same {
                    n += 1;
                }
                p += 1;
            }
            assert(g[s as int].take(9) =~= g[s as int]);
            s += 1;
        }
        n
    }

    /// The number of marks on the board.
    pub fn n_moves_made(&self) -> (n: usize)
        ensures
            n == count_in_rows(self@.cells, Some(PlayerMark::Cross), 9) + count_in_rows(
                self@.cells,
                Some(PlayerMark::Naught),
                9,
            ),
            n <= 162,
    {
        self.count(Some(PlayerMark::Cross)) + self.count(Some(PlayerMark::Naught))
    }

    /// The board after `mark` has marked the cell that `action` names.
    pub closed spec fn with_mark(&self, action: Action, mark: PlayerMark) -> UTTTBoard {
        let after = view_after(self@, action, mark);
        let (b0, b1) = (action.board.0 as int, action.board.1 as int);
        let (p0, p1) = (action.position.0 as int, action.position.1 as int);
        let row = vstd::array::spec_array_update(self.board[b0][b1][p0], p1, Some(mark));
        let sub = vstd::array::spec_array_update(self.board[b0][b1], p0, row);
        let subs = vstd::array::spec_array_update(self.board[b0], b1, sub);
        let sups = vstd::array::spec_array_update(self.sup_board[b0], b1, after.sup[action.sub()]);
        UTTTBoard {
            board: vstd::array::spec_array_update(self.board, b0, subs),
            sup_board_status: after.status,
            sup_board: vstd::array::spec_array_update(self.sup_board, b0, sups),
            last_action: Some(action),
        }
    }

    /// What one sees after a mark was placed.
    pub proof fn with_mark_view(&self, action: Action, mark: PlayerMark)
        requires
            action.in_range(),
        ensures
            self.with_mark(action, mark)@ == view_after(self@, action, mark),
    {
        broadcast use vstd::array::axiom_spec_array_update;

        let after = self.with_mark(action, mark);
        let goal = view_after(self@, action, mark);
        assert forall|s: int, p: int| 0 <= s < 9 && 0 <= p < 9 implies after@.cells[s][p] == goal.cells[s][p] by {}
        assert(after@.cells =~~= goal.cells);
        assert(after@.sup =~= goal.sup);
    }

    /// Mark the given position with the given player mark in the sub-board
    /// and if someone won that sub-board, mark the position in the sup-board
    /// and if someone won the sup-board, mark the winner
    /// and if the sup-board is full, mark the draw
    pub fn mark(&mut self, action: Action, mark: PlayerMark)
        requires
            old(self)@.cells[action.sub()][action.pos()] is None,
        ensures
            final(self)@ == view_after(old(self)@, action, mark),
            *final(self) == old(self).with_mark(action, mark),
    {
        proof {
            use_type_invariant(&action);
        }
        let (b0, b1) = action.board;
        let (sub_row, sub_col) = action.position;
        let ghost v = self@;
        let ghost s = action.sub();
        let ghost p = action.pos();
        proof {
            assert(s / 3 == b0 && s % 3 == b1 && p / 3 == sub_row && p % 3 == sub_col);
        }
        let mut sub_board = self.board[b0][b1];
        let mut row = sub_board[sub_row];
        row[sub_col] = Some(mark);
        sub_board[sub_row] = row;
        let mut subs = self.board[b0];
        subs[b1] = sub_board;
        self.board[b0] = subs;
        let ghost flat = Seq::new(9, |q: int| sub_board@[q / 3]@[q % 3]);
        proof {
            assert(flat =~= v.cells[s].update(p, Some(mark)));
            assert(self@.cells =~~= v.cells.update(s, flat));
        }

        // check if this player won the sub-board
        let won_sub_board = completes_sub_line(&sub_board, sub_row, sub_col, mark);
        let mut sups = self.sup_board[b0];
        if won_sub_board {
            sups[b1] = GameStatus::Won(mark);
        }
        // check if the sub-board is a draw
        let full = sub_board_full(&sub_board);
        if full && !won_sub_board {
            sups[b1] = GameStatus::Draw;
        }
        self.sup_board[b0] = sups;
        proof {
            assert(self@.sup =~= view_after(v, action, mark).sup);
        }

        // check if the super-board is won
        let won_super_board = completes_super_line(&self.sup_board, b0, b1, mark);
        if won_super_board {
            self.sup_board_status = GameStatus::Won(mark);
        }
        // check if the super-board is a draw

        let super_full = super_board_full(&self.sup_board);
        if super_full && !won_super_board {
            self.sup_board_status = GameStatus::Draw;
        }
        self.last_action = Some(action);
        proof {
            let target = old(self).with_mark(action, mark);
            old(self).with_mark_view(action, mark);
            self.view_determines_board(&target);
        }
    }
}

/// Does `m` fill one of the eight lines of the sub-board?
fn has_sub_line(sub: &[[Cell; 3]; 3], m: PlayerMark) -> (won: bool)
    ensures
        won == has_line(Seq::new(9, |p: int| sub@[p / 3]@[p % 3]), m),
{
    let ghost flat = Seq::new(9, |p: int| sub@[p / 3]@[p % 3]);
    proof {
        assert(flat[0] == sub@[0]@[0] && flat[1] == sub@[0]@[1] && flat[2] == sub@[0]@[2]);
        assert(flat[3] == sub@[1]@[0] && flat[4] == sub@[1]@[1] && flat[5] == sub@[1]@[2]);
        assert(flat[6] == sub@[2]@[0] && flat[7] == sub@[2]@[1] && flat[8] == sub@[2]@[2]);
    }
    let mut won = false;
    let mut i: usize = 0;
    while i < 3
        invariant
            i <= 3,
            flat == Seq::new(9, |p: int| sub@[p / 3]@[p % 3]),
            won == exists|k: int|
                ((0 <= k < i) || (3 <= k < 3 + i)) && #[trigger] line_full(flat, k, m),
        decreases 3 - i,
    {
        let row = holds(sub[i][0], m) && holds(sub[i][1], m) && holds(sub[i][2], m);
        let col = holds(sub[0][i], m) && holds(sub[1][i], m) && holds(sub[2][i], m);
        proof {
            assert(flat[3 * i] == sub@[i as int]@[0] && flat[3 * i + 1] == sub@[i as int]@[1] && flat[3
                * i + 2] == sub@[i as int]@[2]);
            assert(flat[i as int] == sub@[0]@[i as int] && flat[i + 3] == sub@[1]@[i as int] && flat[i
                + 6] == sub@[2]@[i as int]);
            assert(row == line_full(flat, i as int, m));
            assert(col == line_full(flat, 3 + i, m));
        }
        if row || col {
            won = true;
        }
        i += 1;
    }
    let se = holds(sub[0][0], m) && holds(sub[1][1], m) && holds(sub[2][2], m);
    let ne = holds(sub[0][2], m) && holds(sub[1][1], m) && holds(sub[2][0], m);
    proof {
        assert(se == line_full(flat, 6, m));
        assert(ne == line_full(flat, 7, m));
        if has_line(flat, m) {
            let k = choose|k: int| 0 <= k < 8 && #[trigger] line_full(flat, k, m);
            assert(won || se || ne);
        }
    }
    won || se || ne
}

/// The status that the cells of the sub-board amount to.
fn sub_board_status(sub: &[[Cell; 3]; 3]) -> (s: GameStatus)
    ensures
        s == crate::game::tictactoe::status_of(Seq::new(9, |p: int| sub@[p / 3]@[p % 3])),
{
    if has_sub_line(sub, PlayerMark::Naught) {
        GameStatus::Won(PlayerMark::Naught)
    } else if has_sub_line(sub, PlayerMark::Cross) {
        GameStatus::Won(PlayerMark::Cross)
    } else if sub_board_full(sub) {
        GameStatus::Draw
    } else {
        GameStatus::Undecided
    }
}

impl UTTTBoard {
    /// The position with the given marks in which `last` was the last
    /// move. The statuses of the sub-boards and of the game are worked out
    /// from the marks.
    pub fn from_parts(board: [[[[Cell; 3]; 3]; 3]; 3], last: Option<Action>) -> (b: Self)
        ensures
            forall|i: int, j: int, k: int, l: int|
                0 <= i < 3 && 0 <= j < 3 && 0 <= k < 3 && 0 <= l < 3 ==> #[trigger] board@[i]@[j]@[k]@[l]
                    == b@.cells[3 * i + j][3 * k + l],
            forall|s: int| 0 <= s < 9 ==> #[trigger] b@.sup[s] == crate::game::tictactoe::status_of(b@.cells[s]),
            b@.status == overall_status(b@.sup),
            b@.last == last,
    {
        let mut sup_board = [[GameStatus::Undecided; 3]; 3];
        let mut s: usize = 0;
        let ghost cells = Seq::new(
            9,
            |s: int| Seq::new(9, |p: int| board@[s / 3]@[s % 3]@[p / 3]@[p % 3]),
        );
        while s < 9
            invariant
                s <= 9,
                cells == Seq::new(9, |s: int| Seq::new(9, |p: int| board@[s / 3]@[s % 3]@[p / 3]@[p % 3])),
                forall|t: int|
                    0 <= t < s ==> #[trigger] sup_board@[t / 3]@[t % 3] == crate::game::tictactoe::status_of(
                        cells[t],
                    ),
            decreases 9 - s,
        {
            let status = sub_board_status(&board[s / 3][s % 3]);
            let ghost before = sup_board;
            let mut row = sup_board[s / 3];
            row[s % 3] = status;
            sup_board[s / 3] = row;
            proof {
                assert(cells[s as int] =~= Seq::new(
                    9,
                    |p: int| board@[s as int / 3]@[s as int % 3]@[p / 3]@[p % 3],
                ));
                assert forall|t: int| 0 <= t < s + 1 implies #[trigger] sup_board@[t / 3]@[t % 3]
                    == crate::game::tictactoe::status_of(cells[t]) by {
                    if t < s {
                        assert(before@[t / 3]@[t % 3] == crate::game::tictactoe::status_of(cells[t]));
                    }
                }
            }
            s += 1;
        }
        let mut b = UTTTBoard { board, sup_board_status: GameStatus::Undecided, sup_board, last_action: last };
        let naughts = has_sub_line_of_boards(&b.sup_board, PlayerMark::Naught);
        let crosses = has_sub_line_of_boards(&b.sup_board, PlayerMark::Cross);
        let full = super_board_full(&b.sup_board);
        b.sup_board_status = if naughts {
            GameStatus::Won(PlayerMark::Naught)
        } else if crosses {
            GameStatus::Won(PlayerMark::Cross)
        } else if full {
            GameStatus::Draw
        } else {
            GameStatus::Undecided
        };
        proof {
            assert(b@.cells =~~= cells);
            assert forall|i: int, j: int, k: int, l: int|
                0 <= i < 3 && 0 <= j < 3 && 0 <= k < 3 && 0 <= l < 3 implies #[trigger] board@[i]@[j]@[k]@[l]
                == b@.cells[3 * i + j][3 * k + l] by {
                assert((3 * i + j) / 3 == i && (3 * i + j) % 3 == j);
                assert((3 * k + l) / 3 == k && (3 * k + l) % 3 == l);
            }
        }
        b
    }

    /// The last move, if one was made.
    pub fn last_action(&self) -> (a: Option<Action>)
        ensures
            a == self@.last,
    {
        self.last_action
    }
}

/// Does `m` own one of the eight lines of sub-boards?
fn has_sub_line_of_boards(sup: &[[GameStatus; 3]; 3], m: PlayerMark) -> (won: bool)
    ensures
        won == has_line(sup_marks(Seq::new(9, |s: int| sup@[s / 3]@[s % 3])), m),
{
    let ghost flat = sup_marks(Seq::new(9, |s: int| sup@[s / 3]@[s % 3]));
    proof {
        assert(flat[0] == owner(sup@[0]@[0]) && flat[1] == owner(sup@[0]@[1]) && flat[2] == owner(sup@[0]@[2]));
        assert(flat[3] == owner(sup@[1]@[0]) && flat[4] == owner(sup@[1]@[1]) && flat[5] == owner(sup@[1]@[2]));
        assert(flat[6] == owner(sup@[2]@[0]) && flat[7] == owner(sup@[2]@[1]) && flat[8] == owner(sup@[2]@[2]));
    }
    let goal = GameStatus::Won(m);
    let r0 = sup[0][0] == goal && sup[0][1] == goal && sup[0][2] == goal;
    let r1 = sup[1][0] == goal && sup[1][1] == goal && sup[1][2] == goal;
    let r2 = sup[2][0] == goal && sup[2][1] == goal && sup[2][2] == goal;
    let c0 = sup[0][0] == goal && sup[1][0] == goal && sup[2][0] == goal;
    let c1 = sup[0][1] == goal && sup[1][1] == goal && sup[2][1] == goal;
    let c2 = sup[0][2] == goal && sup[1][2] == goal && sup[2][2] == goal;
    let se = sup[0][0] == goal && sup[1][1] == goal && sup[2][2] == goal;
    let ne = sup[0][2] == goal && sup[1][1] == goal && sup[2][0] == goal;
    proof {
        assert(r0 == line_full(flat, 0, m));
        assert(r1 == line_full(flat, 1, m));
        assert(r2 == line_full(flat, 2, m));
        assert(c0 == line_full(flat, 3, m));
        assert(c1 == line_full(flat, 4, m));
        assert(c2 == line_full(flat, 5, m));
        assert(se == line_full(flat, 6, m));
        assert(ne == line_full(flat, 7, m));
        if has_line(flat, m) {
            let k = choose|k: int| 0 <= k < 8 && #[trigger] line_full(flat, k, m);
            assert(r0 || r1 || r2 || c0 || c1 || c2 || se || ne);
        }
    }
    r0 || r1 || r2 || c0 || c1 || c2 || se || ne
}

impl PartialEq for UTTTBoard {
    /// Two positions are equal when they hold the same marks.
    fn eq(&self, other: &Self) -> (r: bool) {
        let mut s: usize = 0;
        while s < 9
            invariant
                s <= 9,
                forall|t: int, p: int| 0 <= t < s && 0 <= p < 9 ==> self@.cells[t][p] == other@.cells[t][p],
            decreases 9 - s,
        {
            let mut p: usize = 0;
            while p < 9
                invariant
                    p <= 9,
                    s < 9,
                    forall|q: int| 0 <= q < p ==> self@.cells[s as int][q] == other@.cells[s as int][q],
                decreases 9 - p,
            {
                if !same_cell(self.board[s / 3][s % 3][p / 3][p % 3], other.board[s / 3][s % 3][p / 3][p % 3]) {
                    assert(self@.cells[s as int][p as int] != other@.cells[s as int][p as int]);
                    return false;
                }
                p += 1;
            }
            s += 1;
        }
        assert(self@.cells =~~= other@.cells);
        true
    }
}

impl Eq for UTTTBoard {

}

impl vstd::std_specs::cmp::PartialEqSpecImpl for UTTTBoard {
    open spec fn obeys_eq_spec() -> bool {
        true
    }

    open spec fn eq_spec(&self, other: &Self) -> bool {
        self@.cells == other@.cells
    }
}

impl Default for UTTTBoard {
    fn default() -> (b: Self)
        ensures
            b@.cells == Seq::new(9, |s: int| Seq::new(9, |p: int| None::<PlayerMark>)),
            b@.sup == Seq::new(9, |s: int| GameStatus::Undecided),
            b@.status == GameStatus::Undecided,
            b@.last is None,
    {
        UTTTBoard::new()
    }
}

impl Board for UTTTBoard {
    type Coordinate = Action;

    open spec fn inv(&self) -> bool {
        is_consistent(self@)
    }

    open spec fn status(&self) -> GameStatus {
        self@.status
    }

    /// Naughts move when both sides have placed the same number of marks,
    /// crosses otherwise.
    open spec fn to_move(&self) -> PlayerMark {
        if count_in_rows(self@.cells, Some(PlayerMark::Naught), 9) == count_in_rows(
            self@.cells,
            Some(PlayerMark::Cross),
            9,
        ) {
            PlayerMark::Naught
        } else {
            PlayerMark::Cross
        }
    }

    open spec fn moves(&self) -> Seq<Action> {
        legal_upto(self@, 81)
    }

    open spec fn placed(&self, a: Action, marker: PlayerMark) -> Self {
        self.with_mark(a, marker)
    }

    open spec fn room(&self) -> nat {
        count_in_rows(self@.cells, None, 9)
    }

    closed spec fn initial() -> Self {
        UTTTBoard {
            board: vstd::array::spec_array_fill_for_copy_type(
                vstd::array::spec_array_fill_for_copy_type(
                    vstd::array::spec_array_fill_for_copy_type(
                        vstd::array::spec_array_fill_for_copy_type(None),
                    ),
                ),
            ),
            sup_board_status: GameStatus::Undecided,
            sup_board: vstd::array::spec_array_fill_for_copy_type(
                vstd::array::spec_array_fill_for_copy_type(GameStatus::Undecided),
            ),
            last_action: None,
        }
    }

    proof fn open_game_has_moves(&self) {
        let a = open_game_offers_a_move(self@);
        a.numbers_name_the_move();
        legal_upto_lists_legal(self@, 81, a);
    }

    proof fn initial_is_consistent() {
        broadcast use vstd::array::axiom_spec_array_fill_for_copy_type;

        let v = Self::initial()@;
        assert forall|s: int, p: int| 0 <= s < 9 && 0 <= p < 9 implies (#[trigger] v.cells[s][p]) is None by {}
        assert forall|s: int| 0 <= s < 9 implies (#[trigger] v.sup[s]) is Undecided by {}
        assert forall|s: int| 0 <= s < 9 implies #[trigger] v.sup[s] == crate::game::tictactoe::status_of(
            v.cells[s],
        ) by {
            let sub = v.cells[s];
            assert forall|k: int, m: PlayerMark| 0 <= k < 8 implies !#[trigger] line_full(sub, k, m) by {
                assert(sub[0] is None && sub[1] is None && sub[2] is None && sub[3] is None && sub[4] is None);
                assert(sub[5] is None && sub[6] is None && sub[7] is None && sub[8] is None);
            }
            count_zero_iff_absent(sub, None);
            assert(sub[0] == None::<PlayerMark>);
        }
        let marks = sup_marks(v.sup);
        assert forall|k: int, m: PlayerMark| 0 <= k < 8 implies !#[trigger] line_full(marks, k, m) by {
            assert(marks[0] is None && marks[1] is None && marks[2] is None && marks[3] is None && marks[4] is None);
            assert(marks[5] is None && marks[6] is None && marks[7] is None && marks[8] is None);
        }
        assert(v.sup[0] is Undecided);
    }

    proof fn placed_is_consistent(&self, a: Action, marker: PlayerMark) {
        legal_upto_lists_legal(self@, 81, a);
        self.with_mark_view(a, marker);
        view_after_is_consistent(self@, a, marker);
    }

    fn new_game() -> (b: Self) {
        broadcast use vstd::array::axiom_spec_array_fill_for_copy_type;

        let b = UTTTBoard::new();
        proof {
            let i = Self::initial();
            assert(b@.cells =~~= i@.cells);
            assert(b@.sup =~= i@.sup);
            b.view_determines_board(&i);
        }
        b
    }

    fn valid_moves(&self) -> (v: Vec<Action>) {
        let mut moves: Vec<Action> = Vec::new();
        let mut n: usize = 0;
        while n < 81
            invariant
                n <= 81,
                self.inv(),
                moves@ == legal_upto(self@, n as nat),
            decreases 81 - n,
        {
            let s = n / 9;
            let p = n % 9;
            let i = s / 3;
            let j = s % 3;
            let action = Action { board: (i, j), position: (p / 3, p % 3) };
            proof {
                Action::numbering(s as int, p as int);
                assert(action == Action::at(s as int, p as int));
            }
            if self.sup_board[i][j] == GameStatus::Undecided {
                if self.validate(action) {
                    moves.push(action);
                }
            }
            n += 1;
        }
        moves
    }

    fn place_mark(&mut self, a: Action, marker: PlayerMark) {
        proof {
            legal_upto_lists_legal(self@, 81, a);
            a.numbers_name_the_move();
        }
        self.mark(a, marker);
    }

    fn game_status(&self) -> (s: GameStatus) {
        self.sup_board_status
    }

    fn current_player(&self) -> (m: PlayerMark) {
        // count the number of noughts and crosses
        // if they are equal, it is naughts turn
        let noughts = self.count(Some(PlayerMark::Naught));
        let crosses = self.count(Some(PlayerMark::Cross));
        if noughts == crosses {
            PlayerMark::Naught
        } else {
            PlayerMark::Cross
        }
    }
}

impl Keyed for UTTTBoard {
    open spec fn code_of(&self) -> u64 {
        code_of_rows(self@.cells, 9)
    }

    fn same(&self, other: &Self) -> (r: bool) {
        let mut s: usize = 0;
        while s < 9
            invariant
                s <= 9,
                forall|t: int, p: int| 0 <= t < s && 0 <= p < 9 ==> self@.cells[t][p] == other@.cells[t][p],
                forall|t: int| 0 <= t < s ==> self@.sup[t] == other@.sup[t],
            decreases 9 - s,
        {
            let mut p: usize = 0;
            while p < 9
                invariant
                    p <= 9,
                    s < 9,
                    forall|q: int| 0 <= q < p ==> self@.cells[s as int][q] == other@.cells[s as int][q],
                decreases 9 - p,
            {
                if !same_cell(self.board[s / 3][s % 3][p / 3][p % 3], other.board[s / 3][s % 3][p / 3][p % 3]) {
                    assert(self@.cells[s as int][p as int] != other@.cells[s as int][p as int]);
                    return false;
                }
                p += 1;
            }
            if self.sup_board[s / 3][s % 3] != other.sup_board[s / 3][s % 3] {
                assert(self@.sup[s as int] != other@.sup[s as int]);
                return false;
            }
            s += 1;
        }
        if self.sup_board_status != other.sup_board_status {
            return false;
        }
        let same_last = match (self.last_action, other.last_action) {
            (None, None) => true,
            (Some(a), Some(b)) => Self::same_move(&a, &b),
            _ => false,
        };
        proof {
            if same_last {
                assert(self@.cells =~~= other@.cells);
                assert(self@.sup =~= other@.sup);
                self.view_determines_board(other);
            }
        }
        same_last
    }

    fn same_move(a: &Action, b: &Action) -> (r: bool) {
        a.board.0 == b.board.0 && a.board.1 == b.board.1 && a.position.0 == b.position.0
            && a.position.1 == b.position.1
    }

    fn code(&self) -> (h: u64) {
        let ghost g = self@.cells;
        let mut h: u64 = 0;
        let mut s: usize = 0;
        while s < 9
            invariant
                s <= 9,
                g == self@.cells,
                h == code_of_rows(g, s as nat),
            decreases 9 - s,
        {
            let ghost start = h;
            let mut p: usize = 0;
            while p < 9
                invariant
                    p <= 9,
                    s < 9,
                    g == self@.cells,
                    h == code_of_cells(g[s as int].take(p as int), start),
                decreases 9 - p,
            {
                proof {
                    code_take_step(g[s as int], p as int, start);
                }
                h = mix(h, self.board[s / 3][s % 3][p / 3][p % 3]);
                p += 1;
            }
            assert(g[s as int].take(9) =~= g[s as int]);
            s += 1;
        }
        h
    }
}

} // verus!
