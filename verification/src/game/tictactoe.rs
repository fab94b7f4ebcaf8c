//! Tic-tac-toe on the 3x3 board.

use vstd::prelude::*;
use crate::base::{Board, GameStatus, Keyed, PlayerMark};
use crate::game::cells::{
    code_of_cells, code_take_step, count_of, count_take_step, count_update, count_zero_iff_absent,
    mix, occupied, same_cell, Cell,
};

verus! {

/// Represents a coordinate on the board
///
///  1 2 3
///  4 5 6
///  7 8 9
///
/// A coordinate that can be played holds a number from 1 to 9.
#[derive(Debug, PartialEq, Eq, Structural, Clone, Copy, Hash, Ord, PartialOrd)]
pub struct TTTAddr(pub usize);

/// The first member is the board entries from top left row wise to bottom right.
/// The second member is the victory counters. +1 for naughts. -1 for crosses.
/// Someone wins on a +3 or -3.
/// It holds 8 numbers: 3 rows (top to bottom), 3 columns (left to right) and
/// two diagonals (first the one that points to southeast, and then the one to
/// northeast).
#[derive(Clone, Copy, Debug, Hash, Eq, PartialEq, PartialOrd, Ord)]
pub struct TTTBoard([Cell; 9], [i32; 8]);

/// What a cell adds to the counters of the lines through it.
pub open spec fn weight(c: Cell) -> int {
    match c {
        None => 0,
        Some(PlayerMark::Naught) => 1,
        Some(PlayerMark::Cross) => -1,
    }
}

/// The three cells of line `k`: rows 0 to 2, columns 3 to 5, then the two
/// diagonals.
pub open spec fn line_cells(k: int) -> (int, int, int) {
    if k < 3 {
        (3 * k, 3 * k + 1, 3 * k + 2)
    } else if k < 6 {
        (k - 3, k, k + 3)
    } else if k == 6 {
        (0, 4, 8)
    } else {
        (2, 4, 6)
    }
}

/// The counter of line `k`.
pub open spec fn line_sum(cells: Seq<Cell>, k: int) -> int {
    let (a, b, c) = line_cells(k);
    weight(cells[a]) + weight(cells[b]) + weight(cells[c])
}

/// Line `k` holds three marks of `m`.
pub open spec fn line_full(cells: Seq<Cell>, k: int, m: PlayerMark) -> bool {
    let (a, b, c) = line_cells(k);
    cells[a] == Some(m) && cells[b] == Some(m) && cells[c] == Some(m)
}

/// `m` has three in a row somewhere.
pub open spec fn has_line(cells: Seq<Cell>, m: PlayerMark) -> bool {
    exists|k: int| 0 <= k < 8 && #[trigger] line_full(cells, k, m)
}

/// The side that has three in a row, naughts looked at first.
pub open spec fn line_winner(cells: Seq<Cell>) -> Option<PlayerMark> {
    if has_line(cells, PlayerMark::Naught) {
        Some(PlayerMark::Naught)
    } else if has_line(cells, PlayerMark::Cross) {
        Some(PlayerMark::Cross)
    } else {
        None
    }
}

/// The status that the marks on the board amount to.
pub open spec fn status_of(cells: Seq<Cell>) -> GameStatus {
    match line_winner(cells) {
        Some(m) => GameStatus::Won(m),
        None => if count_of(cells, None) == 0 {
            GameStatus::Draw
        } else {
            GameStatus::Undecided
        },
    }
}

/// The addresses of the empty cells among the first `n`, in rising order.
pub open spec fn empty_addrs(cells: Seq<Cell>, n: nat) -> Seq<TTTAddr>
    decreases n,
{
    if n == 0 {
        Seq::empty()
    } else {
        let before = empty_addrs(cells, (n - 1) as nat);
        if cells[n - 1] is None {
            before.push(TTTAddr((n - 1 + 1) as usize))
        } else {
            before
        }
    }
}

/// An address is listed exactly when it names an empty cell among the first `n`.
pub proof fn empty_addrs_lists_empty_cells(cells: Seq<Cell>, n: nat, a: TTTAddr)
    requires
        n <= 9,
    ensures
        empty_addrs(cells, n).contains(a) <==> 1 <= a.0 <= n && cells[a.0 - 1] is None,
    decreases n,
{
    if n > 0 {
        let before = empty_addrs(cells, (n - 1) as nat);
        empty_addrs_lists_empty_cells(cells, (n - 1) as nat, a);
        if cells[n - 1] is None {
            let here = TTTAddr(n as usize);
            assert(empty_addrs(cells, n) == before.push(here));
            if a == here {
                assert(before.push(here)[before.len() as int] == here);
            }
            if before.contains(a) {
                let i = choose|i: int| 0 <= i < before.len() && before[i] == a;
                assert(before.push(here)[i] == a);
            }
        }
    }
}

/// Cell `num` lies on line `k`.
pub open spec fn on_line(num: int, k: int) -> bool {
    let (a, b, c) = line_cells(k);
    num == a || num == b || num == c
}

/// A mark on an empty cell moves the counters of the lines through the cell
/// by the mark's weight, and no others.
pub proof fn line_sum_after_mark(cells: Seq<Cell>, num: int, p: PlayerMark, k: int)
    requires
        cells.len() == 9,
        0 <= num < 9,
        0 <= k < 8,
        cells[num] is None,
    ensures
        line_sum(cells.update(num, Some(p)), k) == line_sum(cells, k) + if on_line(num, k) {
            weight(Some(p))
        } else {
            0
        },
        on_line(num, k) <==> (k == num / 3 || k == 3 + num % 3 || (k == 6 && num / 3 == num % 3) || (k
            == 7 && num / 3 == 2 - num % 3)),
        on_line(num, k) ==> -2 <= line_sum(cells, k) <= 2,
{
}

/// The counters `after` are the counters `before` with `d` added on the
/// lines through cell `num`.
pub open spec fn bumped(before: Seq<i32>, after: Seq<i32>, num: int, d: int) -> bool {
    forall|k: int|
        0 <= k < 8 ==> #[trigger] after[k] == before[k] + if k == num / 3 || k == 3 + num % 3 || (k
            == 6 && num / 3 == num % 3) || (k == 7 && num / 3 == 2 - num % 3) {
            d
        } else {
            0
        }
}

/// A mark on an empty cell of a board without three in a row completes a
/// line exactly when it completes one of the lines through its cell, and it
/// completes none for the other side.
pub proof fn new_mark_completes_own_lines_only(cells: Seq<Cell>, num: int, p: PlayerMark)
    requires
        cells.len() == 9,
        0 <= num < 9,
        cells[num] is None,
        !has_line(cells, PlayerMark::Cross),
        !has_line(cells, PlayerMark::Naught),
    ensures
        has_line(cells.update(num, Some(p)), p) <==> (line_full(cells.update(num, Some(p)), num / 3, p)
            || line_full(cells.update(num, Some(p)), 3 + num % 3, p) || (num / 3 == num % 3
            && line_full(cells.update(num, Some(p)), 6, p)) || (num / 3 == 2 - num % 3 && line_full(
            cells.update(num, Some(p)),
            7,
            p,
        ))),
        !has_line(cells.update(num, Some(p)), p.opponent()),
{
    let after = cells.update(num, Some(p));
    let rival = p.opponent();
    if has_line(after, rival) {
        let k = choose|k: int| 0 <= k < 8 && #[trigger] line_full(after, k, rival);
        assert(line_full(cells, k, rival));
    }
    if has_line(after, p) {
        let k = choose|k: int| 0 <= k < 8 && #[trigger] line_full(after, k, p);
        line_sum_after_mark(cells, num, p, k);
        if !on_line(num, k) {
            assert(line_full(cells, k, p));
        }
    }
}

/// What the letter of a board string stands for, if it is one of the three
/// that may occur.
pub open spec fn cell_of_char(c: char) -> Option<Cell> {
    if c == 'x' {
        Some(Some(PlayerMark::Cross))
    } else if c == 'o' {
        Some(Some(PlayerMark::Naught))
    } else if c == ' ' {
        Some(None)
    } else {
        None
    }
}

/// The string spells a board: nine letters, each an `x`, an `o` or a blank.
pub open spec fn spells_board(s: Seq<char>) -> bool {
    s.len() == 9 && forall|i: int| 0 <= i < 9 ==> cell_of_char(#[trigger] s[i]) is Some
}

/// Adds `delta` to the counters of the lines through the cell in row `row`
/// and column `col`.
fn bump(tallies: [i32; 8], row: usize, col: usize, delta: i32) -> (after: [i32; 8])
    requires
        row < 3,
        col < 3,
        -1 <= delta <= 1,
        forall|k: int| 0 <= k < 8 ==> -3 <= #[trigger] tallies@[k] <= 3,
    ensures
        forall|k: int|
            0 <= k < 8 ==> #[trigger] after@[k] == tallies@[k] + if k == row || k == 3 + col || (k == 6
                && row == col) || (k == 7 && row == 2 - col) {
                delta as int
            } else {
                0
            },
{
    let mut after = tallies;
    after[row] = after[row] + delta;
    after[3 + col] = after[3 + col] + delta;
    if row == col {
        after[6] = after[6] + delta;
    }
    if row == 2 - col {
        after[7] = after[7] + delta;
    }
    after
}

impl View for TTTBoard {
    type V = Seq<Cell>;

    /// The nine cells, row by row.
    closed spec fn view(&self) -> Seq<Cell> {
        self.0@
    }
}

impl TTTBoard {
    /// The counters agree with the cells.
    pub closed spec fn wf(&self) -> bool {
        forall|k: int| 0 <= k < 8 ==> #[trigger] self.1@[k] == line_sum(self.0@, k)
    }

    /// Both sides have three in a row: no game reaches such a position.
    pub open spec fn both_won(&self) -> bool {
        has_line(self@, PlayerMark::Naught) && has_line(self@, PlayerMark::Cross)
    }

    /// A board always has nine cells.
    pub proof fn view_has_nine_cells(&self)
        ensures
            self@.len() == 9,
    {
    }

    /// Two well-formed boards with the same cells are the same board.
    pub proof fn cells_determine_board(&self, other: &TTTBoard)
        requires
            self.wf(),
            other.wf(),
            self@ == other@,
        ensures
            *self == *other,
    {
        assert(self.0 =~= other.0);
        assert forall|k: int| 0 <= k < 8 implies self.1[k] == other.1[k] by {
            assert(self.1@[k] == line_sum(self.0@, k));
            assert(other.1@[k] == line_sum(other.0@, k));
        }
        assert(self.1 =~= other.1);
    }

    /// A board whose cells gained one mark and whose counters were bumped to
    /// match is well formed again.
    proof fn bumped_is_well_formed(&self, after: &TTTBoard, num: int, p: PlayerMark)
        requires
            self.wf(),
            0 <= num < 9,
            self.0@[num] is None,
            after.0@ == self.0@.update(num, Some(p)),
            bumped(self.1@, after.1@, num, weight(Some(p))),
        ensures
            after.wf(),
    {
        assert forall|k: int| 0 <= k < 8 implies #[trigger] after.1@[k] == line_sum(after.0@, k) by {
            assert(self.1@[k] == line_sum(self.0@, k));
            line_sum_after_mark(self.0@, num, p, k);
        }
    }

    /// The well-formed board that holds the given nine cells.
    pub closed spec fn board_of(cells: Seq<Cell>) -> TTTBoard {
        let c0: [Cell; 9] = vstd::array::spec_array_fill_for_copy_type(None);
        let c1 = vstd::array::spec_array_update(c0, 0, cells[0]);
        let c2 = vstd::array::spec_array_update(c1, 1, cells[1]);
        let c3 = vstd::array::spec_array_update(c2, 2, cells[2]);
        let c4 = vstd::array::spec_array_update(c3, 3, cells[3]);
        let c5 = vstd::array::spec_array_update(c4, 4, cells[4]);
        let c6 = vstd::array::spec_array_update(c5, 5, cells[5]);
        let c7 = vstd::array::spec_array_update(c6, 6, cells[6]);
        let c8 = vstd::array::spec_array_update(c7, 7, cells[7]);
        let c9 = vstd::array::spec_array_update(c8, 8, cells[8]);
        let t0: [i32; 8] = vstd::array::spec_array_fill_for_copy_type(0i32);
        let t1 = vstd::array::spec_array_update(t0, 0, line_sum(cells, 0) as i32);
        let t2 = vstd::array::spec_array_update(t1, 1, line_sum(cells, 1) as i32);
        let t3 = vstd::array::spec_array_update(t2, 2, line_sum(cells, 2) as i32);
        let t4 = vstd::array::spec_array_update(t3, 3, line_sum(cells, 3) as i32);
        let t5 = vstd::array::spec_array_update(t4, 4, line_sum(cells, 4) as i32);
        let t6 = vstd::array::spec_array_update(t5, 5, line_sum(cells, 5) as i32);
        let t7 = vstd::array::spec_array_update(t6, 6, line_sum(cells, 6) as i32);
        let t8 = vstd::array::spec_array_update(t7, 7, line_sum(cells, 7) as i32);
        TTTBoard(c9, t8)
    }

    /// `board_of` builds a well-formed board with exactly the cells given.
    pub proof fn board_of_holds_cells(cells: Seq<Cell>)
        requires
            cells.len() == 9,
        ensures
            Self::board_of(cells).wf(),
            Self::board_of(cells)@ == cells,
    {
        broadcast use vstd::array::axiom_spec_array_update;
        broadcast use vstd::array::axiom_spec_array_fill_for_copy_type;

        let b = Self::board_of(cells);
        assert(b.0@ =~= cells);
        assert(b.1@[0] == line_sum(cells, 0));
        assert(b.1@[1] == line_sum(cells, 1));
        assert(b.1@[2] == line_sum(cells, 2));
        assert(b.1@[3] == line_sum(cells, 3));
        assert(b.1@[4] == line_sum(cells, 4));
        assert(b.1@[5] == line_sum(cells, 5));
        assert(b.1@[6] == line_sum(cells, 6));
        assert(b.1@[7] == line_sum(cells, 7));
    }

    /// The board with a mark of `p` at cell `num` (counted from 0).
    pub open spec fn with_mark(&self, num: int, p: PlayerMark) -> TTTBoard {
        Self::board_of(self@.update(num, Some(p)))
    }

    /// The empty board.
    pub fn new() -> (b: Self)
        ensures
            b.wf(),
            b@ == Seq::new(9, |i: int| None::<PlayerMark>),
    {
        let b = TTTBoard([None; 9], [0; 8]);
        assert(b@ =~= Seq::new(9, |i: int| None::<PlayerMark>));
        b
    }

    /// Puts a mark of `p` on the empty cell with address `addr`.
    pub fn place(&mut self, addr: usize, p: PlayerMark)
        requires
            old(self).wf(),
            1 <= addr <= 9,
            old(self)@[addr - 1] is None,
        ensures
            final(self).wf(),
            final(self)@ == old(self)@.update(addr - 1, Some(p)),
            *final(self) == old(self).with_mark(addr - 1, p),
    {
        let num = addr - 1;
        let row = num / 3;
        let col = num % 3;
        let delta: i32 = match p {
            PlayerMark::Naught => 1,
            PlayerMark::Cross => -1,
        };
        proof {
            assert forall|k: int| 0 <= k < 8 implies -3 <= #[trigger] self.1@[k] <= 3 by {
                assert(self.1@[k] == line_sum(self.0@, k));
            }
        }
        let tallies = bump(self.1, row, col, delta);
        assert(bumped(old(self).1@, tallies@, num as int, delta as int));
        let mut cells = self.0;
        cells[num] = Some(p);
        self.0 = cells;
        self.1 = tallies;
        proof {
            old(self).bumped_is_well_formed(self, num as int, p);
            let target = old(self).with_mark(num as int, p);
            Self::board_of_holds_cells(old(self)@.update(num as int, Some(p)));
            self.cells_determine_board(&target);
        }
    }

    /// The nine cells, row by row.
    pub fn cells(&self) -> (c: [Cell; 9])
        ensures
            c@ == self@,
    {
        self.0
    }

    /// Is there a winner?
    pub fn winner(&self) -> (w: Option<PlayerMark>)
        requires
            self.wf(),
            !self.both_won(),
        ensures
            w == line_winner(self@),
    {
        let mut naught_won = false;
        let mut cross_won = false;
        let mut k: usize = 0;
        while k < 8
            invariant
                k <= 8,
                self.wf(),
                naught_won <==> exists|j: int| 0 <= j < k && #[trigger] line_full(self@, j, PlayerMark::Naught),
                cross_won <==> exists|j: int| 0 <= j < k && #[trigger] line_full(self@, j, PlayerMark::Cross),
            decreases 8 - k,
        {
            proof {
                assert(self.1@[k as int] == line_sum(self.0@, k as int));
                assert(self.1@[k as int] == 3 <==> line_full(self@, k as int, PlayerMark::Naught));
                assert(self.1@[k as int] == -3 <==> line_full(self@, k as int, PlayerMark::Cross));
            }
            if self.1[k] == 3 {
                naught_won = true;
            }
            if self.1[k] == -3 {
                cross_won = true;
            }
            k += 1;
        }
        if naught_won {
            Some(PlayerMark::Naught)
        } else if cross_won {
            Some(PlayerMark::Cross)
        } else {
            None
        }
    }

    /// Reads a board from nine letters, row by row: `x`, `o` or a blank.
    /// Any other string spells no board.
    pub fn from_str(s: &str) -> (r: Option<Self>)
        ensures
            r is Some <==> spells_board(s@),
            r matches Some(b) ==> b.wf() && forall|i: int|
                0 <= i < 9 ==> cell_of_char(#[trigger] s@[i]) == Some(b@[i]),
    {
        if s.unicode_len() != 9 {
            return None;
        }
        let mut b = TTTBoard::new();
        let mut num: usize = 0;
        while num < 9
            invariant
                num <= 9,
                s@.len() == 9,
                b.wf(),
                forall|i: int| 0 <= i < num ==> cell_of_char(#[trigger] s@[i]) == Some(b@[i]),
                forall|i: int| num <= i < 9 ==> (#[trigger] b@[i]) is None,
            decreases 9 - num,
        {
            let c = s.get_char(num);
            if c == 'x' {
                b.place(num + 1, PlayerMark::Cross);
            } else if c == 'o' {
                b.place(num + 1, PlayerMark::Naught);
            } else if c != ' ' {
                assert(cell_of_char(s@[num as int]) is None);
                return None;
            }
            num += 1;
        }
        Some(b)
    }

    /// The number of marks on the board.
    pub fn n_moves_made(&self) -> (n: usize)
        ensures
            n == occupied(self@),
            n <= 9,
    {
        let mut n: usize = 0;
        let mut i: usize = 0;
        while i < 9
            invariant
                i <= 9,
                n <= i,
                n == occupied(self@.take(i as int)),
            decreases 9 - i,
        {
            proof {
                count_take_step(self@, i as int, Some(PlayerMark::Cross));
                count_take_step(self@, i as int, Some(PlayerMark::Naught));
                match self@[i as int] {
                    None => {},
                    Some(PlayerMark::Cross) => {},
                    Some(PlayerMark::Naught) => {},
                }
            }
            if self.0[i].is_some() {
                n += 1;
            }
            i += 1;
        }
        assert(self@.take(9) =~= self@);
        n
    }
}

impl Default for TTTBoard {
    fn default() -> (b: Self)
        ensures
            b.wf(),
            b@ == Seq::new(9, |i: int| None::<PlayerMark>),
    {
        TTTBoard::new()
    }
}

impl Board for TTTBoard {
    type Coordinate = TTTAddr;

    open spec fn inv(&self) -> bool {
        self.wf() && !self.both_won()
    }

    open spec fn status(&self) -> GameStatus {
        status_of(self@)
    }

    open spec fn to_move(&self) -> PlayerMark {
        if occupied(self@) % 2 == 0 {
            PlayerMark::Naught
        } else {
            PlayerMark::Cross
        }
    }

    open spec fn moves(&self) -> Seq<TTTAddr> {
        empty_addrs(self@, 9)
    }

    open spec fn placed(&self, a: TTTAddr, marker: PlayerMark) -> Self {
        self.with_mark(a.0 - 1, marker)
    }

    open spec fn room(&self) -> nat {
        count_of(self@, None)
    }

    closed spec fn initial() -> Self {
        TTTBoard(
            vstd::array::spec_array_fill_for_copy_type(None),
            vstd::array::spec_array_fill_for_copy_type(0i32),
        )
    }

    proof fn open_game_has_moves(&self) {
        count_zero_iff_absent(self@, None);
        let i = choose|i: int| 0 <= i < 9 && self@[i] == None::<PlayerMark>;
        let a = TTTAddr((i + 1) as usize);
        empty_addrs_lists_empty_cells(self@, 9, a);
    }

    proof fn initial_is_consistent() {
        broadcast use vstd::array::axiom_spec_array_fill_for_copy_type;

        let b = Self::initial();
        assert forall|k: int| 0 <= k < 8 implies #[trigger] b.1@[k] == line_sum(b.0@, k) by {}
        assert forall|k: int, m: PlayerMark| 0 <= k < 8 implies !#[trigger] line_full(b@, k, m) by {}
        count_zero_iff_absent(b@, None);
        assert(b@[0] == None::<PlayerMark>);
    }

    proof fn placed_is_consistent(&self, a: TTTAddr, marker: PlayerMark) {
        empty_addrs_lists_empty_cells(self@, 9, a);
        Self::board_of_holds_cells(self@.update(a.0 - 1, Some(marker)));
        count_update(self@, a.0 - 1, Some(marker), None);
        let after = self.placed(a, marker);
        let rival = marker.opponent();
        if has_line(after@, rival) {
            let k = choose|k: int| 0 <= k < 8 && #[trigger] line_full(after@, k, rival);
            assert(line_full(self@, k, rival));
        }
    }

    fn new_game() -> (b: Self) {
        broadcast use vstd::array::axiom_spec_array_fill_for_copy_type;

        let b = TTTBoard([None; 9], [0; 8]);
        assert(b.0 =~= Self::initial().0);
        assert(b.1 =~= Self::initial().1);
        b
    }

    fn valid_moves(&self) -> (v: Vec<TTTAddr>) {
        let mut v: Vec<TTTAddr> = Vec::new();
        let mut num: usize = 0;
        while num < 9
            invariant
                num <= 9,
                v@ == empty_addrs(self@, num as nat),
            decreases 9 - num,
        {
            if self.0[num].is_none() {
                v.push(TTTAddr(num + 1));
            }
            num += 1;
        }
        v
    }

    fn place_mark(&mut self, a: TTTAddr, marker: PlayerMark) {
        proof {
            empty_addrs_lists_empty_cells(self@, 9, a);
        }
        self.place(a.0, marker)
    }

    fn game_status(&self) -> (s: GameStatus) {
        let mut board_full = true;
        let mut i: usize = 0;
        while i < 9
            invariant
                i <= 9,
                board_full <==> forall|j: int| 0 <= j < i ==> (#[trigger] self@[j]) is Some,
            decreases 9 - i,
        {
            if self.0[i].is_none() {
                board_full = false;
            }
            i += 1;
        }
        proof {
            count_zero_iff_absent(self@, None);
        }
        let winner = self.winner();
        if let Some(p) = winner {
            GameStatus::Won(p)
        } else if board_full {
            GameStatus::Draw
        } else {
            GameStatus::Undecided
        }
    }

    fn current_player(&self) -> (m: PlayerMark) {
        if self.n_moves_made() % 2 == 0 {
            PlayerMark::Naught
        } else {
            PlayerMark::Cross
        }
    }
}

impl Keyed for TTTBoard {
    open spec fn code_of(&self) -> u64 {
        code_of_cells(self@, 0)
    }

    fn same(&self, other: &Self) -> (r: bool) {
        let mut i: usize = 0;
        while i < 9
            invariant
                i <= 9,
                forall|j: int| 0 <= j < i ==> self.0@[j] == other.0@[j],
            decreases 9 - i,
        {
            if !same_cell(self.0[i], other.0[i]) {
                return false;
            }
            i += 1;
        }
        let mut k: usize = 0;
        while k < 8
            invariant
                k <= 8,
                forall|j: int| 0 <= j < 9 ==> self.0@[j] == other.0@[j],
                forall|j: int| 0 <= j < k ==> self.1@[j] == other.1@[j],
            decreases 8 - k,
        {
            if self.1[k] != other.1[k] {
                return false;
            }
            k += 1;
        }
        assert(self.0 =~= other.0);
        assert(self.1 =~= other.1);
        true
    }

    fn same_move(a: &TTTAddr, b: &TTTAddr) -> (r: bool) {
        a.0 == b.0
    }

    fn code(&self) -> (h: u64) {
        let mut h: u64 = 0;
        let mut i: usize = 0;
        while i < 9
            invariant
                i <= 9,
                h == code_of_cells(self@.take(i as int), 0),
            decreases 9 - i,
        {
            proof {
                code_take_step(self@, i as int, 0);
            }
            h = mix(h, self.0[i]);
            i += 1;
        }
        assert(self@.take(9) =~= self@);
        h
    }
}

} // verus!
