//! Connect four on the board of 7 columns and 6 rows.

use vstd::prelude::*;
use crate::base::{Board, GameStatus, Keyed, PlayerMark};
use crate::game::cells::{
    code_of_cells, code_of_rows, code_take_step, count_of, count_take_step, count_update,
    count_zero_iff_absent, holds, mix, same_cell, same_mark, Cell,
};

verus! {

/// A board is a 7x6 grid, where you can place a marker in one of the 7 columns
/// it lands on the top in that column we number the columns left to right and bottom to top
/// Since the board is a nested array the first index is the column and the second index is the row
///
/// [0][5]   [1][5]   [2][5]   [3][5]   [4][5]   [5][5]   [6][5]
/// [0][4]   [1][4]   [2][4]   [3][4]   [4][4]   [5][4]   [6][4]
/// [0][3]   [1][3]   [2][3]   [3][3]   [4][3]   [5][3]   [6][3]
/// [0][2]   [1][2]   [2][2]   [3][2]   [4][2]   [5][2]   [6][2]
/// [0][1]   [1][1]   [2][1]   [3][1]   [4][1]   [5][1]   [6][1]
/// [0][0]   [1][0]   [2][0]   [3][0]   [4][0]   [5][0]   [6][0]
///
pub type RawBoard = [[Cell; 6]; 7];

/// The grid as mathematics: seven columns of six cells, each column from the
/// bottom up.
pub type Grid = Seq<Seq<Cell>>;

/// The grid that a raw board holds.
pub open spec fn grid_of(board: RawBoard) -> Grid {
    Seq::new(7, |c: int| board@[c]@)
}

/// The cell in column `x` and row `y`, or nothing where the grid ends.
pub open spec fn at(g: Grid, x: int, y: int) -> Cell {
    if 0 <= x < 7 && 0 <= y < 6 {
        g[x][y]
    } else {
        None
    }
}

/// The mark that fills the four cells from `(x, y)` in direction `(dx, dy)`,
/// if one mark fills them all.
pub open spec fn four_at(g: Grid, x: int, y: int, dx: int, dy: int) -> Option<PlayerMark> {
    let first = at(g, x, y);
    if first is Some && at(g, x + dx, y + dy) == first && at(g, x + 2 * dx, y + 2 * dy) == first
        && at(g, x + 3 * dx, y + 3 * dy) == first {
        first
    } else {
        None
    }
}

/// Walking from `(x, y)` in direction `(dx, dy)`: the mark of the first of
/// the next `n` windows of four that one mark fills.
pub open spec fn first_four(g: Grid, x: int, y: int, dx: int, dy: int, n: nat) -> Option<PlayerMark>
    decreases n,
{
    if n == 0 {
        None
    } else {
        match four_at(g, x, y, dx, dy) {
            Some(m) => Some(m),
            None => first_four(g, x + dx, y + dy, dx, dy, (n - 1) as nat),
        }
    }
}

/// The number of windows of four on diagonal `diag`. Diagonals 3 to 8 are
/// the ones long enough to hold one.
pub open spec fn windows_on_diagonal(diag: int) -> nat {
    if diag == 3 || diag == 8 {
        1
    } else if diag == 4 || diag == 7 {
        2
    } else if diag == 5 || diag == 6 {
        3
    } else {
        0
    }
}

/// The column in which the diagonals numbered `diag` start.
pub open spec fn diagonal_start_column(diag: int) -> int {
    if diag <= 5 {
        0
    } else {
        diag - 5
    }
}

/// The winner in column `col`, looked for from the bottom.
pub open spec fn column_winner(g: Grid, col: int) -> Option<PlayerMark> {
    first_four(g, col, 0, 0, 1, 3)
}

/// The winner in row `row`, looked for from the left.
pub open spec fn row_winner(g: Grid, row: int) -> Option<PlayerMark> {
    first_four(g, 0, row, 1, 0, 4)
}

/// The winner on the diagonal that rises to the right and holds the cells
/// with `column - row + 5 == diag`, looked for from its lower left end.
pub open spec fn slash_winner(g: Grid, diag: int) -> Option<PlayerMark> {
    first_four(
        g,
        diagonal_start_column(diag),
        diagonal_start_column(diag) + 5 - diag,
        1,
        1,
        windows_on_diagonal(diag),
    )
}

/// The winner on the diagonal that falls to the right and holds the cells
/// with `column + row == diag`, looked for from its upper left end.
pub open spec fn backslash_winner(g: Grid, diag: int) -> Option<PlayerMark> {
    first_four(
        g,
        diagonal_start_column(diag),
        diag - diagonal_start_column(diag),
        1,
        -1,
        windows_on_diagonal(diag),
    )
}

/// The winners of the 25 lines of the board in the order in which they are
/// looked at: the columns, the rows, the rising diagonals, the falling
/// diagonals.
pub open spec fn line_winners(g: Grid) -> Seq<Option<PlayerMark>> {
    Seq::new(
        25,
        |k: int|
            if k < 7 {
                column_winner(g, k)
            } else if k < 13 {
                row_winner(g, k - 7)
            } else if k < 19 {
                slash_winner(g, k - 13 + 3)
            } else {
                backslash_winner(g, k - 19 + 3)
            },
    )
}

/// The first mark among the first `n` entries.
pub open spec fn first_some(s: Seq<Option<PlayerMark>>, n: nat) -> Option<PlayerMark>
    decreases n,
{
    if n == 0 {
        None
    } else {
        match first_some(s, (n - 1) as nat) {
            Some(m) => Some(m),
            None => s[n - 1],
        }
    }
}

/// The winner that the grid shows: the winner of the first line that has one.
pub open spec fn grid_winner(g: Grid) -> Option<PlayerMark> {
    first_some(line_winners(g), 25)
}

/// A window of four that lies on the board: it runs up, to the right, or
/// along a diagonal, and all its cells are cells of the grid.
pub open spec fn is_window(x: int, y: int, dx: int, dy: int) -> bool {
    &&& 0 <= x < 7 && 0 <= y < 6
    &&& 0 <= x + 3 * dx < 7 && 0 <= y + 3 * dy < 6
    &&& (dx == 0 && dy == 1) || (dx == 1 && dy == 0) || (dx == 1 && dy == 1) || (dx == 1 && dy
        == -1)
}

/// `m` has four in a line somewhere on the grid.
pub open spec fn has_four(g: Grid, m: PlayerMark) -> bool {
    exists|x: int, y: int, dx: int, dy: int|
        is_window(x, y, dx, dy) && #[trigger] four_at(g, x, y, dx, dy) == Some(m)
}

/// The grid has seven columns of six cells.
pub open spec fn is_grid(g: Grid) -> bool {
    g.len() == 7 && forall|c: int| 0 <= c < 7 ==> (#[trigger] g[c]).len() == 6
}

/// No cell of the grid is empty.
pub open spec fn is_full(g: Grid) -> bool {
    forall|c: int, r: int| 0 <= c < 7 && 0 <= r < 6 ==> (#[trigger] g[c][r]) is Some
}

/// Every mark rests on the floor or on another mark.
pub open spec fn is_stacked(g: Grid) -> bool {
    forall|c: int, r: int|
        0 <= c < 7 && 0 < r < 6 && (#[trigger] g[c][r]) is Some ==> g[c][r - 1] is Some
}

/// The status that the marks on the grid amount to.
pub open spec fn status_of(g: Grid) -> GameStatus {
    match grid_winner(g) {
        Some(m) => GameStatus::Won(m),
        None => if is_full(g) {
            GameStatus::Draw
        } else {
            GameStatus::Undecided
        },
    }
}

/// What a walk along a line finds is the mark of a window on that walk, and
/// it finds nothing only where no window of the walk is filled.
pub proof fn first_four_finds_a_window(g: Grid, x: int, y: int, dx: int, dy: int, n: nat)
    ensures
        first_four(g, x, y, dx, dy, n) matches Some(m) ==> exists|j: int|
            0 <= j < n && #[trigger] four_at(g, x + j * dx, y + j * dy, dx, dy) == Some(m),
        first_four(g, x, y, dx, dy, n) is None ==> forall|j: int|
            0 <= j < n ==> (#[trigger] four_at(g, x + j * dx, y + j * dy, dx, dy)) is None,
    decreases n,
{
    if n > 0 {
        assert(x + 0 * dx == x && y + 0 * dy == y);
        match four_at(g, x, y, dx, dy) {
            Some(m) => {
                assert(four_at(g, x + 0 * dx, y + 0 * dy, dx, dy) == Some(m));
            },
            None => {
                first_four_finds_a_window(g, x + dx, y + dy, dx, dy, (n - 1) as nat);
                let rest = first_four(g, x + dx, y + dy, dx, dy, (n - 1) as nat);
                if let Some(m) = rest {
                    let j = choose|j: int|
                        0 <= j < n - 1 && #[trigger] four_at(
                            g,
                            x + dx + j * dx,
                            y + dy + j * dy,
                            dx,
                            dy,
                        ) == Some(m);
                    assert(x + dx + j * dx == x + (j + 1) * dx) by (nonlinear_arith);
                    assert(y + dy + j * dy == y + (j + 1) * dy) by (nonlinear_arith);
                    assert(four_at(g, x + (j + 1) * dx, y + (j + 1) * dy, dx, dy) == Some(m));
                } else {
                    assert forall|j: int| 0 <= j < n implies (#[trigger] four_at(
                        g,
                        x + j * dx,
                        y + j * dy,
                        dx,
                        dy,
                    )) is None by {
                        if j > 0 {
                            assert(x + dx + (j - 1) * dx == x + j * dx) by (nonlinear_arith);
                            assert(y + dy + (j - 1) * dy == y + j * dy) by (nonlinear_arith);
                            assert(four_at(
                                g,
                                x + dx + (j - 1) * dx,
                                y + dy + (j - 1) * dy,
                                dx,
                                dy,
                            ) is None);
                        }
                    }
                }
            },
        }
    }
}

/// A winner among the first `n` lines is the winner of one of them, and
/// there is none only where none of them has one.
pub proof fn first_some_finds_an_entry(s: Seq<Option<PlayerMark>>, n: nat)
    ensures
        first_some(s, n) matches Some(m) ==> exists|k: int| 0 <= k < n && #[trigger] s[k] == Some(m),
        first_some(s, n) is None ==> forall|k: int| 0 <= k < n ==> (#[trigger] s[k]) is None,
    decreases n,
{
    if n > 0 {
        first_some_finds_an_entry(s, (n - 1) as nat);
    }
}

/// Once a line has a winner, looking at more lines does not change the
/// answer.
pub proof fn first_some_stays(s: Seq<Option<PlayerMark>>, k: nat, n: nat)
    requires
        k <= n,
        first_some(s, k) is Some,
    ensures
        first_some(s, n) == first_some(s, k),
    decreases n,
{
    if k < n {
        first_some_stays(s, k, (n - 1) as nat);
    }
}

/// The winner that the grid shows has four in a line.
pub proof fn grid_winner_has_four(g: Grid)
    requires
        is_grid(g),
    ensures
        grid_winner(g) matches Some(m) ==> has_four(g, m),
{
    if let Some(m) = grid_winner(g) {
        let lines = line_winners(g);
        first_some_finds_an_entry(lines, 25);
        let k = choose|k: int| 0 <= k < 25 && #[trigger] lines[k] == Some(m);
        if k < 7 {
            first_four_finds_a_window(g, k, 0, 0, 1, 3);
            let j = choose|j: int| 0 <= j < 3 && #[trigger] four_at(g, k + j * 0, 0 + j * 1, 0, 1) == Some(m);
            assert(is_window(k + j * 0, 0 + j * 1, 0, 1));
        } else if k < 13 {
            let row = k - 7;
            first_four_finds_a_window(g, 0, row, 1, 0, 4);
            let j = choose|j: int| 0 <= j < 4 && #[trigger] four_at(g, 0 + j * 1, row + j * 0, 1, 0) == Some(m);
            assert(is_window(0 + j * 1, row + j * 0, 1, 0));
        } else if k < 19 {
            let d = k - 13 + 3;
            let x = diagonal_start_column(d);
            let y = x + 5 - d;
            let n = windows_on_diagonal(d);
            first_four_finds_a_window(g, x, y, 1, 1, n);
            let j = choose|j: int| 0 <= j < n && #[trigger] four_at(g, x + j * 1, y + j * 1, 1, 1) == Some(m);
            assert(is_window(x + j * 1, y + j * 1, 1, 1));
        } else {
            let d = k - 19 + 3;
            let x = diagonal_start_column(d);
            let y = d - x;
            let n = windows_on_diagonal(d);
            first_four_finds_a_window(g, x, y, 1, -1, n);
            let j = choose|j: int| 0 <= j < n && #[trigger] four_at(g, x + j * 1, y + j * (-1), 1, -1) == Some(m);
            assert(is_window(x + j * 1, y + j * (-1), 1, -1));
        }
    }
}

/// Every window of the board lies on one of the 25 lines: a filled window
/// gives its line a winner.
pub proof fn filled_window_gives_line_a_winner(g: Grid, x: int, y: int, dx: int, dy: int)
    requires
        is_grid(g),
        is_window(x, y, dx, dy),
        four_at(g, x, y, dx, dy) is Some,
    ensures
        dx == 0 ==> column_winner(g, x) is Some,
        dx == 1 && dy == 0 ==> row_winner(g, y) is Some,
        dx == 1 && dy == 1 ==> 3 <= x - y + 5 <= 8 && slash_winner(g, x - y + 5) is Some,
        dx == 1 && dy == -1 ==> 3 <= x + y <= 8 && backslash_winner(g, x + y) is Some,
{
    if dx == 0 {
        first_four_finds_a_window(g, x, 0, 0, 1, 3);
        assert(four_at(g, x + y * 0, 0 + y * 1, 0, 1) is Some);
    } else if dy == 0 {
        first_four_finds_a_window(g, 0, y, 1, 0, 4);
        assert(four_at(g, 0 + x * 1, y + x * 0, 1, 0) is Some);
    } else if dy == 1 {
        let d = x - y + 5;
        let x0 = diagonal_start_column(d);
        let y0 = x0 + 5 - d;
        let j = x - x0;
        first_four_finds_a_window(g, x0, y0, 1, 1, windows_on_diagonal(d));
        assert(four_at(g, x0 + j * 1, y0 + j * 1, 1, 1) is Some);
    } else {
        let d = x + y;
        let x0 = diagonal_start_column(d);
        let y0 = d - x0;
        let j = x - x0;
        first_four_finds_a_window(g, x0, y0, 1, -1, windows_on_diagonal(d));
        assert(four_at(g, x0 + j * 1, y0 + j * (-1), 1, -1) is Some);
    }
}

/// The grid shows no winner exactly when no window of the board is filled.
pub proof fn no_grid_winner_means_no_four(g: Grid)
    requires
        is_grid(g),
    ensures
        grid_winner(g) is None <==> !has_four(g, PlayerMark::Cross) && !has_four(
            g,
            PlayerMark::Naught,
        ),
{
    grid_winner_has_four(g);
    let lines = line_winners(g);
    first_some_finds_an_entry(lines, 25);
    if grid_winner(g) is None {
        assert forall|x: int, y: int, dx: int, dy: int| is_window(x, y, dx, dy) implies (
        #[trigger] four_at(g, x, y, dx, dy)) is None by {
            if four_at(g, x, y, dx, dy) is Some {
                filled_window_gives_line_a_winner(g, x, y, dx, dy);
                if dx == 0 {
                    assert(lines[x] is Some);
                } else if dy == 0 {
                    assert(lines[y + 7] is Some);
                } else if dy == 1 {
                    assert(lines[x - y + 5 - 3 + 13] is Some);
                } else {
                    assert(lines[x + y - 3 + 19] is Some);
                }
            }
        }
    } else {
        match grid_winner(g) {
            Some(PlayerMark::Cross) => {},
            Some(PlayerMark::Naught) => {},
            None => {},
        }
    }
}

/// The row in which a mark dropped into the column comes to rest: the lowest
/// empty cell at or above `from`, or 6 where there is none.
pub open spec fn landing_row(col: Seq<Cell>, from: int) -> int
    decreases 6 - from,
{
    if from >= 6 || col[from] is None {
        from
    } else {
        landing_row(col, from + 1)
    }
}

/// The grid after a mark of `m` was dropped into column `col`.
pub open spec fn dropped(g: Grid, col: int, m: PlayerMark) -> Grid {
    g.update(col, g[col].update(landing_row(g[col], 0), Some(m)))
}

/// The columns among the first `n` whose top cell is empty, in rising order.
pub open spec fn open_columns(g: Grid, n: nat) -> Seq<usize>
    decreases n,
{
    if n == 0 {
        Seq::empty()
    } else {
        let before = open_columns(g, (n - 1) as nat);
        if g[n - 1][5] is None {
            before.push((n - 1) as usize)
        } else {
            before
        }
    }
}

/// How many cells of the first `n` columns hold exactly `what`.
pub open spec fn count_in_grid(g: Grid, what: Cell, n: nat) -> nat
    decreases n,
{
    if n == 0 {
        0
    } else {
        count_in_grid(g, what, (n - 1) as nat) + count_of(g[n - 1], what)
    }
}

/// The number of empty cells of the grid.
pub open spec fn empty_cells(g: Grid) -> nat {
    count_in_grid(g, None, 7)
}

/// A column is listed exactly when it is one of the first `n` and its top
/// cell is empty.
pub proof fn open_columns_lists_open_columns(g: Grid, n: nat, c: usize)
    requires
        n <= 7,
    ensures
        open_columns(g, n).contains(c) <==> c < n && g[c as int][5] is None,
    decreases n,
{
    if n > 0 {
        let before = open_columns(g, (n - 1) as nat);
        open_columns_lists_open_columns(g, (n - 1) as nat, c);
        if g[n - 1][5] is None {
            let here = (n - 1) as usize;
            assert(open_columns(g, n) == before.push(here));
            if c == here {
                assert(before.push(here)[before.len() as int] == here);
            }
            if before.contains(c) {
                let i = choose|i: int| 0 <= i < before.len() && before[i] == c;
                assert(before.push(here)[i] == c);
            }
        }
    }
}

/// A mark lands on a cell of the column that was empty, below which no cell
/// is empty.
pub proof fn landing_row_is_lowest_empty(col: Seq<Cell>, from: int)
    requires
        col.len() == 6,
        0 <= from <= 6,
    ensures
        from <= landing_row(col, from) <= 6,
        landing_row(col, from) < 6 ==> col[landing_row(col, from)] is None,
        forall|r: int| from <= r < landing_row(col, from) ==> (#[trigger] col[r]) is Some,
    decreases 6 - from,
{
    if from < 6 && col[from] is Some {
        landing_row_is_lowest_empty(col, from + 1);
    }
}

/// A change within one column changes the counts of that column only.
pub proof fn count_in_grid_after_change(g: Grid, h: Grid, col: int, what: Cell, n: nat)
    requires
        is_grid(g),
        is_grid(h),
        0 <= col < 7,
        n <= 7,
        forall|c: int| 0 <= c < 7 && c != col ==> h[c] == g[c],
    ensures
        count_in_grid(h, what, n) == count_in_grid(g, what, n) + if col < n {
            count_of(h[col], what) - count_of(g[col], what)
        } else {
            0
        },
    decreases n,
{
    if n > 0 {
        count_in_grid_after_change(g, h, col, what, (n - 1) as nat);
    }
}

/// A grid without an empty cell is full, and the other way round.
pub proof fn no_empty_cells_means_full(g: Grid, n: nat)
    requires
        is_grid(g),
        n <= 7,
    ensures
        count_in_grid(g, None, n) == 0 <==> forall|c: int, r: int|
            0 <= c < n && 0 <= r < 6 ==> (#[trigger] g[c][r]) is Some,
    decreases n,
{
    if n > 0 {
        no_empty_cells_means_full(g, (n - 1) as nat);
        count_zero_iff_absent(g[n - 1], None);
        if count_in_grid(g, None, n) == 0 {
            assert forall|c: int, r: int| 0 <= c < n && 0 <= r < 6 implies (#[trigger] g[c][r]) is Some by {
                if c == n - 1 {
                    assert(g[n - 1][r] != None::<PlayerMark>);
                }
            }
        } else if count_of(g[n - 1], None) != 0 {
            let last = g[n - 1];
            let r = choose|r: int| 0 <= r < 6 && #[trigger] last[r] == None::<PlayerMark>;
            assert(!(g[n - 1][r] is Some));
        } else {
            let (c, r) = choose|c: int, r: int| 0 <= c < n - 1 && 0 <= r < 6 && !((#[trigger] g[c][r]) is Some);
            assert(!(g[c][r] is Some));
        }
    }
}

/// What one sees of a board: the grid, the status and the side to move.
pub struct C4View {
    pub cells: Grid,
    pub status: GameStatus,
    pub to_move: PlayerMark,
}

/// The status after a mark of `m` was dropped into column `col`, as the game
/// keeps it: only the four lines through the new mark are looked at.
pub open spec fn status_after(v: C4View, col: int, m: PlayerMark) -> GameStatus {
    let g = dropped(v.cells, col, m);
    let row = landing_row(v.cells[col], 0);
    if column_winner(g, col) == Some(m) || row_winner(g, row) == Some(m) || slash_winner(
        g,
        5 + col - row,
    ) == Some(m) || backslash_winner(g, col + row) == Some(m) {
        GameStatus::Won(m)
    } else if row == 5 && is_full(g) {
        GameStatus::Draw
    } else {
        v.status
    }
}

/// What one sees after a mark of `m` was dropped into column `col`.
pub open spec fn view_after(v: C4View, col: int, m: PlayerMark) -> C4View {
    C4View { cells: dropped(v.cells, col, m), status: status_after(v, col, m), to_move: v.to_move.opponent() }
}

/// The window of four from `(x, y)` in direction `(dx, dy)` holds the cell
/// in column `col` and row `row`.
pub open spec fn covers(x: int, y: int, dx: int, dy: int, col: int, row: int) -> bool {
    ||| (x == col && y == row)
    ||| (x + dx == col && y + dy == row)
    ||| (x + 2 * dx == col && y + 2 * dy == row)
    ||| (x + 3 * dx == col && y + 3 * dy == row)
}

/// After a drop into a grid without a filled window, every filled window
/// holds the new mark: it is filled with `m` and lies on one of the four
/// lines through the cell where the mark landed.
pub proof fn filled_windows_hold_new_mark(g: Grid, col: int, m: PlayerMark)
    requires
        is_grid(g),
        grid_winner(g) is None,
        0 <= col < 7,
        landing_row(g[col], 0) < 6,
    ensures
        forall|x: int, y: int, dx: int, dy: int|
            is_window(x, y, dx, dy) && (#[trigger] four_at(dropped(g, col, m), x, y, dx, dy)) is Some
                ==> four_at(dropped(g, col, m), x, y, dx, dy) == Some(m) && covers(
                x,
                y,
                dx,
                dy,
                col,
                landing_row(g[col], 0),
            ),
        has_four(dropped(g, col, m), m.opponent()) == false,
{
    let h = dropped(g, col, m);
    let row = landing_row(g[col], 0);
    landing_row_is_lowest_empty(g[col], 0);
    no_grid_winner_means_no_four(g);
    assert forall|x: int, y: int, dx: int, dy: int|
        is_window(x, y, dx, dy) && (#[trigger] four_at(h, x, y, dx, dy)) is Some implies four_at(
        h,
        x,
        y,
        dx,
        dy,
    ) == Some(m) && covers(x, y, dx, dy, col, row) by {
        if !covers(x, y, dx, dy, col, row) {
            assert(four_at(g, x, y, dx, dy) == four_at(h, x, y, dx, dy));
            match four_at(g, x, y, dx, dy) {
                Some(PlayerMark::Cross) => {},
                Some(PlayerMark::Naught) => {},
                None => {},
            }
        }
    }
    let rival = m.opponent();
    if has_four(h, rival) {
        let (x, y, dx, dy) = choose|x: int, y: int, dx: int, dy: int|
            is_window(x, y, dx, dy) && #[trigger] four_at(h, x, y, dx, dy) == Some(rival);
    }
}

/// Looking only at the lines through the new mark is enough: in an open game
/// whose status agrees with its marks, the status kept after a drop is the
/// status that the marks amount to. A drop therefore wins exactly when it
/// completes four in a line, and never for the other side.
pub proof fn status_after_agrees_with_marks(v: C4View, col: int, m: PlayerMark)
    requires
        is_grid(v.cells),
        is_stacked(v.cells),
        v.status == status_of(v.cells),
        v.status is Undecided,
        0 <= col < 7,
        landing_row(v.cells[col], 0) < 6,
    ensures
        status_after(v, col, m) == status_of(dropped(v.cells, col, m)),
        status_after(v, col, m) == GameStatus::Won(m) <==> has_four(dropped(v.cells, col, m), m),
        status_after(v, col, m) != GameStatus::Won(m.opponent()),
{
    let g = v.cells;
    let h = dropped(g, col, m);
    let row = landing_row(g[col], 0);
    landing_row_is_lowest_empty(g[col], 0);
    assert(is_grid(h));
    filled_windows_hold_new_mark(g, col, m);
    no_grid_winner_means_no_four(h);
    grid_winner_has_four(h);
    let d1 = 5 + col - row;
    let d2 = col + row;
    line_winner_is_filled_window(h, col, 0, 0, 1, 3);
    line_winner_is_filled_window(h, 0, row, 1, 0, 4);
    line_winner_is_filled_window(
        h,
        diagonal_start_column(d1),
        diagonal_start_column(d1) + 5 - d1,
        1,
        1,
        windows_on_diagonal(d1),
    );
    line_winner_is_filled_window(
        h,
        diagonal_start_column(d2),
        d2 - diagonal_start_column(d2),
        1,
        -1,
        windows_on_diagonal(d2),
    );
    if has_four(h, m) {
        let (x, y, dx, dy) = choose|x: int, y: int, dx: int, dy: int|
            is_window(x, y, dx, dy) && #[trigger] four_at(h, x, y, dx, dy) == Some(m);
        filled_window_gives_line_a_winner(h, x, y, dx, dy);
        assert(covers(x, y, dx, dy, col, row));
        assert(status_after(v, col, m) == GameStatus::Won(m));
        match grid_winner(h) {
            Some(PlayerMark::Cross) => {},
            Some(PlayerMark::Naught) => {},
            None => {},
        }
    } else {
        if is_full(h) && row < 5 {
            assert(h[col][row + 1] is Some);
            assert(g[col][row + 1] is Some);
        }
        if !is_full(h) {
            let (c, r) = choose|c: int, r: int| 0 <= c < 7 && 0 <= r < 6 && !((#[trigger] h[c][r]) is Some);
            assert(g[c][r] is None);
        }
    }
}

/// The winner of a line is the mark of a window that lies on the board.
pub proof fn line_winner_is_filled_window(g: Grid, x: int, y: int, dx: int, dy: int, n: nat)
    requires
        is_grid(g),
        (dx == 0 && dy == 1) || (dx == 1 && dy == 0) || (dx == 1 && dy == 1) || (dx == 1 && dy == -1),
    ensures
        first_four(g, x, y, dx, dy, n) matches Some(p) ==> has_four(g, p),
    decreases n,
{
    if n > 0 {
        match four_at(g, x, y, dx, dy) {
            Some(p) => {
                assert(is_window(x, y, dx, dy));
            },
            None => {
                line_winner_is_filled_window(g, x + dx, y + dy, dx, dy, (n - 1) as nat);
            },
        }
    }
}

/// A position of connect four.
#[derive(Clone, Copy, PartialEq, Eq, Debug, Hash, PartialOrd, Ord)]
pub struct C4Board {
    /// 7 columns, 6 rows. N.B. it is column major
    board: RawBoard,
    /// The game status must always be valid. I.e. you must always keep it up to date in all &mut self methods
    status: GameStatus,
    /// Current player must always be valid. I.e. you must always keep it up to date in all &mut self methods
    current_player: PlayerMark,
}

impl View for C4Board {
    type V = C4View;

    closed spec fn view(&self) -> C4View {
        C4View { cells: grid_of(self.board), status: self.status, to_move: self.current_player }
    }
}

/// The direction of a walk over the rows: up, down or level.
pub open spec fn slope(rising: bool, falling: bool) -> int {
    if rising {
        1
    } else if falling {
        -1
    } else {
        0
    }
}

/// The row `i` steps along a walk that started in row `y`.
fn row_along(y: usize, i: usize, rising: bool, falling: bool) -> (r: usize)
    requires
        i <= 3,
        y < 6,
        rising ==> y + i < 6,
        falling && !rising ==> y >= i,
    ensures
        r == y + i * slope(rising, falling),
        r < 6,
{
    if rising {
        y + i
    } else if falling {
        y - i
    } else {
        y
    }
}

/// The mark that fills the window of four from `(x, y)`, if one mark does.
fn four_from(board: &RawBoard, x: usize, y: usize, dx: usize, rising: bool, falling: bool) -> (r:
    Option<PlayerMark>)
    requires
        dx <= 1,
        x + 3 * dx < 7,
        y < 6,
        rising ==> y + 3 < 6,
        falling && !rising ==> y >= 3,
    ensures
        r == four_at(grid_of(*board), x as int, y as int, dx as int, slope(rising, falling)),
{
    match board[x][y] {
        None => None,
        Some(m) => {
            let y1 = row_along(y, 1, rising, falling);
            let y2 = row_along(y, 2, rising, falling);
            let y3 = row_along(y, 3, rising, falling);
            if holds(board[x + dx][y1], m) && holds(board[x + 2 * dx][y2], m) && holds(
                board[x + 3 * dx][y3],
                m,
            ) {
                Some(m)
            } else {
                None
            }
        },
    }
}

impl C4Board {
    /// The empty board, with naughts to move.
    pub fn new() -> (b: Self)
        ensures
            b@.cells == Seq::new(7, |c: int| Seq::new(6, |r: int| None::<PlayerMark>)),
            b@.status == GameStatus::Undecided,
            b@.to_move == PlayerMark::Naught,
    {
        let b = C4Board {
            board: [[None; 6]; 7],
            status: GameStatus::Undecided,
            current_player: PlayerMark::Naught,
        };
        assert(b@.cells =~~= Seq::new(7, |c: int| Seq::new(6, |r: int| None::<PlayerMark>)));
        b
    }

    /// A board always shows seven columns of six cells.
    pub proof fn view_is_grid(&self)
        ensures
            is_grid(self@.cells),
    {
    }

    /// The cells of the board, column by column.
    pub fn raw_board(&self) -> (raw: RawBoard)
        ensures
            grid_of(raw) == self@.cells,
    {
        self.board
    }

    /// The winner, if the game has one.
    pub fn winner(&self) -> (w: Option<PlayerMark>)
        ensures
            w == match self@.status {
                GameStatus::Won(m) => Some(m),
                _ => None,
            },
    {
        match self.status {
            GameStatus::Won(m) => Some(m),
            _ => None,
        }
    }

    /// How many cells of the raw board hold exactly `what`.
    fn raw_count(board: &RawBoard, what: Cell) -> (n: usize)
        ensures
            n == count_in_grid(grid_of(*board), what, 7),
            n <= 42,
    {
        let ghost g = grid_of(*board);
        let mut n: usize = 0;
        let mut c: usize = 0;
        while c < 7
            invariant
                c <= 7,
                g == grid_of(*board),
                n == count_in_grid(g, what, c as nat),
                n <= 6 * c,
            decreases 7 - c,
        {
            let mut r: usize = 0;
            let ghost before = n;
            while r < 6
                invariant
                    r <= 6,
                    c < 7,
                    g == grid_of(*board),
                    n == before + count_of(g[c as int].take(r as int), what),
                    n <= before + r,
                    before <= 6 * c,
                decreases 6 - r,
            {
                proof {
                    count_take_step(g[c as int], r as int, what);
                }
                let cell = board[c][r];
                let same = match (cell, what) {
                    (None, None) => true,
                    (Some(PlayerMark::Cross), Some(PlayerMark::Cross)) => true,
                    (Some(PlayerMark::Naught), Some(PlayerMark::Naught)) => true,
                    _ => false,
                };
                if same {
                    n += 1;
                }
                r += 1;
            }
            assert(g[c as int].take(6) =~= g[c as int]);
            c += 1;
        }
        n
    }

    /// Compute who is next to go, based on the current board: naughts when
    /// both sides have placed the same number of marks, crosses when naughts
    /// are one ahead. No other balance occurs in a game.
    pub fn raw_current_player(game_board: RawBoard) -> (m: PlayerMark)
        requires
            ({
                let crosses = count_in_grid(grid_of(game_board), Some(PlayerMark::Cross), 7);
                let naughts = count_in_grid(grid_of(game_board), Some(PlayerMark::Naught), 7);
                crosses == naughts || naughts == crosses + 1
            }),
        ensures
            m == if count_in_grid(grid_of(game_board), Some(PlayerMark::Cross), 7) == count_in_grid(
                grid_of(game_board),
                Some(PlayerMark::Naught),
                7,
            ) {
                PlayerMark::Naught
            } else {
                PlayerMark::Cross
            },
    {
        let n_crosses = Self::raw_count(&game_board, Some(PlayerMark::Cross));
        let n_naughts = Self::raw_count(&game_board, Some(PlayerMark::Naught));
        if n_crosses == n_naughts {
            PlayerMark::Naught
        } else {
            PlayerMark::Cross
        }
    }

    /// The status that the marks on the raw board amount to.
    pub fn raw_game_status(board: RawBoard) -> (s: GameStatus)
        ensures
            s == status_of(grid_of(board)),
    {
        match Self::raw_winner(&board) {
            Some(m) => GameStatus::Won(m),
            None => {
                let empty = Self::raw_count(&board, None);
                proof {
                    no_empty_cells_means_full(grid_of(board), 7);
                }
                if empty == 0 {
                    GameStatus::Draw
                } else {
                    GameStatus::Undecided
                }
            },
        }
    }

    /// Compute if there is a winner from the board data alone
    /// Useful in debugging
    pub fn raw_winner(board: &RawBoard) -> (w: Option<PlayerMark>)
        ensures
            w == grid_winner(grid_of(*board)),
    {
        let ghost g = grid_of(*board);
        let ghost lines = line_winners(g);
        let mut i: usize = 0;
        while i < 7
            invariant
                i <= 7,
                g == grid_of(*board),
                lines == line_winners(g),
                first_some(lines, i as nat) is None,
            decreases 7 - i,
        {
            let w = Self::raw_winner_in_column(board, i);
            if w.is_some() {
                proof {
                    assert(lines[i as int] == w);
                    first_some_stays(lines, (i + 1) as nat, 25);
                }
                return w;
            }
            i += 1;
        }
        i = 0;
        while i < 6
            invariant
                i <= 6,
                g == grid_of(*board),
                lines == line_winners(g),
                first_some(lines, (7 + i) as nat) is None,
            decreases 6 - i,
        {
            let w = Self::raw_winner_in_row(board, i);
            if w.is_some() {
                proof {
                    assert(lines[7 + i as int] == w);
                    first_some_stays(lines, (7 + i + 1) as nat, 25);
                }
                return w;
            }
            i += 1;
        }
        i = 3;
        while i <= 8
            invariant
                3 <= i <= 9,
                g == grid_of(*board),
                lines == line_winners(g),
                first_some(lines, (13 + i - 3) as nat) is None,
            decreases 9 - i,
        {
            let w = Self::raw_winner_in_slash_diagonal(board, i);
            if w.is_some() {
                proof {
                    assert(lines[13 + i as int - 3] == w);
                    first_some_stays(lines, (13 + i - 3 + 1) as nat, 25);
                }
                return w;
            }
            i += 1;
        }
        i = 3;
        while i <= 8
            invariant
                3 <= i <= 9,
                g == grid_of(*board),
                lines == line_winners(g),
                first_some(lines, (19 + i - 3) as nat) is None,
            decreases 9 - i,
        {
            let w = Self::raw_winner_in_backslash_diagonal(board, i);
            if w.is_some() {
                proof {
                    assert(lines[19 + i as int - 3] == w);
                    first_some_stays(lines, (19 + i - 3 + 1) as nat, 25);
                }
                return w;
            }
            i += 1;
        }
        None
    }

    /// The first four in a line in the column, looked for from the bottom.
    pub fn raw_winner_in_column(board: &RawBoard, col: usize) -> (w: Option<PlayerMark>)
        requires
            col < 7,
        ensures
            w == column_winner(grid_of(*board), col as int),
    {
        let ghost g = grid_of(*board);
        let mut i: usize = 0;
        while i < 3
            invariant
                i <= 3,
                col < 7,
                g == grid_of(*board),
                column_winner(g, col as int) == first_four(g, col as int, i as int, 0, 1, (3 - i) as nat),
            decreases 3 - i,
        {
            let w = four_from(board, col, i, 0, true, false);
            if w.is_some() {
                return w;
            }
            i += 1;
        }
        None
    }

    /// The first four in a line in the row, looked for from the left.
    pub fn raw_winner_in_row(board: &RawBoard, row: usize) -> (w: Option<PlayerMark>)
        requires
            row < 6,
        ensures
            w == row_winner(grid_of(*board), row as int),
    {
        let ghost g = grid_of(*board);
        let mut i: usize = 0;
        while i < 4
            invariant
                i <= 4,
                row < 6,
                g == grid_of(*board),
                row_winner(g, row as int) == first_four(g, i as int, row as int, 1, 0, (4 - i) as nat),
            decreases 4 - i,
        {
            let w = four_from(board, i, row, 1, false, false);
            if w.is_some() {
                return w;
            }
            i += 1;
        }
        None
    }

    /// Check if there is a winner in the diagonal that goes from bottom left to top right
    /// diagonal 0 has 1 element, and that is only [0][5]
    /// diagonal 1 has 2 elements, and that is [0][4] and [1][5]
    /// etc
    pub fn raw_winner_in_slash_diagonal(board: &RawBoard, diag: usize) -> (w: Option<PlayerMark>)
        ensures
            w == slash_winner(grid_of(*board), diag as int),
    {
        // if this diagonal has 3 or less elements, it can't have a winner
        if !(3 <= diag && diag <= 8) {
            return None;
        }
        let n_chances: usize = match diag {
            3 | 8 => 1,
            4 | 7 => 2,
            _ => 3,
        };
        let (x0, y0): (usize, usize) = if diag <= 5 {
            (0, 5 - diag)
        } else {
            (diag - 5, 0)
        };
        let ghost g = grid_of(*board);
        let mut i: usize = 0;
        while i < n_chances
            invariant
                i <= n_chances,
                3 <= diag <= 8,
                n_chances == windows_on_diagonal(diag as int),
                x0 == diagonal_start_column(diag as int),
                y0 == x0 + 5 - diag,
                g == grid_of(*board),
                slash_winner(g, diag as int) == first_four(
                    g,
                    x0 + i,
                    y0 + i,
                    1,
                    1,
                    (n_chances - i) as nat,
                ),
            decreases n_chances - i,
        {
            let w = four_from(board, x0 + i, y0 + i, 1, true, false);
            if w.is_some() {
                return w;
            }
            i += 1;
        }
        None
    }

    /// Diagonal goes from top left to bottom right
    /// Diagonal 0 has 1 element, and that is only [0][0]
    /// Diagonal 1 has 2 elements, and that is [0][1] and [1][0]
    /// etc
    pub fn raw_winner_in_backslash_diagonal(board: &RawBoard, diag: usize) -> (w: Option<PlayerMark>)
        ensures
            w == backslash_winner(grid_of(*board), diag as int),
    {
        // if this diagonal has 3 or less elements, it can't have a winner
        if !(3 <= diag && diag <= 8) {
            return None;
        }
        let n_chances: usize = match diag {
            3 | 8 => 1,
            4 | 7 => 2,
            _ => 3,
        };
        let (x0, y0): (usize, usize) = if diag <= 5 {
            (0, diag)
        } else {
            (diag - 5, 5)
        };
        let ghost g = grid_of(*board);
        let mut i: usize = 0;
        while i < n_chances
            invariant
                i <= n_chances,
                3 <= diag <= 8,
                n_chances == windows_on_diagonal(diag as int),
                x0 == diagonal_start_column(diag as int),
                y0 == diag - x0,
                g == grid_of(*board),
                backslash_winner(g, diag as int) == first_four(
                    g,
                    x0 + i,
                    y0 - i,
                    1,
                    -1,
                    (n_chances - i) as nat,
                ),
            decreases n_chances - i,
        {
            let w = four_from(board, x0 + i, y0 - i, 1, false, true);
            if w.is_some() {
                return w;
            }
            i += 1;
        }
        None
    }
}

/// In a stacked grid every cell above an empty cell is empty.
pub proof fn above_empty_is_empty(g: Grid, c: int, r: int, top: int)
    requires
        is_grid(g),
        is_stacked(g),
        0 <= c < 7,
        0 <= r <= top < 6,
        g[c][r] is None,
    ensures
        g[c][top] is None,
    decreases top - r,
{
    if r < top {
        above_empty_is_empty(g, c, r, top - 1);
        if g[c][top] is Some {
            assert(g[c][top - 1] is Some);
        }
    }
}

/// A column with an empty top cell has a landing row.
pub proof fn open_column_has_landing_row(col: Seq<Cell>)
    requires
        col.len() == 6,
        col[5] is None,
    ensures
        0 <= landing_row(col, 0) < 6,
{
    landing_row_is_lowest_empty(col, 0);
    if landing_row(col, 0) == 6 {
        assert(col[5] is Some);
    }
}

/// A grid without any mark shows no winner.
pub proof fn empty_grid_has_no_winner(g: Grid)
    requires
        is_grid(g),
        forall|c: int, r: int| 0 <= c < 7 && 0 <= r < 6 ==> (#[trigger] g[c][r]) is None,
    ensures
        status_of(g) == GameStatus::Undecided,
        is_stacked(g),
{
    no_grid_winner_means_no_four(g);
    assert forall|x: int, y: int, dx: int, dy: int| is_window(x, y, dx, dy) implies (#[trigger] four_at(
        g,
        x,
        y,
        dx,
        dy,
    )) is None by {
        assert(g[x][y] is None);
    }
    assert(g[0][0] is None);
}

impl C4Board {
    /// The board after a mark of `marker` was dropped into column `a`.
    pub closed spec fn with_drop(&self, a: int, marker: PlayerMark) -> C4Board {
        let row = landing_row(grid_of(self.board)[a], 0);
        let column = vstd::array::spec_array_update(self.board[a], row, Some(marker));
        C4Board {
            board: vstd::array::spec_array_update(self.board, a, column),
            status: status_after(self@, a, marker),
            current_player: self.current_player.opponent(),
        }
    }

    /// What one sees after a drop into a column that has room.
    pub proof fn with_drop_view(&self, a: int, marker: PlayerMark)
        requires
            0 <= a < 7,
            landing_row(self@.cells[a], 0) < 6,
        ensures
            self.with_drop(a, marker)@ == view_after(self@, a, marker),
    {
        broadcast use vstd::array::axiom_spec_array_update;

        landing_row_is_lowest_empty(self@.cells[a], 0);
        let after = self.with_drop(a, marker);
        assert(after@.cells =~~= dropped(self@.cells, a, marker));
    }

    /// Drops a mark of `marker` into a column that has room. The mark comes
    /// to rest on the lowest empty cell; the status is brought up to date
    /// from the four lines through that cell, and the turn passes on.
    pub fn drop_mark(&mut self, column: usize, marker: PlayerMark)
        requires
            column < 7,
            landing_row(old(self)@.cells[column as int], 0) < 6,
        ensures
            final(self)@ == view_after(old(self)@, column as int, marker),
            *final(self) == old(self).with_drop(column as int, marker),
    {
        broadcast use vstd::array::axiom_spec_array_update;

        let ghost g = self@.cells;
        let mut row: usize = 0;
        while row < 6 && self.board[column][row].is_some()
            invariant
                row <= 6,
                column < 7,
                g == grid_of(self.board),
                landing_row(g[column as int], 0) == landing_row(g[column as int], row as int),
            decreases 6 - row,
        {
            row += 1;
        }
        let mut cells = self.board[column];
        cells[row] = Some(marker);
        self.board[column] = cells;
        let ghost h = grid_of(self.board);
        assert(h =~~= dropped(g, column as int, marker));
        let won = holds(Self::raw_winner_in_column(&self.board, column), marker) || holds(
            Self::raw_winner_in_row(&self.board, row),
            marker,
        ) || holds(Self::raw_winner_in_slash_diagonal(&self.board, 5 + column - row), marker)
            || holds(Self::raw_winner_in_backslash_diagonal(&self.board, column + row), marker);
        if won {
            self.status = GameStatus::Won(marker);
        } else if row == 5 {
            let empty = Self::raw_count(&self.board, None);
            proof {
                no_empty_cells_means_full(h, 7);
            }
            if empty == 0 {
                self.status = GameStatus::Draw;
            }
        }
        self.current_player = self.current_player.other();
        proof {
            let target = old(self).with_drop(column as int, marker);
            old(self).with_drop_view(column as int, marker);
            assert forall|c: int| 0 <= c < 7 implies self.board[c] == target.board[c] by {
                assert(self.board[c] =~= target.board[c]);
            }
            assert(self.board =~= target.board);
        }
    }

    /// The letters of a board picture among the first `n` characters: all
    /// but the blanks and line breaks.
    pub open spec fn letters(s: Seq<char>, n: nat) -> Seq<char>
        decreases n,
    {
        if n == 0 {
            Seq::empty()
        } else {
            let before = Self::letters(s, (n - 1) as nat);
            if is_blank(s[n - 1]) {
                before
            } else {
                before.push(s[n - 1])
            }
        }
    }

    /// The grid that 42 letters spell, row by row from the top row down.
    pub open spec fn spelled(l: Seq<char>) -> Grid {
        Seq::new(7, |c: int| Seq::new(6, |r: int| cell_of_letter(l[(5 - r) * 7 + c]).unwrap()))
    }

    /// The string is a picture of a grid: apart from blanks and line breaks
    /// it holds 42 letters, each an `x`, an `o` or a `.`.
    pub open spec fn is_grid_picture(s: Seq<char>) -> bool {
        let l = Self::letters(s, s.len());
        &&& l.len() == 42
        &&& forall|i: int| 0 <= i < 42 ==> cell_of_letter(#[trigger] l[i]) is Some
    }

    /// The string is a picture of a position: it is a picture of a grid,
    /// and the marks are balanced as in a game (as many `x` as `o`, or one
    /// `o` more).
    pub open spec fn is_picture(s: Seq<char>) -> bool {
        let g = Self::spelled(Self::letters(s, s.len()));
        let crosses = count_in_grid(g, Some(PlayerMark::Cross), 7);
        let naughts = count_in_grid(g, Some(PlayerMark::Naught), 7);
        Self::is_grid_picture(s) && (crosses == naughts || naughts == crosses + 1)
    }

    /// Reads a grid from its picture: six rows of seven letters, top row
    /// first, `x` for a cross, `o` for a naught and `.` for an empty cell.
    /// Blanks and line breaks may stand anywhere. Any other string gives
    /// nothing.
    pub fn raw_from_str(input: &str) -> (r: Option<RawBoard>)
        ensures
            r is Some <==> Self::is_grid_picture(input@),
            r matches Some(raw) ==> grid_of(raw) == Self::spelled(Self::letters(input@, input@.len())),
    {
        let n = input.unicode_len();
        let mut letters: Vec<char> = Vec::new();
        let mut i: usize = 0;
        while i < n
            invariant
                i <= n,
                n == input@.len(),
                letters@ == Self::letters(input@, i as nat),
            decreases n - i,
        {
            let c = input.get_char(i);
            if !(c == ' ' || c == '\n' || c == '\t' || c == '\r') {
                letters.push(c);
            }
            i += 1;
        }
        if letters.len() != 42 {
            return None;
        }
        let ghost l = letters@;
        let mut game_board: RawBoard = [[None; 6]; 7];
        let mut k: usize = 0;
        while k < 42
            invariant
                k <= 42,
                l == letters@,
                l == Self::letters(input@, input@.len()),
                l.len() == 42,
                forall|j: int| 0 <= j < k ==> cell_of_letter(#[trigger] l[j]) is Some,
                forall|j: int|
                    0 <= j < k ==> cell_of_letter(l[j]) == Some(
                        #[trigger] grid_of(game_board)[j % 7][5 - j / 7],
                    ),
            decreases 42 - k,
        {
            let c = letters[k];
            let cell = if c == 'x' {
                Some(PlayerMark::Cross)
            } else if c == 'o' {
                Some(PlayerMark::Naught)
            } else if c == '.' {
                None
            } else {
                assert(cell_of_letter(l[k as int]) is None);
                return None;
            };
            let i_row = k / 7;
            let j_col = k % 7;
            let ghost before = grid_of(game_board);
            let mut column = game_board[j_col];
            column[5 - i_row] = cell;
            game_board[j_col] = column;
            proof {
                let after = grid_of(game_board);
                assert forall|j: int| 0 <= j < k + 1 implies cell_of_letter(l[j]) == Some(
                    #[trigger] after[j % 7][5 - j / 7],
                ) by {
                    if j < k {
                        assert(cell_of_letter(l[j]) == Some(before[j % 7][5 - j / 7]));
                        assert(j % 7 != k % 7 || j / 7 != k / 7);
                    }
                }
            }
            k += 1;
        }
        let ghost g = grid_of(game_board);
        proof {
            assert forall|c: int, r: int| 0 <= c < 7 && 0 <= r < 6 implies g[c][r] == Self::spelled(
                l,
            )[c][r] by {
                let j = (5 - r) * 7 + c;
                assert(j % 7 == c && j / 7 == 5 - r);
                assert(cell_of_letter(l[j]) == Some(g[j % 7][5 - j / 7]));
            }
            assert(g =~~= Self::spelled(l));
        }
        Some(game_board)
    }

    /// Reads a position from its picture, as `raw_from_str` reads the grid.
    /// The side to move and the status are worked out from the marks. A
    /// picture whose marks are not balanced as in a game gives nothing.
    pub fn from_str(input: &str) -> (r: Option<Self>)
        ensures
            r is Some <==> Self::is_picture(input@),
            r matches Some(b) ==> {
                let g = Self::spelled(Self::letters(input@, input@.len()));
                &&& b@.cells == g
                &&& b@.status == status_of(g)
                &&& b@.to_move == if count_in_grid(g, Some(PlayerMark::Cross), 7) == count_in_grid(
                    g,
                    Some(PlayerMark::Naught),
                    7,
                ) {
                    PlayerMark::Naught
                } else {
                    PlayerMark::Cross
                }
            },
    {
        match Self::raw_from_str(input) {
            None => None,
            Some(game_board) => {
                let n_crosses = Self::raw_count(&game_board, Some(PlayerMark::Cross));
                let n_naughts = Self::raw_count(&game_board, Some(PlayerMark::Naught));
                if !(n_crosses == n_naughts || n_naughts == n_crosses + 1) {
                    return None;
                }
                let current_player = Self::raw_current_player(game_board);
                let status = Self::raw_game_status(game_board);
                Some(C4Board { board: game_board, current_player, status })
            },
        }
    }
}

/// Blanks and line breaks: what a board picture may hold between its letters.
pub open spec fn is_blank(c: char) -> bool {
    c == ' ' || c == '\n' || c == '\t' || c == '\r'
}

/// What a letter of a board picture stands for, if it is one of the three
/// that may occur.
pub open spec fn cell_of_letter(c: char) -> Option<Cell> {
    if c == 'x' {
        Some(Some(PlayerMark::Cross))
    } else if c == 'o' {
        Some(Some(PlayerMark::Naught))
    } else if c == '.' {
        Some(None)
    } else {
        None
    }
}

impl Default for C4Board {
    fn default() -> (b: Self)
        ensures
            b@.cells == Seq::new(7, |c: int| Seq::new(6, |r: int| None::<PlayerMark>)),
            b@.status == GameStatus::Undecided,
            b@.to_move == PlayerMark::Naught,
    {
        C4Board::new()
    }
}

impl Board for C4Board {
    type Coordinate = usize;

    /// Every mark rests on the floor or on another mark, and the status is
    /// the one that the marks amount to.
    open spec fn inv(&self) -> bool {
        is_stacked(self@.cells) && self@.status == status_of(self@.cells)
    }

    open spec fn status(&self) -> GameStatus {
        self@.status
    }

    open spec fn to_move(&self) -> PlayerMark {
        self@.to_move
    }

    open spec fn moves(&self) -> Seq<usize> {
        open_columns(self@.cells, 7)
    }

    open spec fn placed(&self, a: usize, marker: PlayerMark) -> Self {
        self.with_drop(a as int, marker)
    }

    open spec fn room(&self) -> nat {
        empty_cells(self@.cells)
    }

    closed spec fn initial() -> Self {
        C4Board {
            board: vstd::array::spec_array_fill_for_copy_type(
                vstd::array::spec_array_fill_for_copy_type(None),
            ),
            status: GameStatus::Undecided,
            current_player: PlayerMark::Naught,
        }
    }

    proof fn open_game_has_moves(&self) {
        let g = self@.cells;
        let (c, r) = choose|c: int, r: int| 0 <= c < 7 && 0 <= r < 6 && !((#[trigger] g[c][r]) is Some);
        above_empty_is_empty(g, c, r, 5);
        open_columns_lists_open_columns(g, 7, c as usize);
    }

    proof fn initial_is_consistent() {
        broadcast use vstd::array::axiom_spec_array_fill_for_copy_type;

        let b = Self::initial();
        assert forall|c: int, r: int| 0 <= c < 7 && 0 <= r < 6 implies (#[trigger] b@.cells[c][r]) is None by {
            assert(b.board@[c]@[r] is None);
        }
        empty_grid_has_no_winner(b@.cells);
    }

    proof fn placed_is_consistent(&self, a: usize, marker: PlayerMark) {
        let g = self@.cells;
        open_columns_lists_open_columns(g, 7, a);
        open_column_has_landing_row(g[a as int]);
        landing_row_is_lowest_empty(g[a as int], 0);
        self.with_drop_view(a as int, marker);
        status_after_agrees_with_marks(self@, a as int, marker);
        let h = dropped(g, a as int, marker);
        let row = landing_row(g[a as int], 0);
        count_in_grid_after_change(g, h, a as int, None, 7);
        count_update(g[a as int], row, Some(marker), None);
        assert forall|c: int, r: int| 0 <= c < 7 && 0 < r < 6 && (#[trigger] h[c][r]) is Some implies h[c][r
            - 1] is Some by {
            if c == a && r == row {
                assert(g[c][r - 1] is Some);
            } else if c == a && r - 1 == row {
            } else {
                assert(g[c][r] is Some);
            }
        }
    }

    fn new_game() -> (b: Self) {
        broadcast use vstd::array::axiom_spec_array_fill_for_copy_type;

        let b = C4Board {
            board: [[None; 6]; 7],
            status: GameStatus::Undecided,
            current_player: PlayerMark::Naught,
        };
        assert forall|c: int| 0 <= c < 7 implies b.board[c] == Self::initial().board[c] by {
            assert(b.board[c] =~= Self::initial().board[c]);
        }
        assert(b.board =~= Self::initial().board);
        b
    }

    fn valid_moves(&self) -> (v: Vec<usize>) {
        let mut v: Vec<usize> = Vec::new();
        let mut i: usize = 0;
        while i < 7
            invariant
                i <= 7,
                v@ == open_columns(self@.cells, i as nat),
            decreases 7 - i,
        {
            if self.board[i][5].is_none() {
                v.push(i);
            }
            i += 1;
        }
        v
    }

    fn place_mark(&mut self, column: usize, marker: PlayerMark) {
        proof {
            open_columns_lists_open_columns(self@.cells, 7, column);
            open_column_has_landing_row(self@.cells[column as int]);
        }
        self.drop_mark(column, marker)
    }

    fn game_status(&self) -> (s: GameStatus) {
        self.status
    }

    fn current_player(&self) -> (m: PlayerMark) {
        self.current_player
    }
}

/// A drop decides the game for the side that dropped exactly when it
/// completes four in a line; it never decides it for the other side; and it
/// ends the game in a draw exactly when it fills the board without
/// completing four in a line.
pub proof fn win_detection(b: C4Board, column: usize, marker: PlayerMark)
    requires
        b.inv(),
        b.status() is Undecided,
        b.moves().contains(column),
    ensures
        ({
            let after = b.placed(column, marker);
            &&& after@.cells == dropped(b@.cells, column as int, marker)
            &&& after.status() == GameStatus::Won(marker) <==> has_four(after@.cells, marker)
            &&& after.status() != GameStatus::Won(marker.opponent())
            &&& after.status() == GameStatus::Draw <==> is_full(after@.cells) && !has_four(
                after@.cells,
                marker,
            )
            &&& !has_four(b@.cells, marker)
        }),
{
    let g = b@.cells;
    b.placed_is_consistent(column, marker);
    open_columns_lists_open_columns(g, 7, column);
    open_column_has_landing_row(g[column as int]);
    b.with_drop_view(column as int, marker);
    status_after_agrees_with_marks(b@, column as int, marker);
    no_grid_winner_means_no_four(g);
    match marker {
        PlayerMark::Cross => {},
        PlayerMark::Naught => {},
    }
}

impl Keyed for C4Board {
    open spec fn code_of(&self) -> u64 {
        code_of_rows(self@.cells, 7)
    }

    fn same(&self, other: &Self) -> (r: bool) {
        let mut c: usize = 0;
        while c < 7
            invariant
                c <= 7,
                forall|i: int| 0 <= i < c ==> self.board@[i] == other.board@[i],
            decreases 7 - c,
        {
            let mut r: usize = 0;
            while r < 6
                invariant
                    r <= 6,
                    c < 7,
                    forall|j: int| 0 <= j < r ==> self.board@[c as int]@[j] == other.board@[c as int]@[j],
                decreases 6 - r,
            {
                if !same_cell(self.board[c][r], other.board[c][r]) {
                    return false;
                }
                r += 1;
            }
            assert(self.board@[c as int] =~= other.board@[c as int]);
            c += 1;
        }
        assert(self.board =~= other.board);
        self.status == other.status && same_mark(self.current_player, other.current_player)
    }

    fn same_move(a: &usize, b: &usize) -> (r: bool) {
        *a == *b
    }

    fn code(&self) -> (h: u64) {
        let ghost g = self@.cells;
        let mut h: u64 = 0;
        let mut c: usize = 0;
        while c < 7
            invariant
                c <= 7,
                g == self@.cells,
                h == code_of_rows(g, c as nat),
            decreases 7 - c,
        {
            let ghost start = h;
            let mut r: usize = 0;
            while r < 6
                invariant
                    r <= 6,
                    c < 7,
                    g == self@.cells,
                    h == code_of_cells(g[c as int].take(r as int), start),
                decreases 6 - r,
            {
                proof {
                    code_take_step(g[c as int], r as int, start);
                }
                h = mix(h, self.board[c][r]);
                r += 1;
            }
            assert(g[c as int].take(6) =~= g[c as int]);
            c += 1;
        }
        h
    }
}

} // verus!
