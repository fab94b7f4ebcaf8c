//! Counting the marks in a row of cells.

use vstd::prelude::*;
use crate::base::PlayerMark;

verus! {

/// What a single cell holds.
pub type Cell = Option<PlayerMark>;

/// Does the cell hold a mark of `m`?
pub fn holds(c: Cell, m: PlayerMark) -> (r: bool)
    ensures
        r == (c == Some(m)),
{
    match c {
        Some(PlayerMark::Cross) => matches!(m, PlayerMark::Cross),
        Some(PlayerMark::Naught) => matches!(m, PlayerMark::Naught),
        None => false,
    }
}

/// How many of the cells hold exactly `what`.
pub open spec fn count_of(s: Seq<Cell>, what: Cell) -> nat
    decreases s.len(),
{
    if s.len() == 0 {
        0
    } else {
        count_of(s.drop_last(), what) + if s.last() == what {
            1nat
        } else {
            0nat
        }
    }
}

/// How many of the cells hold a mark.
pub open spec fn occupied(s: Seq<Cell>) -> nat {
    count_of(s, Some(PlayerMark::Cross)) + count_of(s, Some(PlayerMark::Naught))
}

/// Counting one cell more.
pub proof fn count_push(s: Seq<Cell>, x: Cell, what: Cell)
    ensures
        count_of(s.push(x), what) == count_of(s, what) + if x == what {
            1nat
        } else {
            0nat
        },
{
    assert(s.push(x).drop_last() =~= s);
}

/// Counting a prefix that grows by one cell.
pub proof fn count_take_step(s: Seq<Cell>, i: int, what: Cell)
    requires
        0 <= i < s.len(),
    ensures
        count_of(s.take(i + 1), what) == count_of(s.take(i), what) + if s[i] == what {
            1nat
        } else {
            0nat
        },
{
    assert(s.take(i + 1) =~= s.take(i).push(s[i]));
    count_push(s.take(i), s[i], what);
}

/// A count is zero exactly when no cell holds the content.
pub proof fn count_zero_iff_absent(s: Seq<Cell>, what: Cell)
    ensures
        count_of(s, what) == 0 <==> forall|i: int| 0 <= i < s.len() ==> s[i] != what,
    decreases s.len(),
{
    if s.len() > 0 {
        let t = s.drop_last();
        count_zero_iff_absent(t, what);
        if count_of(s, what) == 0 {
            assert forall|i: int| 0 <= i < s.len() implies s[i] != what by {
                if i < t.len() {
                    assert(t[i] == s[i]);
                }
            }
        } else if s.last() != what {
            let i = choose|i: int| 0 <= i < t.len() && t[i] == what;
            assert(s[i] == what);
        }
    }
}

/// Overwriting one cell moves one unit from the count of its old content to
/// the count of its new content and leaves every other count alone.
pub proof fn count_update(s: Seq<Cell>, i: int, x: Cell, what: Cell)
    requires
        0 <= i < s.len(),
    ensures
        count_of(s.update(i, x), what) == count_of(s, what) + (if x == what {
            1int
        } else {
            0int
        }) - (if s[i] == what {
            1int
        } else {
            0int
        }),
    decreases s.len(),
{
    let u = s.update(i, x);
    if i == s.len() - 1 {
        assert(u.drop_last() =~= s.drop_last());
    } else {
        count_update(s.drop_last(), i, x, what);
        assert(u.drop_last() =~= s.drop_last().update(i, x));
    }
}

/// How many cells of the first `n` rows hold exactly `what`.
pub open spec fn count_in_rows(g: Seq<Seq<Cell>>, what: Cell, n: nat) -> nat
    decreases n,
{
    if n == 0 {
        0
    } else {
        count_in_rows(g, what, (n - 1) as nat) + count_of(g[n - 1], what)
    }
}

/// A change within one row changes the counts of that row only.
pub proof fn count_in_rows_after_change(g: Seq<Seq<Cell>>, h: Seq<Seq<Cell>>, row: int, what: Cell, n: nat)
    requires
        g.len() == h.len(),
        0 <= row < g.len(),
        n <= g.len(),
        forall|c: int| 0 <= c < g.len() && c != row ==> h[c] == g[c],
    ensures
        count_in_rows(h, what, n) == count_in_rows(g, what, n) + if row < n {
            count_of(h[row], what) - count_of(g[row], what)
        } else {
            0
        },
    decreases n,
{
    if n > 0 {
        count_in_rows_after_change(g, h, row, what, (n - 1) as nat);
    }
}

/// Do the two cells hold the same?
pub fn same_cell(a: Cell, b: Cell) -> (r: bool)
    ensures
        r == (a == b),
{
    match (a, b) {
        (None, None) => true,
        (Some(PlayerMark::Cross), Some(PlayerMark::Cross)) => true,
        (Some(PlayerMark::Naught), Some(PlayerMark::Naught)) => true,
        _ => false,
    }
}

/// Are the two marks the same?
pub fn same_mark(a: PlayerMark, b: PlayerMark) -> (r: bool)
    ensures
        r == (a == b),
{
    match (a, b) {
        (PlayerMark::Cross, PlayerMark::Cross) => true,
        (PlayerMark::Naught, PlayerMark::Naught) => true,
        _ => false,
    }
}

/// The digit that stands for what a cell holds.
pub open spec fn digit(c: Cell) -> u64 {
    match c {
        None => 0,
        Some(PlayerMark::Cross) => 1,
        Some(PlayerMark::Naught) => 2,
    }
}

/// The code `h` after one more cell was read into it.
pub open spec fn mixed(h: u64, c: Cell) -> u64 {
    h.wrapping_mul(3).wrapping_add(digit(c))
}

/// The code of a row of cells, read into the code `h` one after the other.
pub open spec fn code_of_cells(cells: Seq<Cell>, h: u64) -> u64
    decreases cells.len(),
{
    if cells.len() == 0 {
        h
    } else {
        mixed(code_of_cells(cells.drop_last(), h), cells.last())
    }
}

/// The code of the first `n` rows of cells, read one after the other.
pub open spec fn code_of_rows(g: Seq<Seq<Cell>>, n: nat) -> u64
    decreases n,
{
    if n == 0 {
        0
    } else {
        code_of_cells(g[n - 1], code_of_rows(g, (n - 1) as nat))
    }
}

/// Reading one cell more.
pub proof fn code_take_step(cells: Seq<Cell>, i: int, h: u64)
    requires
        0 <= i < cells.len(),
    ensures
        code_of_cells(cells.take(i + 1), h) == mixed(code_of_cells(cells.take(i), h), cells[i]),
{
    assert(cells.take(i + 1).drop_last() =~= cells.take(i));
}

/// Reads one cell into a code.
pub fn mix(h: u64, c: Cell) -> (r: u64)
    ensures
        r == mixed(h, c),
{
    let d: u64 = match c {
        None => 0,
        Some(PlayerMark::Cross) => 1,
        Some(PlayerMark::Naught) => 2,
    };
    h.wrapping_mul(3).wrapping_add(d)
}

} // verus!
