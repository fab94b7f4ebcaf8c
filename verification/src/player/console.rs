//! The human at the console. This module holds what the human's answers
//! mean; asking and reading is left to the program around the library.

use vstd::prelude::*;
use crate::base::PlayerMark;
use crate::game::tictactoe::TTTAddr;
use crate::game::ultimate_ttt::Action;

verus! {

/// A player that is asked for its moves at the console.
pub struct ConsolePlayer {
    pub name: String,
}

/// Blanks, tabs and line ends.
pub open spec fn is_space(c: char) -> bool {
    c == ' ' || c == '\t' || c == '\n' || c == '\r'
}

/// The number that a digit from 1 to 9 stands for.
pub open spec fn digit_value(c: char) -> Option<nat> {
    if c == '1' {
        Some(1)
    } else if c == '2' {
        Some(2)
    } else if c == '3' {
        Some(3)
    } else if c == '4' {
        Some(4)
    } else if c == '5' {
        Some(5)
    } else if c == '6' {
        Some(6)
    } else if c == '7' {
        Some(7)
    } else if c == '8' {
        Some(8)
    } else if c == '9' {
        Some(9)
    } else {
        None
    }
}

/// The characters among the first `n` that are no spaces.
pub open spec fn words(s: Seq<char>, n: nat) -> Seq<char>
    decreases n,
{
    if n == 0 {
        Seq::empty()
    } else {
        let before = words(s, (n - 1) as nat);
        if is_space(s[n - 1]) {
            before
        } else {
            before.push(s[n - 1])
        }
    }
}

/// No two characters that are no spaces stand side by side: every word is
/// one character long.
pub open spec fn words_are_single(s: Seq<char>) -> bool {
    forall|i: int| 0 <= i < s.len() - 1 ==> is_space(#[trigger] s[i]) || is_space(s[i + 1])
}

/// The answer names a move of ultimate tic-tac-toe: its words are single
/// digits from 1 to 9, there are at least four of them, and the first four
/// are at most 3.
pub open spec fn names_uttt_move(s: Seq<char>) -> bool {
    let w = words(s, s.len());
    &&& words_are_single(s)
    &&& forall|i: int| 0 <= i < w.len() ==> digit_value(#[trigger] w[i]) is Some
    &&& w.len() >= 4
    &&& forall|i: int| 0 <= i < 4 ==> digit_value(#[trigger] w[i]).unwrap() <= 3
}

/// Reads a digit from 1 to 9.
pub fn digit(c: char) -> (d: Option<usize>)
    ensures
        match d {
            Some(n) => digit_value(c) == Some(n as nat),
            None => digit_value(c) is None,
        },
{
    if c == '1' {
        Some(1)
    } else if c == '2' {
        Some(2)
    } else if c == '3' {
        Some(3)
    } else if c == '4' {
        Some(4)
    } else if c == '5' {
        Some(5)
    } else if c == '6' {
        Some(6)
    } else if c == '7' {
        Some(7)
    } else if c == '8' {
        Some(8)
    } else if c == '9' {
        Some(9)
    } else {
        None
    }
}

impl ConsolePlayer {
    pub fn new(mark: PlayerMark) -> (p: Self)
        ensures
            p.name@ == (match mark {
                PlayerMark::Cross => "X"@,
                PlayerMark::Naught => "O"@,
            }),
    {
        ConsolePlayer {
            name: match mark {
                PlayerMark::Cross => "X".to_string(),
                PlayerMark::Naught => "O".to_string(),
            },
        }
    }

    /// The tic-tac-toe move that the answer names: the answer must start
    /// with a digit from 1 to 9, 1 = top left, 9 = bottom right.
    pub fn ttt_move(line: &str) -> (m: Option<TTTAddr>)
        ensures
            match m {
                Some(a) => line@.len() > 0 && digit_value(line@[0]) == Some(a.0 as nat),
                None => line@.len() == 0 || digit_value(line@[0]) is None,
            },
    {
        if line.unicode_len() == 0 {
            return None;
        }
        match digit(line.get_char(0)) {
            Some(d) => Some(TTTAddr(d)),
            None => None,
        }
    }

    /// The column of connect four that the answer names: after spaces the
    /// answer must start with a digit from 1 to 7, 1 = leftmost, 7 =
    /// rightmost. Columns are counted from 0.
    pub fn c4_move(line: &str) -> (m: Option<usize>)
        ensures
            match m {
                Some(col) => words(line@, line@.len()).len() > 0 && digit_value(
                    words(line@, line@.len())[0],
                ) == Some((col + 1) as nat) && col < 7,
                None => words(line@, line@.len()).len() == 0 || match digit_value(
                    words(line@, line@.len())[0],
                ) {
                    Some(n) => n > 7,
                    None => true,
                },
            },
    {
        let n = line.unicode_len();
        let mut i: usize = 0;
        while i < n
            invariant
                i <= n,
                n == line@.len(),
                words(line@, i as nat).len() == 0,
            decreases n - i,
        {
            let c = line.get_char(i);
            if !(c == ' ' || c == '\t' || c == '\n' || c == '\r') {
                proof {
                    first_word_stays(line@, (i + 1) as nat, n as nat);
                }
                return match digit(c) {
                    Some(d) => if d <= 7 {
                        Some(d - 1)
                    } else {
                        None
                    },
                    None => None,
                };
            }
            i += 1;
        }
        None
    }

    /// The move of ultimate tic-tac-toe that the answer names: four numbers
    /// from 1 to 3 with space in between, for the row and the column of the
    /// sub-board and the row and the column of the cell in it. Further
    /// numbers are not looked at.
    pub fn uttt_move(line: &str) -> (m: Option<Action>)
        ensures
            m is Some <==> names_uttt_move(line@),
            m matches Some(a) ==> {
                let w = words(line@, line@.len());
                &&& a.in_range()
                &&& a.sub() == 3 * (digit_value(w[0]).unwrap() - 1) + (digit_value(w[1]).unwrap() - 1)
                &&& a.pos() == 3 * (digit_value(w[2]).unwrap() - 1) + (digit_value(w[3]).unwrap() - 1)
            },
    {
        let n = line.unicode_len();
        let mut nums: Vec<usize> = Vec::new();
        let mut after_word = false;
        let mut i: usize = 0;
        while i < n
            invariant
                i <= n,
                n == line@.len(),
                nums.len() == words(line@, i as nat).len(),
                forall|k: int|
                    0 <= k < nums.len() ==> digit_value(#[trigger] words(line@, i as nat)[k]) == Some(
                        nums[k] as nat,
                    ),
                after_word == (i > 0 && !is_space(line@[i - 1])),
                forall|k: int| 0 <= k < i - 1 ==> is_space(#[trigger] line@[k]) || is_space(line@[k + 1]),
            decreases n - i,
        {
            let c = line.get_char(i);
            let space = c == ' ' || c == '\t' || c == '\n' || c == '\r';
            if !space {
                if after_word {
                    assert(!is_space(line@[i - 1]) && !is_space(line@[i - 1 + 1]));
                    return None;
                }
                match digit(c) {
                    Some(d) => {
                        nums.push(d);
                    },
                    None => {
                        proof {
                            let w = words(line@, (i + 1) as nat);
                            assert(digit_value(w[w.len() - 1]) is None);
                            words_stay(line@, (i + 1) as nat, n as nat, w.len() - 1);
                        }
                        return None;
                    },
                }
            }
            after_word = !space;
            i += 1;
        }
        if nums.len() < 4 {
            return None;
        }
        if nums[0] > 3 || nums[1] > 3 || nums[2] > 3 || nums[3] > 3 {
            proof {
                let w = words(line@, n as nat);
                assert(digit_value(w[0]) == Some(nums[0] as nat));
                assert(digit_value(w[1]) == Some(nums[1] as nat));
                assert(digit_value(w[2]) == Some(nums[2] as nat));
                assert(digit_value(w[3]) == Some(nums[3] as nat));
            }
            return None;
        }
        proof {
            let w = words(line@, n as nat);
            assert(digit_value(w[0]) == Some(nums[0] as nat));
            assert(digit_value(w[1]) == Some(nums[1] as nat));
            assert(digit_value(w[2]) == Some(nums[2] as nat));
            assert(digit_value(w[3]) == Some(nums[3] as nat));
        }
        match Action::try_from((nums[0] - 1, nums[1] - 1, nums[2] - 1, nums[3] - 1)) {
            Ok(a) => Some(a),
            Err(_) => None,
        }
    }
}

/// The words found among the first `k` characters are the first of the
/// words found among more.
pub proof fn words_stay(s: Seq<char>, k: nat, n: nat, j: int)
    requires
        k <= n,
        0 <= j < words(s, k).len(),
    ensures
        j < words(s, n).len(),
        words(s, n)[j] == words(s, k)[j],
    decreases n,
{
    if k < n {
        words_stay(s, k, (n - 1) as nat, j);
    }
}

/// Once a first word is found it stays the first word.
pub proof fn first_word_stays(s: Seq<char>, k: nat, n: nat)
    requires
        k <= n,
        words(s, k).len() > 0,
    ensures
        words(s, n).len() > 0,
        words(s, n)[0] == words(s, k)[0],
{
    words_stay(s, k, n, 0);
}

} // verus!
