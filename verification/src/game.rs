//! The games themselves, and the loop that lets two players play one
//! against the clock.

use vstd::prelude::*;
use crate::base::{
    end_status, end_status_of, is_game, mover_of, position_after, BlitzPlayer, Board,
    GameEndStatus, PlayerMark,
};
use crate::clock::{nanos_since, now};

pub mod cells;
pub mod connect_four;
pub mod tictactoe;
pub mod ultimate_ttt;

verus! {

/// What is left of `remaining` nanoseconds after `spent` were used: the
/// difference, and nothing where more was used than was left.
pub open spec fn time_left(remaining: u128, spent: u128) -> u128 {
    if spent >= remaining {
        0
    } else {
        (remaining - spent) as u128
    }
}

/// Takes the time of a move off the clock of the side that made it.
pub fn charge(remaining: u128, spent: u128) -> (left: u128)
    ensures
        left == time_left(remaining, spent),
{
    match remaining.checked_sub(spent) {
        Some(left) => left,
        None => 0,
    }
}

/// How a timed game ended: the outcome, the time in nanoseconds that each
/// side had left, and the final position.
pub struct BlitzOutcome<B> {
    pub result: GameEndStatus,
    pub time_remaining_naughts: u128,
    pub time_remaining_crosses: u128,
    pub board: B,
}

/// Lets two players play a game against the clock. Each side starts with
/// `think_time` nanoseconds for all its moves, and naughts move first. A
/// side whose time runs out during its move loses at once, and its last
/// move is not made; otherwise the game is played to the end and the
/// outcome is the one that the final position shows. The final position is
/// the end of a game of legal moves made in turn, as far as it went.
pub fn run_blitz_game<B: Board, N: BlitzPlayer<B>, C: BlitzPlayer<B>>(
    naughts: N,
    crosses: C,
    think_time: u128,
) -> (r: BlitzOutcome<B>)
    ensures
        exists|h: Seq<B::Coordinate>| is_game::<B>(h) && r.board == #[trigger] position_after::<B>(h),
        r.board.inv(),
        r.time_remaining_naughts <= think_time,
        r.time_remaining_crosses <= think_time,
        r.time_remaining_naughts == 0 ==> r.result == GameEndStatus::X,
        r.time_remaining_naughts != 0 && r.time_remaining_crosses == 0 ==> r.result == GameEndStatus::O,
        r.time_remaining_naughts != 0 && r.time_remaining_crosses != 0 ==> end_status_of(r.board.status())
            == Some(r.result),
{
    let mut naughts = naughts;
    let mut crosses = crosses;
    let mut current_player = PlayerMark::Naught;
    let mut board = B::new_game();
    let mut time_remaining_naughts = think_time;
    let mut time_remaining_crosses = think_time;
    let ghost mut h: Seq<B::Coordinate> = Seq::empty();
    proof {
        B::initial_is_consistent();
    }
    while !board.game_is_over()
        invariant
            board.inv(),
            is_game::<B>(h),
            board == position_after::<B>(h),
            current_player == mover_of(h.len()),
            time_remaining_naughts <= think_time,
            time_remaining_crosses <= think_time,
            time_remaining_naughts != 0 || think_time == 0,
            time_remaining_crosses != 0 || think_time == 0,
            think_time == 0 ==> h.len() == 0,
        decreases board.room(),
    {
        let t0 = now();
        let action = match current_player {
            PlayerMark::Naught => naughts.blitz(&board, time_remaining_naughts),
            PlayerMark::Cross => crosses.blitz(&board, time_remaining_crosses),
        };
        let spent = nanos_since(&t0);
        match current_player {
            PlayerMark::Naught => {
                time_remaining_naughts = charge(time_remaining_naughts, spent);
                if time_remaining_naughts == 0 {
                    return BlitzOutcome {
                        result: GameEndStatus::X,
                        time_remaining_naughts,
                        time_remaining_crosses,
                        board,
                    };
                }
            },
            PlayerMark::Cross => {
                time_remaining_crosses = charge(time_remaining_crosses, spent);
                if time_remaining_crosses == 0 {
                    return BlitzOutcome {
                        result: GameEndStatus::O,
                        time_remaining_naughts,
                        time_remaining_crosses,
                        board,
                    };
                }
            },
        }
        proof {
            board.placed_is_consistent(action, current_player);
            assert(h.push(action).drop_last() =~= h);
            h = h.push(action);
        }
        board.place_mark(action, current_player);
        current_player = current_player.other();
    }
    let winstatus = end_status(board.game_status());
    BlitzOutcome { result: winstatus, time_remaining_naughts, time_remaining_crosses, board }
}

} // verus!
