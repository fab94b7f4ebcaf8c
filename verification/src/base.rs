//! The vocabulary shared by every game and every player: marks, outcomes, and
//! the contracts a board and a player have to meet.

use vstd::prelude::*;

verus! {

/// One of the two sides of a game.
#[derive(Clone, Copy, PartialEq, Eq, Structural, Debug, Hash, PartialOrd, Ord)]
pub enum PlayerMark {
    Cross,
    Naught,
}

impl PlayerMark {
    /// The side this mark plays against.
    pub open spec fn opponent(self) -> PlayerMark {
        match self {
            PlayerMark::Cross => PlayerMark::Naught,
            PlayerMark::Naught => PlayerMark::Cross,
        }
    }

    /// Swaps the two marks.
    pub fn other(&self) -> (r: Self)
        ensures
            r == self.opponent(),
    {
        match *self {
            Self::Cross => Self::Naught,
            Self::Naught => Self::Cross,
        }
    }

    /// `other` is an involution without a fixed point.
    pub proof fn other_is_involution(m: PlayerMark)
        ensures
            m.opponent().opponent() == m,
            m.opponent() != m,
    {
    }
}

/// Where a game stands: still open, drawn, or won by one side.
#[derive(Debug, Clone, Copy, PartialEq, Eq, Structural, Hash, Ord, PartialOrd)]
pub enum GameStatus {
    Undecided,
    Draw,
    Won(PlayerMark),
}

/// The games this library knows.
#[derive(Debug, Copy, Clone, PartialEq, Eq, Structural, PartialOrd, Ord)]
pub enum GameType {
    /// Normal Tic-Tac-Toe
    Ttt,
    /// Ultimate Tic-Tac-Toe
    Uttt,
    /// Connect Four
    C4,
}

/// How a finished game ended.
#[derive(Debug, Clone, Copy, PartialEq, Eq, Structural, Hash, Ord, PartialOrd)]
pub enum GameEndStatus {
    Draw,
    /// X won
    X,
    /// O won
    O,
}

/// The end status that a finished game's status stands for. An undecided game
/// has none.
pub open spec fn end_status_of(s: GameStatus) -> Option<GameEndStatus> {
    match s {
        GameStatus::Undecided => None,
        GameStatus::Draw => Some(GameEndStatus::Draw),
        GameStatus::Won(PlayerMark::Cross) => Some(GameEndStatus::X),
        GameStatus::Won(PlayerMark::Naught) => Some(GameEndStatus::O),
    }
}

/// Names the outcome of a game that is over.
pub fn end_status(s: GameStatus) -> (r: GameEndStatus)
    requires
        !(s is Undecided),
    ensures
        end_status_of(s) == Some(r),
{
    match s {
        GameStatus::Won(PlayerMark::Cross) => GameEndStatus::X,
        GameStatus::Won(PlayerMark::Naught) => GameEndStatus::O,
        _ => GameEndStatus::Draw,
    }
}

/// A position of a two-player, perfect-information board game.
///
/// The spec functions are the mathematical model of the game; the executable
/// methods are held to them. A position that satisfies `inv` has its derived
/// data (status, counters) in agreement with the marks on the board.
pub trait Board: Sized {
    type Coordinate: Copy;

    /// The derived data of the position agrees with the marks placed.
    spec fn inv(&self) -> bool;

    /// Open, drawn or won.
    spec fn status(&self) -> GameStatus;

    /// Whose turn it is.
    spec fn to_move(&self) -> PlayerMark;

    /// The legal moves, in the order in which `valid_moves` lists them.
    spec fn moves(&self) -> Seq<Self::Coordinate>;

    /// The position reached when `marker` is placed at `a`.
    spec fn placed(&self, a: Self::Coordinate, marker: PlayerMark) -> Self;

    /// The number of cells that are still empty.
    spec fn room(&self) -> nat;

    /// The position from which every game starts.
    spec fn initial() -> Self;

    /// An open game always offers a move.
    proof fn open_game_has_moves(&self)
        requires
            self.inv(),
            self.status() is Undecided,
        ensures
            self.moves().len() > 0,
    ;

    /// The starting position is consistent, and the game is open.
    proof fn initial_is_consistent()
        ensures
            Self::initial().inv(),
            Self::initial().status() is Undecided,
    ;

    /// A legal move in an open game leads to a consistent position with one
    /// empty cell fewer.
    proof fn placed_is_consistent(&self, a: Self::Coordinate, marker: PlayerMark)
        requires
            self.inv(),
            self.status() is Undecided,
            self.moves().contains(a),
        ensures
            self.placed(a, marker).inv(),
            self.placed(a, marker).room() < self.room(),
    ;

    /// A fresh board.
    fn new_game() -> (b: Self)
        ensures
            b == Self::initial(),
    ;

    /// The coordinates where a marker may be placed in this turn.
    fn valid_moves(&self) -> (v: Vec<Self::Coordinate>)
        requires
            self.inv(),
        ensures
            v@ == self.moves(),
    ;

    /// Places a mark of `marker` at one of the coordinates that
    /// `valid_moves` lists.
    fn place_mark(&mut self, a: Self::Coordinate, marker: PlayerMark)
        requires
            old(self).inv(),
            old(self).moves().contains(a),
        ensures
            *final(self) == old(self).placed(a, marker),
    ;

    fn game_status(&self) -> (s: GameStatus)
        requires
            self.inv(),
        ensures
            s == self.status(),
    ;

    fn current_player(&self) -> (m: PlayerMark)
        requires
            self.inv(),
        ensures
            m == self.to_move(),
    ;

    fn game_is_over(&self) -> (over: bool)
        requires
            self.inv(),
        ensures
            over == !(self.status() is Undecided),
    {
        !matches!(self.game_status(), GameStatus::Undecided)
    }
}

/// The position after a move, worked out on a copy: the position that was
/// handed in stays as it was, whatever is done with the copy afterwards.
/// The searches look into the future this way.
pub fn with_move<B: Board + Copy>(b: &B, a: B::Coordinate, marker: PlayerMark) -> (child: B)
    requires
        b.inv(),
        b.status() is Undecided,
        b.moves().contains(a),
    ensures
        child == b.placed(a, marker),
        child.inv(),
        child.room() < b.room(),
{
    let mut child = *b;
    proof {
        b.placed_is_consistent(a, marker);
    }
    child.place_mark(a, marker);
    child
}

/// A board whose positions can be told apart and filed under a number, as the
/// tree search with random playouts needs it for its statistics.
pub trait Keyed: Board + Copy {
    /// The number under which the position is filed. Different positions
    /// may share one.
    spec fn code_of(&self) -> u64;

    /// Are the two positions the same?
    fn same(&self, other: &Self) -> (r: bool)
        ensures
            r == (*self == *other),
    ;

    /// Are the two moves the same?
    fn same_move(a: &Self::Coordinate, b: &Self::Coordinate) -> (r: bool)
        ensures
            r == (*a == *b),
    ;

    fn code(&self) -> (h: u64)
        ensures
            h == self.code_of(),
    ;
}

/// A player of the game played on boards of type `B`.
pub trait Player<B: Board> {
    /// The play function is the main mechanic for the AIs: the player sees the
    /// whole board of an open game and answers with a legal move.
    fn play(&mut self, b: &B) -> (c: B::Coordinate)
        requires
            b.inv(),
            b.status() is Undecided,
        ensures
            b.moves().contains(c),
    ;
}

/// A player that can play with a clock. `time_remaining` is the time, in
/// nanoseconds, that the player has left for all its remaining moves; how to
/// budget it is up to the player.
pub trait BlitzPlayer<B: Board> {
    fn blitz(&mut self, b: &B, time_remaining: u128) -> (c: B::Coordinate)
        requires
            b.inv(),
            b.status() is Undecided,
        ensures
            b.moves().contains(c),
    ;
}

/// The side that makes move number `k` of a game, counted from 0: naughts
/// make the first move, and the sides take turns.
pub open spec fn mover_of(k: nat) -> PlayerMark {
    if k % 2 == 0 {
        PlayerMark::Naught
    } else {
        PlayerMark::Cross
    }
}

/// The position after the moves `h` were made in turn from the start.
pub open spec fn position_after<B: Board>(h: Seq<B::Coordinate>) -> B
    decreases h.len(),
{
    if h.len() == 0 {
        B::initial()
    } else {
        position_after::<B>(h.drop_last()).placed(h.last(), mover_of((h.len() - 1) as nat))
    }
}

/// The moves `h` are a game as far as it went: each move was legal in the
/// open position in which it was made.
pub open spec fn is_game<B: Board>(h: Seq<B::Coordinate>) -> bool
    decreases h.len(),
{
    h.len() == 0 || {
        let before = position_after::<B>(h.drop_last());
        &&& is_game::<B>(h.drop_last())
        &&& before.status() is Undecided
        &&& before.moves().contains(h.last())
    }
}

/// Every position of a game is consistent.
pub proof fn game_positions_are_consistent<B: Board>(h: Seq<B::Coordinate>)
    requires
        is_game::<B>(h),
    ensures
        position_after::<B>(h).inv(),
    decreases h.len(),
{
    if h.len() == 0 {
        B::initial_is_consistent();
    } else {
        game_positions_are_consistent::<B>(h.drop_last());
        position_after::<B>(h.drop_last()).placed_is_consistent(h.last(), mover_of((h.len() - 1) as nat));
    }
}

/// Lets two players play a game from the start to the end. Naughts move
/// first. The final position is the end of a game of legal moves made in
/// turn, and the outcome is the one that it shows.
pub fn run_game<B: Board, N: Player<B>, C: Player<B>>(naughts: N, crosses: C) -> (r: (GameEndStatus, B))
    ensures
        exists|h: Seq<B::Coordinate>| is_game::<B>(h) && r.1 == #[trigger] position_after::<B>(h),
        r.1.inv(),
        end_status_of(r.1.status()) == Some(r.0),
{
    let mut naughts = naughts;
    let mut crosses = crosses;
    let mut current_player = PlayerMark::Naught;
    let mut board = B::new_game();
    let ghost mut h: Seq<B::Coordinate> = Seq::empty();
    proof {
        B::initial_is_consistent();
    }
    while !board.game_is_over()
        invariant
            board.inv(),
            is_game::<B>(h),
            board == position_after::<B>(h),
            current_player == mover_of(h.len()),
        decreases board.room(),
    {
        let action = match current_player {
            PlayerMark::Naught => naughts.play(&board),
            PlayerMark::Cross => crosses.play(&board),
        };
        proof {
            board.placed_is_consistent(action, current_player);
            assert(h.push(action).drop_last() =~= h);
            h = h.push(action);
        }
        board.place_mark(action, current_player);
        current_player = current_player.other();
    }
    (end_status(board.game_status()), board)
}

} // verus!
