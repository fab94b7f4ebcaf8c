//! Game-tree search over two-player board games: minimax, alpha-beta pruning
//! and Monte Carlo tree search, generic over the board they play on. The
//! boards are tic-tac-toe, ultimate tic-tac-toe and connect four; a small
//! game of blackjack shows the tree search on a game of chance.

pub mod base;
pub mod black_jack;
pub mod chance;
pub mod clock;
pub mod game;
pub mod player;
pub mod score;
