//! The players: the search engines and the random mover.

pub mod alpha_beta;
pub mod console;
pub mod game_tree;
pub mod heuristics;
pub mod mcts;
pub mod min_max;
pub mod qmap;
pub mod random;
pub mod ucb;

pub use alpha_beta::ABAi;
pub use console::ConsolePlayer;
pub use heuristics::{c4_heuristic, ttt_heuristic, uttt_heuristic};
pub use mcts::MctsAi;
pub use min_max::MinMaxAi;
pub use random::RandomAi;
