//! Decision engine for a turn-based snake game on a square grid: a Monte-Carlo
//! tree search over joint moves, the agents built around it, and a runner that
//! pits agents against each other and tallies the outcomes.

pub mod types;
pub mod board;
pub mod non_pushable_queue;
pub mod combinations;
pub mod stats;
pub mod selection;
pub mod moves;
pub mod mcts;
pub mod eval;
pub mod agent;
pub mod random_agent;
pub mod heuristic_agent;
pub mod minimax_agent;
pub mod chance;
pub mod runner;
pub mod state;
pub mod paranoid;
pub mod tree;
