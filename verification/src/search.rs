//! The search tree, how it grows, and how a move is chosen from it.

pub mod agent;
pub mod env;
pub mod eval;
pub mod laws;
pub mod mcts;
pub mod node;
