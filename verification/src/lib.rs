//! A game-tree search core for two-player games of perfect information:
//! Monte-Carlo simulation guided by a policy and value oracle, with exact
//! propagation of proven wins, losses and draws.

pub mod fixed;
pub mod search;
pub mod target;
