//! Column-oriented datasets with filter / group-by / aggregate queries, and the
//! decision logic of two tic-tac-toe search agents.

pub mod text;
pub mod dataset;
pub mod query;
pub mod solution;
pub mod board;
pub mod heuristic;
pub mod search;
pub mod agent3x3;
pub mod agent5x5;
pub mod laws;
