//! The depth-limited alpha-beta agent for the 5x5 board: the decisions of a search node
//! and of the deepening loop around it.

use vstd::prelude::*;

verus! {

/// The agent that searches deeper and deeper until its time runs out.
pub struct SolutionAgent {}

/// What a search node does.
#[derive(Clone, Copy, PartialEq, Eq, Structural, Debug)]
pub enum NodeKind {
    /// The time is up: the search is abandoned.
    OutOfTime,
    /// The game is over: its score is exact.
    Finished,
    /// The depth limit is reached: the position is estimated.
    Horizon,
    /// The children are searched.
    Expand,
}

impl SolutionAgent {
    /// What a node does: give up when the time is up, else stop at a finished game, else
    /// estimate at the depth limit, else search the children.
    pub fn classify(out_of_time: bool, game_over: bool, depth: u32) -> (k: NodeKind)
        ensures
            k == (if out_of_time {
                NodeKind::OutOfTime
            } else if game_over {
                NodeKind::Finished
            } else if depth == 0 {
                NodeKind::Horizon
            } else {
                NodeKind::Expand
            }),
    {
        if out_of_time {
            return NodeKind::OutOfTime;
        }
        if game_over {
            return NodeKind::Finished;
        }
        // the depth limit is reached: estimate the board instead of searching on
        if depth == 0 {
            return NodeKind::Horizon;
        }
        NodeKind::Expand
    }

    /// The answer at a node that is not searched further: its score, with a move that
    /// does not matter.
    pub fn leaf(score: i32) -> (r: (i32, usize, usize))
        ensures
            r == (score, 0usize, 0usize),
    {
        (score, 0, 0)
    }

    /// After searching one more level: the answer to keep and whether to search deeper.
    /// A completed search replaces the answer and goes deeper unless the time is nearly
    /// up; an abandoned one keeps the previous answer and stops.
    pub fn after_depth(best: (i32, usize, usize), outcome: Option<(i32, usize, usize)>, nearly_up: bool) -> (r: (
        (i32, usize, usize),
        bool,
    ))
        ensures
            outcome matches Some(result) ==> r == (result, !nearly_up),
            outcome is None ==> r == (best, false),
    {
        match outcome {
            Some(result) => (result, !nearly_up),
            None => (best, false),
        }
    }
}

} // verus!
