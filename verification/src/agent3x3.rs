//! The exhaustive minimax agent for the 3x3 board: the decisions of a search node.

use vstd::prelude::*;
use crate::board::Player;
use crate::search::{BestMove, Move, best_after, improves, lemma_best_after_extreme};

verus! {

/// The agent that searches the whole game tree.
pub struct SolutionAgent {}

/// The children of a node: each move paired with the score of the position it leads to.
pub open spec fn children(moves: Seq<Move>, scores: Seq<i32>) -> Seq<(Move, i32)> {
    Seq::new(moves.len(), |i: int| (moves[i], scores[i]))
}

impl SolutionAgent {
    /// The answer at a finished game: its score, with a move that does not matter.
    pub fn finished(score: i32) -> (r: (i32, usize, usize))
        ensures
            r == (score, 0usize, 0usize),
    {
        (score, 0, 0)
    }

    /// The answer at a node where `player` moves, from the moves and the scores of the
    /// positions they lead to: the best score for `player` and the first move reaching it.
    pub fn best_reply(player: Player, moves: &Vec<Move>, scores: &Vec<i32>) -> (r: (i32, usize, usize))
        requires
            moves@.len() > 0,
            scores@.len() == moves@.len(),
        ensures
            (r.0, (r.1, r.2)) == best_after(player, moves@[0], children(moves@, scores@)),
            forall|i: int| 0 <= i < scores@.len() ==> !improves(player, #[trigger] scores@[i], r.0),
            exists|i: int|
                0 <= i < scores@.len() && scores@[i] == r.0 && moves@[i] == (r.1, r.2) && forall|j: int|
                    0 <= j < i ==> #[trigger] scores@[j] != r.0,
    {
        let ghost seen = children(moves@, scores@);
        // the first move is the fallback: a game that is not over has at least one move
        let mut best = BestMove::new(player, moves[0]);
        let n = moves.len();
        for k in 0..n
            invariant
                n == moves@.len(),
                n == scores@.len(),
                seen == children(moves@, scores@),
                best.player() == player,
                (best.score(), best.chosen()) == best_after(player, moves@[0], seen.take(k as int)),
        {
            best.consider(moves[k], scores[k]);
            proof {
                assert(seen.take(k + 1).drop_last() =~= seen.take(k as int));
                assert(seen.take(k + 1).last() == (moves@[k as int], scores@[k as int]));
            }
        }
        proof {
            assert(seen.take(n as int) =~= seen);
            lemma_best_after_extreme(player, moves@[0], seen);
            let r = best_after(player, moves@[0], seen);
            assert forall|i: int| 0 <= i < scores@.len() implies !improves(player, #[trigger] scores@[i], r.0) by {
                assert(seen[i].1 == scores@[i]);
            }
            let i = choose|i: int|
                0 <= i < seen.len() && seen[i].1 == r.0 && seen[i].0 == r.1 && forall|j: int|
                    0 <= j < i ==> #[trigger] seen[j].1 != r.0;
            assert forall|j: int| 0 <= j < i implies #[trigger] scores@[j] != r.0 by {
                assert(seen[j].1 == scores@[j]);
            }
        }
        best.result()
    }
}

} // verus!
