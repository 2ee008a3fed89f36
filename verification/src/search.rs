//! The decisions of a minimax search node: which child is best so far, and, with
//! alpha-beta bounds, when the remaining children can be skipped.

use vstd::prelude::*;
use crate::board::Player;

verus! {

/// A move: row and column of a square.
pub type Move = (usize, usize);

/// The score a node starts from before any child is seen: the worst one for its player.
pub open spec fn initial_score(p: Player) -> i32 {
    match p {
        Player::X => i32::MIN,
        Player::O => i32::MAX,
    }
}

/// `score` is strictly better than `best` for player `p`.
pub open spec fn improves(p: Player, score: i32, best: i32) -> bool {
    match p {
        Player::X => score > best,
        Player::O => score < best,
    }
}

/// The best score and move after seeing the children `seen` (move, score) in order,
/// starting from `first` with the worst score; a later child replaces the best one only
/// when it is strictly better.
pub open spec fn best_after(p: Player, first: Move, seen: Seq<(Move, i32)>) -> (i32, Move)
    decreases seen.len(),
{
    if seen.len() == 0 {
        (initial_score(p), first)
    } else {
        let prev = best_after(p, first, seen.drop_last());
        let last = seen.last();
        if improves(p, last.1, prev.0) {
            (last.1, last.0)
        } else {
            prev
        }
    }
}

/// After children `seen`, starting from the first child's move, the best score is one no
/// child improves on, and the move is that of the first child reaching it.
pub proof fn lemma_best_after_extreme(p: Player, first: Move, seen: Seq<(Move, i32)>)
    requires
        seen.len() > 0,
        first == seen[0].0,
    ensures
        forall|i: int| 0 <= i < seen.len() ==> !improves(p, #[trigger] seen[i].1, best_after(p, first, seen).0),
        exists|i: int|
            0 <= i < seen.len() && seen[i].1 == best_after(p, first, seen).0 && seen[i].0 == best_after(
                p,
                first,
                seen,
            ).1 && forall|j: int| 0 <= j < i ==> #[trigger] seen[j].1 != best_after(p, first, seen).0,
    decreases seen.len(),
{
    let r = best_after(p, first, seen);
    if seen.len() == 1 {
        assert(seen.drop_last().len() == 0);
        assert(best_after(p, first, seen.drop_last()) == (initial_score(p), first));
        assert(seen[0].1 == r.0 && seen[0].0 == r.1);
    } else {
        let prefix = seen.drop_last();
        lemma_best_after_extreme(p, first, prefix);
        let prev = best_after(p, first, prefix);
        let last = seen.last();
        let k = seen.len() - 1;
        if improves(p, last.1, prev.0) {
            assert forall|i: int| 0 <= i < seen.len() implies !improves(p, #[trigger] seen[i].1, r.0) by {
                if i < k {
                    assert(prefix[i] == seen[i]);
                }
            }
            assert forall|j: int| 0 <= j < k implies #[trigger] seen[j].1 != r.0 by {
                assert(prefix[j] == seen[j]);
                assert(!improves(p, prefix[j].1, prev.0));
            }
            assert(seen[k].1 == r.0 && seen[k].0 == r.1);
        } else {
            assert forall|i: int| 0 <= i < seen.len() implies !improves(p, #[trigger] seen[i].1, r.0) by {
                if i < k {
                    assert(prefix[i] == seen[i]);
                }
            }
            let i = choose|i: int|
                0 <= i < prefix.len() && prefix[i].1 == prev.0 && prefix[i].0 == prev.1 && forall|j: int|
                    0 <= j < i ==> #[trigger] prefix[j].1 != prev.0;
            assert(seen[i] == prefix[i]);
            assert forall|j: int| 0 <= j < i implies #[trigger] seen[j].1 != r.0 by {
                assert(prefix[j] == seen[j]);
            }
        }
    }
}

/// The best child seen so far at a node where `player` moves.
pub struct BestMove {
    player: Player,
    best_score: i32,
    best_move: Move,
}

impl BestMove {
    /// The player who moves at the node.
    pub closed spec fn player(self) -> Player {
        self.player
    }

    /// The best score seen so far.
    pub closed spec fn score(self) -> i32 {
        self.best_score
    }

    /// The move that gave the best score.
    pub closed spec fn chosen(self) -> Move {
        self.best_move
    }

    /// A node of `player` that has seen no child yet; `first_move` is its fallback.
    pub fn new(player: Player, first_move: Move) -> (b: BestMove)
        ensures
            b.player() == player,
            b.score() == initial_score(player),
            b.chosen() == first_move,
    {
        // X starts at MIN and O at MAX so that any real score replaces the start value
        let best_score = match player {
            Player::X => i32::MIN,
            Player::O => i32::MAX,
        };
        BestMove { player, best_score, best_move: first_move }
    }

    /// Takes the child `m` with score `score` into account.
    pub fn consider(&mut self, m: Move, score: i32)
        ensures
            final(self).player() == old(self).player(),
            improves(old(self).player(), score, old(self).score()) ==> final(self).score() == score
                && final(self).chosen() == m,
            !improves(old(self).player(), score, old(self).score()) ==> final(self).score() == old(
                self,
            ).score() && final(self).chosen() == old(self).chosen(),
    {
        match self.player {
            Player::X => {
                if score > self.best_score {
                    self.best_score = score;
                    self.best_move = m;
                }
            },
            Player::O => {
                if score < self.best_score {
                    self.best_score = score;
                    self.best_move = m;
                }
            },
        }
    }

    /// The best score and the row and column of its move.
    pub fn result(&self) -> (r: (i32, usize, usize))
        ensures
            r == (self.score(), self.chosen().0, self.chosen().1),
    {
        (self.best_score, self.best_move.0, self.best_move.1)
    }
}

/// The state of an alpha-beta node: best score, best move, `alpha`, `beta`.
pub type FrameState = (i32, Move, i32, i32);

/// The state of a node of `p` before any child, searched within `alpha` and `beta`.
pub open spec fn start_state(p: Player, alpha: i32, beta: i32, first: Move) -> FrameState {
    (initial_score(p), first, alpha, beta)
}

/// The state after taking the child `m` with score `score` into account: the best child
/// as in [`best_after`], and the bound of the player who moves raised (for `X`) or
/// lowered (for `O`) to the best score.
pub open spec fn frame_step(p: Player, st: FrameState, m: Move, score: i32) -> FrameState {
    let best = if improves(p, score, st.0) { score } else { st.0 };
    let chosen = if improves(p, score, st.0) { m } else { st.1 };
    let alpha = if p == Player::X && best > st.2 { best } else { st.2 };
    let beta = if p == Player::O && best < st.3 { best } else { st.3 };
    (best, chosen, alpha, beta)
}

/// The state after the first `k` children `(move, score)`.
pub open spec fn frame_after(p: Player, st: FrameState, children: Seq<(Move, i32)>, k: int) -> FrameState
    decreases k,
{
    if k <= 0 {
        st
    } else {
        frame_step(p, frame_after(p, st, children, k - 1), children[k - 1].0, children[k - 1].1)
    }
}

/// `score` is what a fail-soft search of a position of true value `value` may return
/// within the window (`alpha`, `beta`): exact inside the window, an upper bound of the
/// value at or below `alpha`, a lower bound at or above `beta`.
pub open spec fn fail_soft(score: i32, value: int, alpha: i32, beta: i32) -> bool {
    &&& (alpha < score < beta ==> value == score)
    &&& (score <= alpha ==> value <= score)
    &&& (score >= beta ==> value >= score)
}

/// The search of a node takes the first `k` children and stops there: no earlier child
/// made `alpha >= beta`, and the `k`-th did unless it was the last.
pub open spec fn stops_at(p: Player, st: FrameState, children: Seq<(Move, i32)>, k: int) -> bool {
    &&& 1 <= k <= children.len()
    &&& forall|j: int| 1 <= j < k ==> #[trigger] frame_after(p, st, children, j).2 < frame_after(p, st, children, j).3
    &&& k < children.len() ==> frame_after(p, st, children, k).2 >= frame_after(p, st, children, k).3
}

/// Every child taken was searched fail-soft within the window the node had when it was
/// searched.
pub open spec fn children_fail_soft(
    p: Player,
    st: FrameState,
    children: Seq<(Move, i32)>,
    values: Seq<int>,
    k: int,
) -> bool {
    forall|i: int|
        0 <= i < k ==> fail_soft(
            children[i].1,
            values[i],
            #[trigger] frame_after(p, st, children, i).2,
            frame_after(p, st, children, i).3,
        )
}

proof fn lemma_frame_invariant(
    p: Player,
    alpha: i32,
    beta: i32,
    children: Seq<(Move, i32)>,
    values: Seq<int>,
    j: int,
)
    requires
        alpha < beta,
        children.len() > 0,
        values.len() == children.len(),
        0 <= j <= children.len(),
        forall|l: int| 1 <= l < j ==> #[trigger] frame_after(p, start_state(p, alpha, beta, children[0].0), children, l).2
            < frame_after(p, start_state(p, alpha, beta, children[0].0), children, l).3,
        children_fail_soft(p, start_state(p, alpha, beta, children[0].0), children, values, j),
    ensures
        ({
            let st = frame_after(p, start_state(p, alpha, beta, children[0].0), children, j);
            &&& p == Player::X ==> {
                &&& st.3 == beta
                &&& st.2 == (if st.0 > alpha { st.0 } else { alpha })
                &&& forall|i: int| 0 <= i < j ==> children[i].1 <= st.0
                &&& forall|i: int| 0 <= i < j ==> children[i].1 >= beta || values[i] <= st.0
                &&& st.0 > alpha ==> exists|i: int|
                    0 <= i < j && children[i].1 == st.0 && values[i] >= st.0 && (st.0 < beta ==> values[i] == st.0)
            }
            &&& p == Player::O ==> {
                &&& st.2 == alpha
                &&& st.3 == (if st.0 < beta { st.0 } else { beta })
                &&& forall|i: int| 0 <= i < j ==> children[i].1 >= st.0
                &&& forall|i: int| 0 <= i < j ==> children[i].1 <= alpha || values[i] >= st.0
                &&& st.0 < beta ==> exists|i: int|
                    0 <= i < j && children[i].1 == st.0 && values[i] <= st.0 && (st.0 > alpha ==> values[i] == st.0)
            }
        }),
    decreases j,
{
    let st0 = start_state(p, alpha, beta, children[0].0);
    if j > 0 {
        assert forall|l: int| 1 <= l < j - 1 implies #[trigger] frame_after(p, st0, children, l).2 < frame_after(
            p,
            st0,
            children,
            l,
        ).3 by {}
        assert(children_fail_soft(p, st0, children, values, j - 1));
        lemma_frame_invariant(p, alpha, beta, children, values, j - 1);
        let prev = frame_after(p, st0, children, j - 1);
        let st = frame_after(p, st0, children, j);
        let s = children[j - 1].1;
        assert(fail_soft(s, values[j - 1], prev.2, prev.3));
        if j - 1 >= 1 {
            assert(prev.2 < prev.3);
        }
        if p == Player::X {
            assert forall|i: int| 0 <= i < j implies children[i].1 >= beta || values[i] <= st.0 by {
                if i < j - 1 {
                }
            }
            if st.0 > alpha {
                if st.0 != prev.0 {
                    assert(children[j - 1].1 == st.0);
                } else {
                    let i = choose|i: int|
                        0 <= i < j - 1 && children[i].1 == prev.0 && values[i] >= prev.0 && (prev.0 < beta
                            ==> values[i] == prev.0);
                    assert(0 <= i < j);
                }
            }
        } else {
            assert forall|i: int| 0 <= i < j implies children[i].1 <= alpha || values[i] >= st.0 by {
                if i < j - 1 {
                }
            }
            if st.0 < beta {
                if st.0 != prev.0 {
                    assert(children[j - 1].1 == st.0);
                } else {
                    let i = choose|i: int|
                        0 <= i < j - 1 && children[i].1 == prev.0 && values[i] <= prev.0 && (prev.0 > alpha
                            ==> values[i] == prev.0);
                    assert(0 <= i < j);
                }
            }
        }
    }
}

/// One alpha-beta node is sound. Search the children of a node of `p` within the window
/// (`alpha`, `beta`), each child fail-soft within the window the node had at that moment,
/// stopping after the `k`-th child as the search does. Then the node's score `r` is
/// fail-soft for the node's true value (the largest child value for `X`, the smallest for
/// `O`): exact strictly inside the window, an upper bound at or below `alpha`, a lower
/// bound at or above `beta`.
pub proof fn lemma_alpha_beta_node(
    p: Player,
    alpha: i32,
    beta: i32,
    children: Seq<(Move, i32)>,
    values: Seq<int>,
    k: int,
)
    requires
        alpha < beta,
        children.len() > 0,
        values.len() == children.len(),
        stops_at(p, start_state(p, alpha, beta, children[0].0), children, k),
        children_fail_soft(p, start_state(p, alpha, beta, children[0].0), children, values, k),
    ensures
        ({
            let r = frame_after(p, start_state(p, alpha, beta, children[0].0), children, k).0;
            let n = children.len() as int;
            &&& alpha < r < beta ==> k == n && (exists|i: int| 0 <= i < n && values[i] == r) && (forall|i: int|
                0 <= i < n ==> if p == Player::X {
                    values[i] <= r
                } else {
                    values[i] >= r
                })
            &&& r <= alpha ==> if p == Player::X {
                forall|i: int| 0 <= i < n ==> values[i] <= r
            } else {
                exists|i: int| 0 <= i < n && values[i] <= r
            }
            &&& r >= beta ==> if p == Player::X {
                exists|i: int| 0 <= i < n && values[i] >= r
            } else {
                forall|i: int| 0 <= i < n ==> values[i] >= r
            }
        }),
{
    let st0 = start_state(p, alpha, beta, children[0].0);
    lemma_frame_invariant(p, alpha, beta, children, values, k);
    let st = frame_after(p, st0, children, k);
    let r = st.0;
    let n = children.len() as int;
    if p == Player::X {
        if r < beta {
            assert(k == n);
        }
    } else {
        if r > alpha {
            assert(k == n);
        }
    }
}

/// An alpha-beta search node: the best child so far, the score `alpha` that `X` is
/// already assured of and the score `beta` that `O` is already assured of.
pub struct SearchFrame {
    best: BestMove,
    alpha: i32,
    beta: i32,
}

impl SearchFrame {
    /// The best child seen so far.
    pub closed spec fn best(self) -> BestMove {
        self.best
    }

    /// The score `X` is assured of.
    pub closed spec fn alpha_bound(self) -> i32 {
        self.alpha
    }

    /// The score `O` is assured of.
    pub closed spec fn beta_bound(self) -> i32 {
        self.beta
    }

    /// The node's best score, best move, `alpha` and `beta`.
    pub open spec fn state(self) -> FrameState {
        (self.best().score(), self.best().chosen(), self.alpha_bound(), self.beta_bound())
    }

    /// A node of `player` searched within the bounds `alpha` and `beta`, with
    /// `first_move` as its fallback move.
    pub fn new(player: Player, alpha: i32, beta: i32, first_move: Move) -> (f: SearchFrame)
        ensures
            f.best().player() == player,
            f.best().score() == initial_score(player),
            f.best().chosen() == first_move,
            f.alpha_bound() == alpha,
            f.beta_bound() == beta,
            f.state() == start_state(player, alpha, beta, first_move),
    {
        SearchFrame { best: BestMove::new(player, first_move), alpha, beta }
    }

    /// The bound `alpha` to search the next child with.
    pub fn alpha(&self) -> (a: i32)
        ensures
            a == self.alpha_bound(),
    {
        self.alpha
    }

    /// The bound `beta` to search the next child with.
    pub fn beta(&self) -> (b: i32)
        ensures
            b == self.beta_bound(),
    {
        self.beta
    }

    /// Takes the child `m` with score `score` into account, tightens the bound of the
    /// player who moves, and tells whether the remaining children can be skipped: the
    /// opponent would never let the game reach this node once `alpha >= beta`.
    pub fn absorb(&mut self, m: Move, score: i32) -> (prune: bool)
        ensures
            final(self).best().player() == old(self).best().player(),
            improves(old(self).best().player(), score, old(self).best().score())
                ==> final(self).best().score() == score && final(self).best().chosen() == m,
            !improves(old(self).best().player(), score, old(self).best().score())
                ==> final(self).best().score() == old(self).best().score()
                && final(self).best().chosen() == old(self).best().chosen(),
            final(self).alpha_bound() == (if old(self).best().player() == Player::X
                && final(self).best().score() > old(self).alpha_bound() {
                final(self).best().score()
            } else {
                old(self).alpha_bound()
            }),
            final(self).beta_bound() == (if old(self).best().player() == Player::O
                && final(self).best().score() < old(self).beta_bound() {
                final(self).best().score()
            } else {
                old(self).beta_bound()
            }),
            final(self).alpha_bound() >= old(self).alpha_bound(),
            final(self).beta_bound() <= old(self).beta_bound(),
            prune == (final(self).alpha_bound() >= final(self).beta_bound()),
            final(self).state() == frame_step(old(self).best().player(), old(self).state(), m, score),
    {
        self.best.consider(m, score);
        match self.best.player {
            Player::X => {
                // alpha is the best score X has found; X never accepts less
                if self.best.best_score > self.alpha {
                    self.alpha = self.best.best_score;
                }
            },
            Player::O => {
                // beta is the best score O has found; O never accepts more
                if self.best.best_score < self.beta {
                    self.beta = self.best.best_score;
                }
            },
        }
        self.alpha >= self.beta
    }

    /// The best score and the row and column of its move.
    pub fn result(&self) -> (r: (i32, usize, usize))
        ensures
            r == (self.best().score(), self.best().chosen().0, self.best().chosen().1),
    {
        self.best.result()
    }
}

} // verus!
