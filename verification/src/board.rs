//! The pieces of a tic-tac-toe board as the search agents read them.

use vstd::prelude::*;

verus! {

/// The content of one square of a board.
#[derive(Clone, Copy, PartialEq, Eq, Structural, Debug)]
pub enum Cell {
    X,
    O,
    Empty,
    Wall,
}

/// A player: `X` maximises the score, `O` minimises it.
#[derive(Clone, Copy, PartialEq, Eq, Structural, Debug)]
pub enum Player {
    X,
    O,
}

impl Player {
    /// The other player.
    pub fn flip(&self) -> (p: Player)
        ensures
            p != *self,
    {
        match self {
            Player::X => Player::O,
            Player::O => Player::X,
        }
    }
}

/// The rows of a board as sequences of cells.
pub open spec fn grid_view(cells: Seq<Vec<Cell>>) -> Seq<Seq<Cell>> {
    cells.map_values(|r: Vec<Cell>| r@)
}

} // verus!
