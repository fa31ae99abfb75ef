use vstd::prelude::*;

use crate::cell::CellState;

verus! {

/// One of the two players.
#[derive(Debug, Clone, Copy, PartialEq, Eq, Hash, Structural)]
pub enum Player {
    Cross,
    Circle,
}

impl Player {
    /// The mark this player leaves on the grid; never `CellState::Empty`.
    pub open spec fn mark(self) -> CellState {
        match self {
            Player::Cross => CellState::Cross,
            Player::Circle => CellState::Circle,
        }
    }

    /// The opposing player.
    pub fn other(&self) -> (r: Player)
        ensures
            *self == Player::Cross ==> r == Player::Circle,
            *self == Player::Circle ==> r == Player::Cross,
    {
        match self {
            Player::Cross => Player::Circle,
            Player::Circle => Player::Cross,
        }
    }
}

/// The player whose mark a non-empty cell carries; the empty cell is mapped
/// arbitrarily and is never consulted for it.
pub open spec fn player_of(s: CellState) -> Player {
    match s {
        CellState::Circle => Player::Circle,
        _ => Player::Cross,
    }
}

} // verus!
