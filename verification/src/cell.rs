use vstd::prelude::*;

verus! {

/// The contents of one grid cell: unmarked, or marked by one of the two players.
#[derive(Debug, Clone, Copy, PartialEq, Eq, Hash, Structural)]
pub enum CellState {
    Empty,
    Cross,
    Circle,
}

} // verus!
