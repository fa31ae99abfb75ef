use vstd::prelude::*;

verus! {

/// The one way construction can fail: the requested winning chain is longer
/// than the board's side, so no chain could ever fit on the grid.
#[derive(Debug, Clone, Copy, PartialEq, Eq, Structural)]
pub enum BoardInitializationError {
    ChainLargerThanBoard { board_size: usize, chain_size: usize },
}

} // verus!
