//! A generalized N-in-a-row board game core: a square grid of cells, a
//! configurable winning-chain length, precomputed per-direction eligibility
//! masks, and a deterministic victory scan, all with verified contracts.

pub mod board;
pub mod cell;
pub mod errors;
pub mod geometry;
pub mod laws;
pub mod player;

pub use board::Board;
pub use board::VictoryInfo;
pub use cell::CellState;
pub use errors::BoardInitializationError;
pub use geometry::Direction;
pub use player::Player;
