//! A verified minesweeper game engine.
//!
//! The engine is a pure state machine over a rectangular grid: lazy mine
//! placement on the first reveal (the first click and its neighborhood are
//! guaranteed mine-free), cascading reveal of zero-adjacency regions,
//! flagging, and win/loss detection. A presentation layer renders the state
//! and forwards player actions; it is not part of this crate's logic.

pub mod counting;
pub mod game;
pub mod laws;

pub use crate::game::CellState;
pub use crate::game::Difficulty;
pub use crate::game::GameState;
pub use crate::game::GameStatus;
