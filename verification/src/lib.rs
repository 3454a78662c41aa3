//! A tic-tac-toe core, verified with Verus: a 3x3 board state with win
//! detection, and a depth-limited minimax search with alpha-beta pruning that
//! selects the optimal move for a given side.
//!
//! The board lives in [`engine`]; the search lives in [`brain`]. Screen
//! rendering and input handling are left to the surrounding program, which
//! talks to the core through plain queries and a single mutation.

pub mod brain;
pub mod engine;
