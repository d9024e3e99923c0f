//! Move-decision core for a turn-based multi-agent grid survival game.
//!
//! The library simulates a board of snakes (movement, feeding, death rules),
//! explores candidate moves with a depth-bounded two-agent minimax search,
//! and selects a direction to answer each turn with.  Transport and
//! serialization live outside the library.

pub mod board;
pub mod coord;
pub mod engine;
pub mod game_state;
pub mod logic;
pub mod snake;
