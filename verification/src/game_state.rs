//! Per-turn request state built around the simulation types.
//!
//! Unlike the snapshot in `engine`, this form of the request carries the
//! simulation's own `Board` and `Battlesnake`, so a turn parsed into it can
//! be ticked and searched directly.

use std::collections::HashMap;
use vstd::prelude::*;

verus! {

/// Per-game metadata of the request document.
#[derive(Debug)]
pub struct Game {
    pub id: String,
    pub ruleset: HashMap<String, String>,
    pub timeout: u32,
}

/// One whole per-turn request, over the simulation types.
#[derive(Debug)]
pub struct GameState {
    pub game: Game,
    pub turn: u32,
    pub board: crate::board::Board,
    pub you: crate::snake::Battlesnake,
}

} // verus!
