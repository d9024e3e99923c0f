//! Snapshot of the externally defined per-turn state document.
//!
//! These types mirror the request document the collaborator parses each
//! turn.  The transport layer deserializes into its own copies of them and
//! hands the plain values over; the baseline selector reads them directly.

use std::collections::HashMap;
use vstd::prelude::*;

verus! {

/// Per-game metadata of the request document.
#[derive(Debug)]
pub struct Game {
    pub id: String,
    pub ruleset: HashMap<String, String>,
    pub timeout: u32,
}

/// The board as the request document describes it.
#[derive(Debug)]
pub struct Board {
    pub height: u32,
    pub width: u32,
    pub food: Vec<Coord>,
    pub snakes: Vec<Battlesnake>,
    pub hazards: Vec<Coord>,
}

/// An agent as the request document describes it.
#[derive(Debug)]
pub struct Battlesnake {
    pub id: String,
    pub name: String,
    pub health: u32,
    pub body: Vec<Coord>,
    pub head: Coord,
    pub length: u32,
    pub latency: String,
    /// Used in non-standard game modes.
    pub shout: Option<String>,
    /// Used in non-standard game modes.
    pub squad: Option<String>,
}

/// A grid point of the request document; coordinates are non-negative.
#[derive(Copy, Clone, PartialEq, Eq, Structural, Debug)]
pub struct Coord {
    pub x: u32,
    pub y: u32,
}

/// One whole per-turn request.
#[derive(Debug)]
pub struct GameState {
    pub game: Game,
    pub turn: u32,
    pub board: Board,
    pub you: Battlesnake,
}

} // verus!
