//! The plain records that requests and maze descriptions are made of.

use vstd::prelude::*;

verus! {

/// The request to register a team.
#[derive(Debug)]
pub struct RegisterTeam {
    pub name: String,
}

/// The request to add a player to the team that holds the token.
#[derive(Debug)]
pub struct SubscribePlayer {
    pub name: String,
    pub registration_token: String,
}

/// A square of a maze, by column and row.
#[derive(Debug, Clone, Copy, PartialEq, Eq, Hash, Structural)]
pub struct Position {
    pub x: usize,
    pub y: usize,
}

/// The description of a maze: its size, its walls and its two ends.
#[derive(Debug)]
pub struct MazeData {
    pub width: usize,
    pub height: usize,
    pub walls: Vec<Position>,
    pub start: Position,
    pub end: Position,
}

} // verus!
