//! The messages that client and server exchange.

use crate::game_engine::Direction;
use crate::structs::{RegisterTeam, SubscribePlayer};
use vstd::prelude::*;

verus! {

/// Why a registration was refused.
#[derive(Debug, Clone, Copy, PartialEq, Eq, Structural)]
pub enum RegistrationError {
    AlreadyRegistered,
    InvalidName,
    InvalidRegistrationToken,
    TooManyPlayers,
}

/// The answer to the registration of a team.
#[derive(Debug)]
pub enum RegisterTeamResult {
    Accepted { expected_players: u8, registration_token: String },
    Rejected(RegistrationError),
}

/// The answer to the registration of a player.
#[derive(Debug, Clone, Copy, PartialEq, Eq, Structural)]
pub enum SubscribePlayerResult {
    Accepted,
    Rejected(RegistrationError),
}

/// What a player does in its turn.
#[derive(Debug)]
pub enum Action {
    MoveTo(Direction),
    SolveChallenge { answer: String },
}

/// Why the server refused an action.
#[derive(Debug, Clone, Copy, PartialEq, Eq, Structural)]
pub enum ActionError {
    CannotPassThroughWall,
    CannotPassThroughOpponent,
    NoRunningChallenge,
    SolveChallengeFirst,
    InvalidChallengeSolution,
}

/// A question that the server puts to a player.
#[derive(Debug, Clone, Copy, PartialEq, Eq, Structural)]
pub enum Challenge {
    SecretSumModulo(u64),
}

/// A piece of help from the server. The angle of the compass is kept as the bits
/// of its 32-bit floating-point value.
#[derive(Debug, Clone, Copy, PartialEq, Eq, Structural)]
pub enum Hint {
    RelativeCompass { angle_bits: u32 },
    GridSize { columns: u32, rows: u32 },
    Secret(u64),
}

/// A message: exactly one of the kinds that client and server exchange.
#[derive(Debug)]
pub enum Message {
    RegisterTeam(RegisterTeam),
    RegisterTeamResult(RegisterTeamResult),
    SubscribePlayer(SubscribePlayer),
    SubscribePlayerResult(SubscribePlayerResult),
    RadarView(String),
    Action(Action),
    Challenge(Challenge),
    ActionError(ActionError),
    Hint(Hint),
}

} // verus!
