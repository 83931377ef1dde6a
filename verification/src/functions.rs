//! The turns of a client: what it asks of the server, and what it does with each
//! message that the server sends.

use crate::enums::{
    Action, ActionError, Challenge, Hint, Message, RegisterTeamResult, SubscribePlayerResult,
};
use crate::errors::CodecError;
use crate::game_engine::{
    cells_after_radar, chosen_move, inside, neighbor, Direction, GameState, GlobalCell,
    GlobalMap, GlobalMapModel, Player,
};
use crate::radar_view::{decode_radarview, radar_decoding, Cell};
use crate::structs::{RegisterTeam, SubscribePlayer};
use crate::team_secrets::secret_sum;
use vstd::prelude::*;

verus! {

/// The digit that stands for a number below ten.
pub open spec fn digit_of(d: int) -> char {
    (d + 48) as char
}

/// The decimal form of a number, without leading zeros.
pub open spec fn decimal(n: nat) -> Seq<char>
    decreases n,
{
    if n < 10 {
        seq![digit_of(n as int)]
    } else {
        decimal(n / 10).push(digit_of((n % 10) as int))
    }
}

/// Writes a number in decimal.
pub fn decimal_text(n: u64) -> (text: String)
    ensures
        text@ == decimal(n as nat),
{
    let mut digits: Vec<char> = Vec::new();
    let mut rest: u64 = n;
    digits.push(((rest % 10) as u8 + 48) as char);
    rest = rest / 10;
    while rest > 0
        invariant
            digits@.len() > 0,
            decimal(n as nat) == (if rest > 0 {
                decimal(rest as nat) + digits@.reverse()
            } else {
                digits@.reverse()
            }),
        decreases rest,
    {
        digits.push(((rest % 10) as u8 + 48) as char);
        rest = rest / 10;
    }
    let mut text = String::new();
    let mut k: usize = digits.len();
    while k > 0
        invariant
            k <= digits@.len(),
            text@ == digits@.reverse().subrange(0, digits@.len() - k),
        decreases k,
    {
        k -= 1;
        text.push(digits[k]);
    }
    text
}

/// The request to register a team of that name.
pub fn register_team_request(name: &str) -> (request: Message)
    ensures
        request matches Message::RegisterTeam(team) && team.name@ == name@,
{
    Message::RegisterTeam(RegisterTeam { name: name.to_owned() })
}

/// Reads the answer to the registration of a team: the result that the message
/// holds, and none where the message is of another kind.
pub fn register_team_reply(reply: Message) -> (result: Option<RegisterTeamResult>)
    ensures
        match reply {
            Message::RegisterTeamResult(held) => result == Some(held),
            _ => result is None,
        },
{
    match reply {
        Message::RegisterTeamResult(result) => Some(result),
        _ => None,
    }
}

/// The request to register a player of that name with the team of the token.
pub fn register_player_request(name: &str, token: &String) -> (request: Message)
    ensures
        request matches Message::SubscribePlayer(player) && player.name@ == name@
            && player.registration_token@ == token@,
{
    Message::SubscribePlayer(
        SubscribePlayer { name: name.to_owned(), registration_token: token.clone() },
    )
}

/// Reads the answer to the registration of a player: whether the player may
/// play, and none where the message is of another kind.
pub fn register_player_reply(reply: &Message) -> (registered: Option<bool>)
    ensures
        registered == (match *reply {
            Message::SubscribePlayerResult(SubscribePlayerResult::Accepted) => Some(true),
            Message::SubscribePlayerResult(SubscribePlayerResult::Rejected(_)) => Some(false),
            _ => None,
        }),
{
    match reply {
        Message::SubscribePlayerResult(SubscribePlayerResult::Accepted) => Some(true),
        Message::SubscribePlayerResult(SubscribePlayerResult::Rejected(_)) => Some(false),
        _ => None,
    }
}

/// The message that tells the server of a move.
pub fn send_move(direction: &Direction) -> (message: Message)
    ensures
        is_move(Some(message), *direction),
{
    Message::Action(Action::MoveTo(*direction))
}

/// The message is the move in that direction.
pub open spec fn is_move(message: Option<Message>, direction: Direction) -> bool {
    message matches Some(Message::Action(Action::MoveTo(d))) && d == direction
}

/// The message is the answer to a challenge with that number, in decimal.
pub open spec fn is_answer(message: Option<Message>, value: int) -> bool {
    message matches Some(Message::Action(Action::SolveChallenge { answer })) && value >= 0
        && answer@ == decimal(value as nat)
}

/// The answer to the running challenge: the sum of the secrets of the team,
/// reduced by the modulus.
pub open spec fn challenge_answer(secrets: Map<Seq<char>, u64>, modulus: u64) -> int {
    secret_sum(secrets) % (modulus as int)
}

/// The message that answers the running challenge, whose modulus is not 0.
pub fn resolve_secret_sum_challenge(game_state: &GameState) -> (message: Message)
    requires
        game_state.modulo != 0,
    ensures
        is_answer(Some(message), challenge_answer(game_state.team_secrets@, game_state.modulo)),
{
    let answer = game_state.calculate_secret_sum_modulo(game_state.modulo);
    Message::Action(Action::SolveChallenge { answer: decimal_text(answer) })
}

/// The map after a turn in which a radar view of those cells was received: the
/// cells are brought onto the map, the move is chosen on it, and the move is
/// made.
pub open spec fn map_after_radar(map: GlobalMapModel, radar_cells: Seq<Cell>) -> GlobalMapModel {
    let cells = cells_after_radar(map.cells, map.player_pos, radar_cells, 9);
    let direction = chosen_move(cells, map.player_pos, map.player_direction);
    let target = neighbor(map.player_pos, direction);
    GlobalMapModel {
        cells: cells.insert(map.player_pos, GlobalCell::Open).insert(target, GlobalCell::Player),
        player_pos: target,
        player_direction: direction,
    }
}

/// A message asks for an answer to a challenge: it is a challenge, or the
/// refusal of an answer.
pub open spec fn asks_for_answer(message: Message) -> bool {
    message is Challenge || message == Message::ActionError(ActionError::InvalidChallengeSolution)
}

/// The modulus that an answer is computed with, once the message has been
/// received: that of the challenge, if the message is one, else the one of the
/// running challenge.
pub open spec fn modulus_after(modulus: u64, message: Message) -> u64 {
    match message {
        Message::Challenge(Challenge::SecretSumModulo(m)) => m,
        _ => modulus,
    }
}

/// The secrets of the team once the message has been received: a secret that
/// the message holds is that of the player who received it.
pub open spec fn secrets_after(
    secrets: Map<Seq<char>, u64>,
    name: Seq<char>,
    message: Message,
) -> Map<Seq<char>, u64> {
    match message {
        Message::Hint(Hint::Secret(secret)) => secrets.insert(name, secret),
        _ => secrets,
    }
}

/// The turn on a message can be taken: for a radar view, the player does not
/// stand on the border of what 32-bit coordinates can hold; for a message that
/// asks for an answer, the modulus of the answer is not 0.
pub open spec fn can_play(modulus: u64, map: GlobalMapModel, response: Message) -> bool {
    &&& response is RadarView ==> inside(map.player_pos)
    &&& asks_for_answer(response) ==> modulus_after(modulus, response) != 0
}

/// Tells whether the turn on a message can be taken.
pub fn is_playable(game_state: &GameState, map: &GlobalMap, response: &Message) -> (yes: bool)
    ensures
        yes == can_play(game_state.modulo, map@, *response),
{
    match response {
        Message::RadarView(_) => map.is_inside(),
        Message::Challenge(Challenge::SecretSumModulo(modulo)) => *modulo != 0,
        Message::ActionError(ActionError::InvalidChallengeSolution) => game_state.modulo != 0,
        _ => true,
    }
}

/// Takes the turn of a player on a message of the server, and gives the message
/// to send back, if there is one.
///
/// A radar view is brought onto the map, and the next move is chosen, made on
/// the map and sent; a radar view that cannot be decoded is an error and
/// changes nothing. A challenge sets the modulus and is answered. A secret is
/// recorded for the player. The refusal of an answer is met with a new answer.
/// Nothing else is replied to.
///
/// The turn can be taken only where the arithmetic of it is defined.
pub fn play(
    player: &Player,
    game_state: &mut GameState,
    map: &mut GlobalMap,
    response: &Message,
) -> (reply: Result<Option<Message>, CodecError>)
    requires
        can_play(old(game_state).modulo, old(map)@, *response),
    ensures
        final(game_state).modulo == modulus_after(old(game_state).modulo, *response),
        final(game_state).team_secrets@ == secrets_after(
            old(game_state).team_secrets@,
            player.name@,
            *response,
        ),
        match *response {
            Message::RadarView(encoded) => match radar_decoding(encoded@) {
                Ok(view) => final(map)@ == map_after_radar(old(map)@, view.cells) && reply is Ok
                    && is_move(reply.unwrap(), final(map)@.player_direction),
                Err(e) => final(map)@ == old(map)@ && reply == Err::<Option<Message>, CodecError>(
                    e,
                ),
            },
            _ => final(map)@ == old(map)@ && reply is Ok && (if asks_for_answer(*response) {
                is_answer(
                    reply.unwrap(),
                    challenge_answer(final(game_state).team_secrets@, final(game_state).modulo),
                )
            } else {
                reply.unwrap() is None
            }),
        },
{
    match response {
        Message::RadarView(encoded_string) => {
            let radar = match decode_radarview(encoded_string.as_str()) {
                Ok(radar) => radar,
                Err(e) => {
                    return Err(e);
                },
            };
            map.update_from_radar(&radar);
            let direction = map.next_move(map.player_direction);
            map.move_player(direction);
            Ok(Some(send_move(&direction)))
        },
        Message::Challenge(challenge) => {
            match challenge {
                Challenge::SecretSumModulo(modulo) => {
                    game_state.modulo = *modulo;
                    Ok(Some(resolve_secret_sum_challenge(game_state)))
                },
            }
        },
        Message::Hint(hint) => {
            match hint {
                Hint::Secret(secret) => {
                    game_state.update_secret(player.name.as_str(), *secret);
                },
                _ => {},
            }
            Ok(None)
        },
        Message::ActionError(error) => {
            match error {
                ActionError::InvalidChallengeSolution => Ok(
                    Some(resolve_secret_sum_challenge(game_state)),
                ),
                _ => Ok(None),
            }
        },
        _ => Ok(None),
    }
}

} // verus!
