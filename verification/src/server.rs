//! The registry of the server: the teams, their tokens and their rosters.

use crate::enums::{Message, RegisterTeamResult, RegistrationError, SubscribePlayerResult};
use crate::game_engine::{Direction, Player, PlayerModel};
use crate::structs::SubscribePlayer;
use rand::Rng;
use vstd::prelude::*;
use vstd::string::StrSliceExecFns;

verus! {

/// The number of players that every team is made of.
pub const EXPECTED_PLAYERS: u8 = 3;

/// The length of the token that is made for a team.
pub const TOKEN_LENGTH: usize = 12;

/// A team: its name, the token that its players register with, and its roster.
#[derive(Debug)]
pub struct Team {
    players: Vec<Player>,
    name: String,
    token: String,
}

/// A team as plain values.
pub struct TeamModel {
    pub name: Seq<char>,
    pub token: Seq<char>,
    pub players: Seq<PlayerModel>,
}

/// The player that a registration adds: at the origin, without a secret, facing
/// front.
pub open spec fn new_player(name: Seq<char>) -> PlayerModel {
    PlayerModel { position: (0, 0), name, secret: None, direction: Direction::Front }
}

/// The players of a roster, each as plain values.
spec fn roster_of(players: Seq<Player>) -> Seq<PlayerModel> {
    Seq::new(players.len(), |i: int| players[i]@)
}

/// A roster has a player of that name.
pub open spec fn has_player(players: Seq<PlayerModel>, name: Seq<char>) -> bool {
    exists|i: int| 0 <= i < players.len() && (#[trigger] players[i]).name == name
}

/// A roster is within the size of a team, and no two of its players have the
/// same name.
pub open spec fn roster_ok(players: Seq<PlayerModel>) -> bool {
    &&& players.len() <= EXPECTED_PLAYERS
    &&& forall|i: int, j: int|
        0 <= i < j < players.len() ==> (#[trigger] players[i]).name != (#[trigger] players[j]).name
}

impl TeamModel {
    /// The team with one more player at the end of its roster.
    pub open spec fn with_player(self, name: Seq<char>) -> TeamModel {
        TeamModel { players: self.players.push(new_player(name)), ..self }
    }
}

impl View for Team {
    type V = TeamModel;

    closed spec fn view(&self) -> TeamModel {
        TeamModel { name: self.name@, token: self.token@, players: roster_of(self.players@) }
    }
}

impl Team {
    #[verifier::type_invariant]
    spec fn well_formed(&self) -> bool {
        roster_ok(roster_of(self.players@))
    }

    /// A team without players.
    pub fn new(name: String, token: String) -> (team: Team)
        ensures
            team@ == (TeamModel { name: name@, token: token@, players: Seq::empty() }),
    {
        let team = Team { players: Vec::new(), name, token };
        assert(roster_of(team.players@) =~= Seq::empty());
        team
    }

    /// Gives the name of the team.
    pub fn name(&self) -> (name: &String)
        ensures
            name@ == self@.name,
    {
        &self.name
    }

    /// Gives the token of the team.
    pub fn token(&self) -> (token: &String)
        ensures
            token@ == self@.token,
    {
        &self.token
    }

    /// Gives the number of players of the team, which is within the size of a
    /// team.
    pub fn roster_len(&self) -> (len: usize)
        ensures
            len == self@.players.len(),
            roster_ok(self@.players),
    {
        proof {
            use_type_invariant(self);
        }
        self.players.len()
    }

    /// Tells whether the team has a player of that name.
    pub fn has_player(&self, name: &String) -> (found: bool)
        ensures
            found == has_player(self@.players, name@),
    {
        let mut i: usize = 0;
        while i < self.players.len()
            invariant
                i <= self.players@.len(),
                forall|j: int| 0 <= j < i ==> (#[trigger] roster_of(self.players@)[j]).name != name@,
            decreases self.players@.len() - i,
        {
            if self.players[i].name == *name {
                assert(roster_of(self.players@)[i as int].name == name@);
                return true;
            }
            i += 1;
        }
        false
    }

    /// Adds a player at the end of a roster that has room for one and no player of
    /// that name.
    fn add_player(&mut self, name: String)
        requires
            old(self)@.players.len() < EXPECTED_PLAYERS,
            !has_player(old(self)@.players, name@),
        ensures
            final(self)@ == old(self)@.with_player(name@),
            roster_ok(final(self)@.players),
    {
        proof {
            use_type_invariant(&*self);
        }
        let ghost before = roster_of(self.players@);
        let mut players: Vec<Player> = Vec::new();
        std::mem::swap(&mut self.players, &mut players);
        players.push(Player { position: (0, 0), name, secret: None, direction: Direction::Front });
        proof {
            assert(roster_of(players@) =~= before.push(new_player(name@)));
        }
        self.players = players;
    }
}

/// The registry of the server: the teams in the order in which they were
/// registered, and the number of players that each is made of.
pub struct Controller {
    teams: Vec<Team>,
    expected_players: u64,
}

/// The registry as plain values.
pub struct ControllerModel {
    pub teams: Seq<TeamModel>,
    pub expected_players: nat,
}

impl ControllerModel {
    /// A team of that name is registered.
    pub open spec fn has_team(self, name: Seq<char>) -> bool {
        exists|i: int| 0 <= i < self.teams.len() && (#[trigger] self.teams[i]).name == name
    }

    /// A registered team holds that token.
    pub open spec fn holds_token(self, token: Seq<char>) -> bool {
        exists|i: int| 0 <= i < self.teams.len() && (#[trigger] self.teams[i]).token == token
    }

    /// Team `i` owns the token: it is the first registered team that holds it.
    pub open spec fn is_owner(self, token: Seq<char>, i: int) -> bool {
        &&& 0 <= i < self.teams.len()
        &&& self.teams[i].token == token
        &&& forall|j: int| 0 <= j < i ==> (#[trigger] self.teams[j]).token != token
    }

    /// The index of the team that owns the token, where a team holds it.
    pub open spec fn owner(self, token: Seq<char>) -> int {
        choose|i: int| self.is_owner(token, i)
    }

    /// What holds of every registry: each team has a name of three characters
    /// or more that no other team has, and a roster within the size of a team
    /// without two players of the same name; that size is the same for all.
    pub open spec fn well_formed(self) -> bool {
        &&& self.expected_players == EXPECTED_PLAYERS
        &&& forall|i: int| 0 <= i < self.teams.len() ==> (#[trigger] self.teams[i]).name.len() >= 3
        &&& forall|i: int| 0 <= i < self.teams.len() ==> roster_ok((#[trigger] self.teams[i]).players)
        &&& forall|i: int, j: int|
            0 <= i < j < self.teams.len() ==> (#[trigger] self.teams[i]).name != (
            #[trigger] self.teams[j]).name
    }

    /// Why the registration of a team is refused, if it is: for a name of less
    /// than three characters, else for a name that a registered team has.
    pub open spec fn team_refusal(self, team: TeamModel) -> Option<RegistrationError> {
        if team.name.len() < 3 {
            Some(RegistrationError::InvalidName)
        } else if self.has_team(team.name) {
            Some(RegistrationError::AlreadyRegistered)
        } else {
            None
        }
    }

    /// The registry with one more team at its end.
    pub open spec fn with_team(self, team: TeamModel) -> ControllerModel {
        ControllerModel { teams: self.teams.push(team), ..self }
    }

    /// The registry after the registration of a team, refused or not.
    pub open spec fn after_register_team(self, team: TeamModel) -> ControllerModel {
        if self.team_refusal(team) is None {
            self.with_team(team)
        } else {
            self
        }
    }

    /// Why the registration of a player is refused, if it is: for a token that no
    /// team holds, else for a full roster of the team that owns the token, else
    /// for a name that a player of that team has.
    pub open spec fn player_refusal(self, name: Seq<char>, token: Seq<char>) -> Option<
        RegistrationError,
    > {
        if !self.holds_token(token) {
            Some(RegistrationError::InvalidRegistrationToken)
        } else if self.teams[self.owner(token)].players.len() >= self.expected_players {
            Some(RegistrationError::TooManyPlayers)
        } else if has_player(self.teams[self.owner(token)].players, name) {
            Some(RegistrationError::AlreadyRegistered)
        } else {
            None
        }
    }

    /// The registry with one more player in the team that owns the token.
    pub open spec fn with_player(self, name: Seq<char>, token: Seq<char>) -> ControllerModel {
        ControllerModel {
            teams: self.teams.update(
                self.owner(token),
                self.teams[self.owner(token)].with_player(name),
            ),
            ..self
        }
    }

    /// The registry after the registration of a player, refused or not.
    pub open spec fn after_register_player(
        self,
        name: Seq<char>,
        token: Seq<char>,
    ) -> ControllerModel {
        if self.player_refusal(name, token) is None {
            self.with_player(name, token)
        } else {
            self
        }
    }

    /// Every registered team has its full number of players.
    pub open spec fn full(self) -> bool {
        forall|i: int|
            0 <= i < self.teams.len() ==> (#[trigger] self.teams[i]).players.len()
                == self.expected_players
    }
}

/// Where a team stands: not registered, registered with room in its roster, or
/// registered with its full number of players.
#[derive(Debug, Clone, Copy, PartialEq, Eq, Structural)]
pub enum TeamState {
    Unregistered,
    Registered,
    Full,
}

impl ControllerModel {
    /// The index of the team of that name, where one is registered.
    pub open spec fn team_index(self, name: Seq<char>) -> int {
        choose|i: int| 0 <= i < self.teams.len() && (#[trigger] self.teams[i]).name == name
    }

    /// Where the team of that name stands.
    pub open spec fn team_state(self, name: Seq<char>) -> TeamState {
        if !self.has_team(name) {
            TeamState::Unregistered
        } else if self.teams[self.team_index(name)].players.len() < self.expected_players {
            TeamState::Registered
        } else {
            TeamState::Full
        }
    }
}

/// The teams of a list, each as plain values.
spec fn teams_of(teams: Seq<Team>) -> Seq<TeamModel> {
    Seq::new(teams.len(), |i: int| teams[i]@)
}

impl View for Controller {
    type V = ControllerModel;

    closed spec fn view(&self) -> ControllerModel {
        ControllerModel {
            teams: teams_of(self.teams@),
            expected_players: self.expected_players as nat,
        }
    }
}

/// The answer to the registration of a team, with the token as a sequence of
/// characters.
pub open spec fn team_answer(result: RegisterTeamResult) -> Result<
    (u8, Seq<char>),
    RegistrationError,
> {
    match result {
        RegisterTeamResult::Accepted { expected_players, registration_token } => Ok(
            (expected_players, registration_token@),
        ),
        RegisterTeamResult::Rejected(e) => Err(e),
    }
}

impl Controller {
    #[verifier::type_invariant]
    spec fn well_formed(&self) -> bool {
        self@.well_formed()
    }

    /// A registry without teams, for teams of three players.
    pub fn new() -> (controller: Controller)
        ensures
            controller@ == (ControllerModel {
                teams: Seq::empty(),
                expected_players: EXPECTED_PLAYERS as nat,
            }),
    {
        let controller = Controller { teams: Vec::new(), expected_players: 3 };
        assert(teams_of(controller.teams@) =~= Seq::empty());
        controller
    }

    /// Gives the number of players that every team is made of.
    pub fn expected_players(&self) -> (expected: u64)
        ensures
            expected == self@.expected_players,
            self@.well_formed(),
    {
        proof {
            use_type_invariant(self);
        }
        self.expected_players
    }

    /// Gives the number of registered teams.
    pub fn team_count(&self) -> (count: usize)
        ensures
            count == self@.teams.len(),
    {
        self.teams.len()
    }

    /// Gives the team at an index, in the order of registration, if there is one.
    pub fn team(&self, i: usize) -> (team: Option<&Team>)
        ensures
            match team {
                Some(t) => i < self@.teams.len() && t@ == self@.teams[i as int],
                None => i >= self@.teams.len(),
            },
    {
        if i < self.teams.len() {
            Some(&self.teams[i])
        } else {
            None
        }
    }

    /// Tells whether a team of that name is registered.
    pub fn has_team(&self, name: &String) -> (found: bool)
        ensures
            found == self@.has_team(name@),
    {
        let mut i: usize = 0;
        while i < self.teams.len()
            invariant
                i <= self.teams@.len(),
                forall|j: int| 0 <= j < i ==> (#[trigger] self@.teams[j]).name != name@,
            decreases self.teams@.len() - i,
        {
            if self.teams[i].name == *name {
                assert(self@.teams[i as int].name == name@);
                return true;
            }
            i += 1;
        }
        false
    }

    /// Tells where the team of that name stands.
    pub fn team_state(&self, name: &String) -> (state: TeamState)
        ensures
            state == self@.team_state(name@),
    {
        proof {
            use_type_invariant(self);
        }
        let mut i: usize = 0;
        while i < self.teams.len()
            invariant
                i <= self.teams@.len(),
                self@.well_formed(),
                forall|j: int| 0 <= j < i ==> (#[trigger] self@.teams[j]).name != name@,
            decreases self.teams@.len() - i,
        {
            if self.teams[i].name == *name {
                proof {
                    lemma_team_index(self@, name@, i as int);
                }
                if (self.teams[i].roster_len() as u64) < self.expected_players {
                    return TeamState::Registered;
                } else {
                    return TeamState::Full;
                }
            }
            i += 1;
        }
        TeamState::Unregistered
    }

    /// Finds the team that owns a token: the first registered team that holds
    /// it.
    pub fn find_owner(&self, token: &String) -> (found: Option<usize>)
        ensures
            match found {
                Some(i) => self@.is_owner(token@, i as int) && self@.owner(token@) == i
                    && self@.holds_token(token@),
                None => !self@.holds_token(token@),
            },
    {
        let mut i: usize = 0;
        while i < self.teams.len()
            invariant
                i <= self.teams@.len(),
                forall|j: int| 0 <= j < i ==> (#[trigger] self@.teams[j]).token != token@,
            decreases self.teams@.len() - i,
        {
            if self.teams[i].token == *token {
                proof {
                    lemma_owner_unique(self@, token@, i as int);
                }
                return Some(i);
            }
            i += 1;
        }
        None
    }

    /// Adds a team at the end of the registry. The team has a name of three
    /// characters or more that no registered team has.
    pub fn save_team(&mut self, team: Team)
        requires
            old(self)@.team_refusal(team@) is None,
        ensures
            final(self)@ == old(self)@.with_team(team@),
    {
        proof {
            use_type_invariant(&*self);
            use_type_invariant(&team);
        }
        let ghost before = self@;
        let mut teams: Vec<Team> = Vec::new();
        std::mem::swap(&mut self.teams, &mut teams);
        teams.push(team);
        proof {
            assert(teams_of(teams@) =~= before.with_team(team@).teams);
        }
        self.teams = teams;
    }

    /// Adds a player at the end of the roster of the team that owns the token of
    /// the request. That team has room for a player and none of that name.
    pub fn save_player(&mut self, player: &SubscribePlayer)
        requires
            old(self)@.player_refusal(player.name@, player.registration_token@) is None,
        ensures
            final(self)@ == old(self)@.with_player(player.name@, player.registration_token@),
    {
        proof {
            use_type_invariant(&*self);
        }
        let ghost before = self@;
        if let Some(owner) = self.find_owner(&player.registration_token) {
            let mut teams: Vec<Team> = Vec::new();
            std::mem::swap(&mut self.teams, &mut teams);
            let mut team = teams.remove(owner);
            team.add_player(player.name.clone());
            teams.insert(owner, team);
            proof {
                let after = before.with_player(player.name@, player.registration_token@);
                assert(teams_of(teams@) =~= after.teams);
            }
            self.teams = teams;
        }
    }

    /// Registers a team, unless its name has less than three characters or is the
    /// name of a registered team. The answer to a registered team holds the
    /// number of players of a team and the token of the team.
    pub fn register_team(&mut self, team: Team) -> (result: RegisterTeamResult)
        ensures
            final(self)@ == old(self)@.after_register_team(team@),
            team_answer(result) == (match old(self)@.team_refusal(team@) {
                Some(e) => Err(e),
                None => Ok((EXPECTED_PLAYERS, team@.token)),
            }),
    {
        if team.name.as_str().unicode_len() < 3 {
            return RegisterTeamResult::Rejected(RegistrationError::InvalidName);
        }
        if self.has_team(&team.name) {
            return RegisterTeamResult::Rejected(RegistrationError::AlreadyRegistered);
        }
        let registration_token = team.token.clone();
        self.save_team(team);
        RegisterTeamResult::Accepted { expected_players: EXPECTED_PLAYERS, registration_token }
    }

    /// Registers a player with the team that owns the token of the request,
    /// unless no team holds the token, the roster of that team is full, or the
    /// team has a player of that name.
    pub fn register_player(&mut self, player_to_subscribe: &SubscribePlayer) -> (result:
        SubscribePlayerResult)
        ensures
            final(self)@ == old(self)@.after_register_player(
                player_to_subscribe.name@,
                player_to_subscribe.registration_token@,
            ),
            result == (match old(self)@.player_refusal(
                player_to_subscribe.name@,
                player_to_subscribe.registration_token@,
            ) {
                Some(e) => SubscribePlayerResult::Rejected(e),
                None => SubscribePlayerResult::Accepted,
            }),
    {
        let owner = match self.find_owner(&player_to_subscribe.registration_token) {
            Some(i) => i,
            None => {
                return SubscribePlayerResult::Rejected(
                    RegistrationError::InvalidRegistrationToken,
                );
            },
        };
        let player_team = &self.teams[owner];
        if player_team.roster_len() as u64 >= self.expected_players {
            return SubscribePlayerResult::Rejected(RegistrationError::TooManyPlayers);
        }
        if player_team.has_player(&player_to_subscribe.name) {
            return SubscribePlayerResult::Rejected(RegistrationError::AlreadyRegistered);
        }
        self.save_player(player_to_subscribe);
        SubscribePlayerResult::Accepted
    }

    /// Tells whether every registered team has its full number of players, which
    /// is so where no team is registered.
    pub fn is_full(&self) -> (full: bool)
        ensures
            full == self@.full(),
    {
        let mut i: usize = 0;
        while i < self.teams.len()
            invariant
                i <= self.teams@.len(),
                forall|j: int|
                    0 <= j < i ==> (#[trigger] self@.teams[j]).players.len()
                        == self@.expected_players,
            decreases self.teams@.len() - i,
        {
            if self.teams[i].roster_len() as u64 != self.expected_players {
                assert(self@.teams[i as int].players.len() != self@.expected_players);
                return false;
            }
            i += 1;
        }
        true
    }
}

/// In a registry, a name is the name of one team at most.
pub proof fn lemma_team_index(registry: ControllerModel, name: Seq<char>, i: int)
    requires
        registry.well_formed(),
        0 <= i < registry.teams.len(),
        registry.teams[i].name == name,
    ensures
        registry.has_team(name),
        registry.team_index(name) == i,
{
}

/// The life of a team: it is registered once, with room in its roster if it
/// comes without players; its roster fills one player at a time; and no
/// registration takes a team out of the registry or a player out of a roster,
/// so a full team stays full.
pub proof fn lemma_team_states(
    registry: ControllerModel,
    team: TeamModel,
    player: Seq<char>,
    token: Seq<char>,
    name: Seq<char>,
)
    requires
        registry.well_formed(),
        roster_ok(team.players),
    ensures
        registry.team_state(team.name) is Unregistered && team.name.len() >= 3
            && team.players.len() == 0 ==> registry.after_register_team(team).team_state(
            team.name,
        ) is Registered,
        registry.team_state(team.name) !is Unregistered ==> registry.after_register_team(team)
            == registry,
        name != team.name ==> registry.after_register_team(team).team_state(name)
            == registry.team_state(name),
        registry.team_state(name) is Full ==> registry.after_register_player(
            player,
            token,
        ).team_state(name) is Full,
        registry.team_state(name) is Registered ==> registry.after_register_player(
            player,
            token,
        ).team_state(name) !is Unregistered,
        registry.team_state(name) is Unregistered ==> registry.after_register_player(
            player,
            token,
        ).team_state(name) is Unregistered,
{
    let with_team = registry.after_register_team(team);
    if registry.team_refusal(team) is None {
        let n = registry.teams.len() as int;
        lemma_team_index(with_team, team.name, n);
        if registry.has_team(name) {
            let i = registry.team_index(name);
            lemma_team_index(with_team, name, i);
        }
    }
    let with_player = registry.after_register_player(player, token);
    if registry.player_refusal(player, token) is None {
        lemma_owner_exists(registry, token);
        if registry.has_team(name) {
            let i = registry.team_index(name);
            lemma_team_index(with_player, name, i);
        }
    }
}

/// At most one team owns a token.
pub proof fn lemma_owner_unique(registry: ControllerModel, token: Seq<char>, i: int)
    requires
        registry.is_owner(token, i),
    ensures
        registry.owner(token) == i,
        registry.holds_token(token),
{
}

/// A name can be registered once: after the registration of a team, that of
/// another team of the same name is refused as already registered.
pub proof fn lemma_same_name_twice(registry: ControllerModel, first: TeamModel, second: TeamModel)
    requires
        registry.team_refusal(first) is None,
        second.name == first.name,
    ensures
        registry.after_register_team(first).team_refusal(second) == Some(
            RegistrationError::AlreadyRegistered,
        ),
{
    let after = registry.after_register_team(first);
    assert(after.teams[registry.teams.len() as int].name == second.name);
}

/// A team whose name has less than three characters is refused for its name,
/// whatever the registry holds, and the registry stays as it is.
pub proof fn lemma_short_name(registry: ControllerModel, team: TeamModel)
    requires
        team.name.len() < 3,
    ensures
        registry.team_refusal(team) == Some(RegistrationError::InvalidName),
        registry.after_register_team(team) == registry,
{
}

/// The registration of a player leaves every token with its owner.
pub proof fn lemma_owner_stays(
    registry: ControllerModel,
    name: Seq<char>,
    token: Seq<char>,
    other: Seq<char>,
)
    requires
        registry.holds_token(token),
    ensures
        registry.with_player(name, token).holds_token(other) == registry.holds_token(other),
        registry.holds_token(other) ==> registry.with_player(name, token).owner(other)
            == registry.owner(other),
        registry.with_player(name, token).teams.len() == registry.teams.len(),
        registry.with_player(name, token).teams[registry.owner(token)]
            == registry.teams[registry.owner(token)].with_player(name),
{
    let after = registry.with_player(name, token);
    lemma_owner_exists(registry, token);
    if registry.holds_token(other) {
        lemma_owner_exists(registry, other);
        let k = registry.owner(other);
        lemma_owner_unique(after, other, k);
    }
}

/// A token that a team holds has an owner.
pub proof fn lemma_owner_exists(registry: ControllerModel, token: Seq<char>)
    requires
        registry.holds_token(token),
    ensures
        registry.is_owner(token, registry.owner(token)),
{
    let i = choose|i: int|
        0 <= i < registry.teams.len() && (#[trigger] registry.teams[i]).token == token;
    lemma_first_holder(registry, token, i);
}

/// Among the teams up to one that holds a token, one is the first to hold it.
proof fn lemma_first_holder(registry: ControllerModel, token: Seq<char>, i: int)
    requires
        0 <= i < registry.teams.len(),
        registry.teams[i].token == token,
    ensures
        exists|k: int| registry.is_owner(token, k),
    decreases i,
{
    if exists|j: int| 0 <= j < i && (#[trigger] registry.teams[j]).token == token {
        let j = choose|j: int| 0 <= j < i && (#[trigger] registry.teams[j]).token == token;
        lemma_first_holder(registry, token, j);
    } else {
        assert(registry.is_owner(token, i));
    }
}

/// The size of a team caps its roster: with a token whose owner has no player
/// yet, three players of different names are registered, and a fourth, whatever
/// its name, is refused because the roster is full.
pub proof fn lemma_roster_cap(
    registry: ControllerModel,
    token: Seq<char>,
    first: Seq<char>,
    second: Seq<char>,
    third: Seq<char>,
    fourth: Seq<char>,
)
    requires
        registry.expected_players == EXPECTED_PLAYERS,
        registry.holds_token(token),
        registry.teams[registry.owner(token)].players.len() == 0,
        first != second,
        first != third,
        second != third,
    ensures
        ({
            let one = registry.after_register_player(first, token);
            let two = one.after_register_player(second, token);
            let three = two.after_register_player(third, token);
            &&& registry.player_refusal(first, token) is None
            &&& one.player_refusal(second, token) is None
            &&& two.player_refusal(third, token) is None
            &&& three.player_refusal(fourth, token) == Some(RegistrationError::TooManyPlayers)
            &&& three.after_register_player(fourth, token) == three
        }),
{
    lemma_owner_stays(registry, first, token, token);
    let one = registry.with_player(first, token);
    lemma_owner_stays(one, second, token, token);
    let two = one.with_player(second, token);
    lemma_owner_stays(two, third, token, token);
}

/// The registration of a team keeps what holds of every registry.
pub proof fn lemma_team_keeps_well_formed(registry: ControllerModel, team: TeamModel)
    requires
        registry.well_formed(),
        roster_ok(team.players),
    ensures
        registry.after_register_team(team).well_formed(),
{
}

/// The registration of a player keeps what holds of every registry.
pub proof fn lemma_player_keeps_well_formed(
    registry: ControllerModel,
    name: Seq<char>,
    token: Seq<char>,
)
    requires
        registry.well_formed(),
    ensures
        registry.after_register_player(name, token).well_formed(),
{
    if registry.player_refusal(name, token) is None {
        lemma_owner_exists(registry, token);
    }
}

/// The character is a letter of `a` to `z` or `A` to `Z`, or a digit.
pub open spec fn is_alphanumeric(c: char) -> bool {
    ||| 'a' <= c <= 'z'
    ||| 'A' <= c <= 'Z'
    ||| '0' <= c <= '9'
}

/// The text is a token as the server makes them: twelve letters and digits.
pub open spec fn is_token(text: Seq<char>) -> bool {
    &&& text.len() == TOKEN_LENGTH
    &&& forall|i: int| 0 <= i < text.len() ==> is_alphanumeric(#[trigger] text[i])
}

/// `Alphanumeric` of rand, sampled with the generator of the thread, gives the
/// ASCII code of a letter or of a digit; which one is left open.
#[verifier::external_body]
fn random_alphanumeric() -> (code: u8)
    ensures
        is_alphanumeric(code as char),
{
    rand::rng().sample(rand::distr::Alphanumeric)
}

/// Makes a token for a team: twelve letters and digits drawn at random.
pub fn gen_team_tokem() -> (token: String)
    ensures
        is_token(token@),
{
    let mut token = String::new();
    let mut i: usize = 0;
    while i < TOKEN_LENGTH
        invariant
            i <= TOKEN_LENGTH,
            token@.len() == i,
            forall|j: int| 0 <= j < token@.len() ==> is_alphanumeric(#[trigger] token@[j]),
        decreases TOKEN_LENGTH - i,
    {
        let code = random_alphanumeric();
        token.push(code as char);
        i += 1;
    }
    token
}

/// The radar view that the server sends to every player.
pub const RADAR_VIEW_SAMPLE: &'static str = "ieysGjGO8papd/a";

impl Controller {
    /// Begins a turn of the game: gives the message that holds the radar view
    /// to send to the player.
    pub fn start_game(&self) -> (message: Message)
        ensures
            message matches Message::RadarView(text) && text@ == RADAR_VIEW_SAMPLE@,
    {
        Message::RadarView(RADAR_VIEW_SAMPLE.to_owned())
    }
}

/// The team that a request to register makes, with the token made for it.
pub open spec fn requested_team(name: Seq<char>, token: Seq<char>) -> TeamModel {
    TeamModel { name, token, players: Seq::empty() }
}

/// What the server does with a request, `token` being the token made for a new
/// team: `after` is the registry and `reply` the answer. A team or a player is
/// registered or refused, and the answer says which; any other message changes
/// nothing and has no answer.
pub open spec fn handled(
    before: ControllerModel,
    request: Message,
    token: Seq<char>,
    after: ControllerModel,
    reply: Option<Message>,
) -> bool {
    match request {
        Message::RegisterTeam(team) => {
            &&& after == before.after_register_team(requested_team(team.name@, token))
            &&& reply matches Some(Message::RegisterTeamResult(result))
            &&& team_answer(result) == (match before.team_refusal(
                requested_team(team.name@, token),
            ) {
                Some(e) => Err(e),
                None => Ok((EXPECTED_PLAYERS, token)),
            })
        },
        Message::SubscribePlayer(player) => {
            &&& after == before.after_register_player(player.name@, player.registration_token@)
            &&& reply matches Some(Message::SubscribePlayerResult(result))
            &&& result == (match before.player_refusal(
                player.name@,
                player.registration_token@,
            ) {
                Some(e) => SubscribePlayerResult::Rejected(e),
                None => SubscribePlayerResult::Accepted,
            })
        },
        _ => after == before && reply is None,
    }
}

/// Handles a request with the token to give to a new team.
pub fn handle_request(controller: &mut Controller, request: &Message, token: String) -> (reply:
    Option<Message>)
    ensures
        handled(old(controller)@, *request, token@, final(controller)@, reply),
{
    match request {
        Message::RegisterTeam(register_team) => {
            let team = Team::new(register_team.name.clone(), token);
            let result = controller.register_team(team);
            Some(Message::RegisterTeamResult(result))
        },
        Message::SubscribePlayer(player_info) => {
            let result = controller.register_player(player_info);
            Some(Message::SubscribePlayerResult(result))
        },
        _ => None,
    }
}

/// Handles the request of a connection: makes a token if the request is to
/// register a team, handles the request with it, and tells whether the game
/// begins, which it does once every registered team is full.
pub fn handle_connection(controller: &mut Controller, request: &Message) -> (outcome: (
    Option<Message>,
    bool,
))
    ensures
        outcome.1 == final(controller)@.full(),
        exists|token: Seq<char>|
            (*request is RegisterTeam ==> is_token(token)) && #[trigger] handled(
                old(controller)@,
                *request,
                token,
                final(controller)@,
                outcome.0,
            ),
{
    let token = match request {
        Message::RegisterTeam(_) => gen_team_tokem(),
        _ => String::new(),
    };
    let ghost made = token@;
    let reply = handle_request(controller, request, token);
    let outcome = (reply, controller.is_full());
    assert((*request is RegisterTeam ==> is_token(made)) && handled(
        old(controller)@,
        *request,
        made,
        controller@,
        outcome.0,
    ));
    outcome
}

} // verus!
