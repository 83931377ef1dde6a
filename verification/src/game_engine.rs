//! The state of a client: the secrets of its team, and the map that it builds
//! from the radar views it receives.

use crate::grid_map::{lookup, on_grid, GridMap};
use crate::team_secrets::{secret_sum, TeamSecrets};
use crate::radar_view::{Cell, Element, Entity, RadarView};
use vstd::prelude::*;

verus! {

/// A player, as its client knows it.
#[derive(Debug)]
pub struct Player {
    pub position: (i32, i32),
    pub name: String,
    pub secret: Option<u64>,
    pub direction: Direction,
}

/// A player as plain values.
pub struct PlayerModel {
    pub position: (int, int),
    pub name: Seq<char>,
    pub secret: Option<u64>,
    pub direction: Direction,
}

impl View for Player {
    type V = PlayerModel;

    open spec fn view(&self) -> PlayerModel {
        PlayerModel {
            position: (self.position.0 as int, self.position.1 as int),
            name: self.name@,
            secret: self.secret,
            direction: self.direction,
        }
    }
}

/// A move, named as the player sees it.
#[derive(Debug, Clone, Copy, PartialEq, Eq, Structural)]
pub enum Direction {
    Front,
    Right,
    Left,
    Back,
}

/// What a client knows of a square of the maze.
#[derive(Debug, Clone, Copy, PartialEq, Eq, Structural)]
pub enum GlobalCell {
    Unknown,
    Wall,
    Open,
    Player,
    Goal,
}

impl Direction {
    /// The step that a move makes on the map, as a change of column and of row.
    pub open spec fn step(self) -> (int, int) {
        match self {
            Direction::Front => (0, -1),
            Direction::Right => (1, 0),
            Direction::Left => (-1, 0),
            Direction::Back => (0, 1),
        }
    }

    /// The opposite move.
    pub open spec fn reversed(self) -> Direction {
        match self {
            Direction::Front => Direction::Back,
            Direction::Right => Direction::Left,
            Direction::Left => Direction::Right,
            Direction::Back => Direction::Front,
        }
    }

    /// The place of a move in the order in which moves are tried.
    pub open spec fn rank(self) -> int {
        match self {
            Direction::Front => 0,
            Direction::Right => 1,
            Direction::Left => 2,
            Direction::Back => 3,
        }
    }

    /// The `k`-th move in the order in which moves are tried.
    pub open spec fn in_order(k: int) -> Direction {
        if k == 0 {
            Direction::Front
        } else if k == 1 {
            Direction::Right
        } else if k == 2 {
            Direction::Left
        } else {
            Direction::Back
        }
    }

    /// Gives the step that a move makes on the map.
    pub fn offset(&self) -> (step: (i32, i32))
        ensures
            (step.0 as int, step.1 as int) == self.step(),
    {
        match self {
            Direction::Front => (0, -1),
            Direction::Right => (1, 0),
            Direction::Left => (-1, 0),
            Direction::Back => (0, 1),
        }
    }

    /// Gives the opposite move.
    pub fn reverse(&self) -> (back: Direction)
        ensures
            back == self.reversed(),
    {
        match self {
            Direction::Front => Direction::Back,
            Direction::Right => Direction::Left,
            Direction::Left => Direction::Right,
            Direction::Back => Direction::Front,
        }
    }

    /// Gives the `k`-th move in the order in which moves are tried.
    pub fn nth(k: usize) -> (direction: Direction)
        requires
            k < 4,
        ensures
            direction == Direction::in_order(k as int),
    {
        if k == 0 {
            Direction::Front
        } else if k == 1 {
            Direction::Right
        } else if k == 2 {
            Direction::Left
        } else {
            Direction::Back
        }
    }
}

/// What a team knows of the running challenge: the secrets of its players, and
/// the modulus of the challenge.
pub struct GameState {
    pub team_secrets: TeamSecrets,
    pub modulo: u64,
}

impl GameState {
    /// A state without secrets, with the modulus 0.
    pub fn new() -> (state: GameState)
        ensures
            state.team_secrets@ == Map::<Seq<char>, u64>::empty(),
            state.modulo == 0,
    {
        GameState { team_secrets: TeamSecrets::new(), modulo: 0 }
    }

    /// Records the secret of a player, in place of an earlier one of that player.
    pub fn update_secret(&mut self, player_name: &str, secret: u64)
        ensures
            final(self).team_secrets@ == old(self).team_secrets@.insert(player_name@, secret),
            final(self).modulo == old(self).modulo,
    {
        self.team_secrets.insert(player_name.to_owned(), secret);
    }

    /// Computes the sum of the secrets of the team, reduced by a modulus that is
    /// not 0. The sum is taken in 128 bits, where it cannot overflow.
    pub fn calculate_secret_sum_modulo(&self, modulo: u64) -> (answer: u64)
        requires
            modulo != 0,
        ensures
            answer == secret_sum(self.team_secrets@) % (modulo as int),
    {
        let total = self.team_secrets.total();
        (total % modulo as u128) as u64
    }
}

/// The map that a client builds: what it knows of each square, where its player
/// stands and which way the player last moved.
pub struct GlobalMap {
    pub map: GridMap<GlobalCell>,
    pub player_pos: (i32, i32),
    pub player_direction: Direction,
}

/// A client's map as plain values.
pub struct GlobalMapModel {
    pub cells: Map<(int, int), GlobalCell>,
    pub player_pos: (int, int),
    pub player_direction: Direction,
}

impl View for GlobalMap {
    type V = GlobalMapModel;

    open spec fn view(&self) -> GlobalMapModel {
        GlobalMapModel {
            cells: self.map@,
            player_pos: (self.player_pos.0 as int, self.player_pos.1 as int),
            player_direction: self.player_direction,
        }
    }
}

/// What a square of the map holds once a cell of a radar view has been seen on
/// it: the goal for a target, a player for an ally, else a free square. A cell
/// out of sight leaves what the map held, and marks a square that it did not
/// hold as unknown.
pub open spec fn seen(cell: Cell, known: Option<GlobalCell>) -> GlobalCell {
    match cell {
        Cell::Invalid => match known {
            Some(held) => held,
            None => GlobalCell::Unknown,
        },
        Cell::Valid { element, entity } => {
            if element == Element::Target {
                GlobalCell::Goal
            } else if entity == Entity::Ally {
                GlobalCell::Player
            } else {
                GlobalCell::Open
            }
        },
    }
}

/// The square lies in the 3×3 window around `center`.
pub open spec fn in_window(center: (int, int), p: (int, int)) -> bool {
    &&& center.0 - 1 <= p.0 <= center.0 + 1
    &&& center.1 - 1 <= p.1 <= center.1 + 1
}

/// The index, in a radar view taken at `center`, of the cell that lies on a square
/// of the window: row by row from the row above `center`.
pub open spec fn window_index(center: (int, int), p: (int, int)) -> int {
    (p.1 - center.1 + 1) * 3 + (p.0 - center.0 + 1)
}

/// The squares of a map once the first `count` cells of a radar view taken at
/// `center` have been seen.
pub open spec fn cells_after_radar(
    cells: Map<(int, int), GlobalCell>,
    center: (int, int),
    radar_cells: Seq<Cell>,
    count: int,
) -> Map<(int, int), GlobalCell> {
    Map::new(
        |p: (int, int)|
            cells.contains_key(p) || (in_window(center, p) && window_index(center, p) < count),
        |p: (int, int)|
            if in_window(center, p) && window_index(center, p) < count {
                seen(radar_cells[window_index(center, p)], lookup(cells, p))
            } else {
                cells[p]
            },
    )
}

/// The square next to `pos` in a direction.
pub open spec fn neighbor(pos: (int, int), direction: Direction) -> (int, int) {
    (pos.0 + direction.step().0, pos.1 + direction.step().1)
}

/// What a move is chosen for.
#[derive(Debug, Clone, Copy, PartialEq, Eq, Structural)]
pub enum Sought {
    /// A square that is known to be the goal.
    Goal,
    /// A square of which nothing is known: one that the map does not hold, or
    /// holds as unknown.
    Unvisited,
    /// A square that is known to be free.
    Open,
}

/// The square next to `pos` in a direction is of the kind sought.
pub open spec fn leads_to(
    cells: Map<(int, int), GlobalCell>,
    pos: (int, int),
    direction: Direction,
    sought: Sought,
) -> bool {
    let held = lookup(cells, neighbor(pos, direction));
    match sought {
        Sought::Goal => held == Some(GlobalCell::Goal),
        Sought::Unvisited => held is None || held == Some(GlobalCell::Unknown),
        Sought::Open => held == Some(GlobalCell::Open),
    }
}

/// The first move, in the order Front, Right, Left, Back, that leads to a square
/// of the kind sought.
pub open spec fn first_toward(
    cells: Map<(int, int), GlobalCell>,
    pos: (int, int),
    sought: Sought,
) -> Option<Direction> {
    if leads_to(cells, pos, Direction::Front, sought) {
        Some(Direction::Front)
    } else if leads_to(cells, pos, Direction::Right, sought) {
        Some(Direction::Right)
    } else if leads_to(cells, pos, Direction::Left, sought) {
        Some(Direction::Left)
    } else if leads_to(cells, pos, Direction::Back, sought) {
        Some(Direction::Back)
    } else {
        None
    }
}

/// The move that is chosen: toward the goal if it is next to the player, else
/// toward a square of which nothing is known, else toward a free square, else
/// back the way the player is facing from.
pub open spec fn chosen_move(
    cells: Map<(int, int), GlobalCell>,
    pos: (int, int),
    facing: Direction,
) -> Direction {
    if first_toward(cells, pos, Sought::Goal) is Some {
        first_toward(cells, pos, Sought::Goal).unwrap()
    } else if first_toward(cells, pos, Sought::Unvisited) is Some {
        first_toward(cells, pos, Sought::Unvisited).unwrap()
    } else if first_toward(cells, pos, Sought::Open) is Some {
        first_toward(cells, pos, Sought::Open).unwrap()
    } else {
        facing.reversed()
    }
}

/// The squares next to `pos` and around it have 32-bit coordinates.
pub open spec fn inside(pos: (int, int)) -> bool {
    &&& i32::MIN < pos.0 < i32::MAX
    &&& i32::MIN < pos.1 < i32::MAX
}

impl GlobalMap {
    /// A map that holds only the player, at the origin and facing front.
    pub fn new() -> (map: GlobalMap)
        ensures
            map@.cells == Map::<(int, int), GlobalCell>::empty().insert(
                (0, 0),
                GlobalCell::Player,
            ),
            map@.player_pos == (0int, 0int),
            map@.player_direction == Direction::Front,
    {
        let mut map = GridMap::new();
        map.insert(0, 0, GlobalCell::Player);
        GlobalMap { map, player_pos: (0, 0), player_direction: Direction::Front }
    }

    /// Brings a radar view, taken where the player stands, onto the map: each of
    /// its nine cells onto the square it lies on.
    pub fn update_from_radar(&mut self, radar: &RadarView)
        requires
            radar.cells@.len() >= 9,
            inside(old(self)@.player_pos),
        ensures
            final(self)@.cells == cells_after_radar(
                old(self)@.cells,
                old(self)@.player_pos,
                radar.cells@,
                9,
            ),
            final(self)@.player_pos == old(self)@.player_pos,
            final(self)@.player_direction == old(self)@.player_direction,
    {
        let (px, py) = self.player_pos;
        let ghost before = self.map@;
        let ghost center = (px as int, py as int);
        let mut dy: usize = 0;
        while dy < 3
            invariant
                dy <= 3,
                radar.cells@.len() >= 9,
                inside(center),
                center == (px as int, py as int),
                self.player_pos == old(self).player_pos,
                self.player_direction == old(self).player_direction,
                self.map@ == cells_after_radar(before, center, radar.cells@, 3 * dy),
            decreases 3 - dy,
        {
            let mut dx: usize = 0;
            while dx < 3
                invariant
                    dy < 3,
                    dx <= 3,
                    radar.cells@.len() >= 9,
                    inside(center),
                    center == (px as int, py as int),
                    self.player_pos == old(self).player_pos,
                    self.player_direction == old(self).player_direction,
                    self.map@ == cells_after_radar(before, center, radar.cells@, 3 * dy + dx),
                decreases 3 - dx,
            {
                let global_x = px + (dx as i32 - 1);
                let global_y = py + (dy as i32 - 1);
                match radar.cells[dy * 3 + dx] {
                    Cell::Invalid => {
                        if !self.map.contains_key(global_x, global_y) {
                            self.map.insert(global_x, global_y, GlobalCell::Unknown);
                        }
                    },
                    Cell::Valid { element, entity } => {
                        if let Element::Target = element {
                            self.map.insert(global_x, global_y, GlobalCell::Goal);
                        } else if let Entity::Ally = entity {
                            self.map.insert(global_x, global_y, GlobalCell::Player);
                        } else {
                            self.map.insert(global_x, global_y, GlobalCell::Open);
                        }
                    },
                }
                dx += 1;
            }
            dy += 1;
        }
    }

    /// Tells whether the squares around the player have 32-bit coordinates, as
    /// they must have for a radar view to be brought onto the map and for a move
    /// to be chosen.
    pub fn is_inside(&self) -> (yes: bool)
        ensures
            yes == inside(self@.player_pos),
    {
        let (px, py) = self.player_pos;
        i32::MIN < px && px < i32::MAX && i32::MIN < py && py < i32::MAX
    }

    /// Finds the first move, in the order in which moves are tried, toward a
    /// square of the kind sought.
    fn first_move_toward(&self, sought: Sought) -> (found: Option<Direction>)
        requires
            inside(self@.player_pos),
        ensures
            found == first_toward(self@.cells, self@.player_pos, sought),
    {
        let (px, py) = self.player_pos;
        let mut k: usize = 0;
        while k < 4
            invariant
                k <= 4,
                inside(self@.player_pos),
                (px, py) == self.player_pos,
                forall|j: int|
                    0 <= j < k ==> !leads_to(
                        self@.cells,
                        self@.player_pos,
                        #[trigger] Direction::in_order(j),
                        sought,
                    ),
            decreases 4 - k,
        {
            let direction = Direction::nth(k);
            let (dx, dy) = direction.offset();
            let nx = px + dx;
            let ny = py + dy;
            let held = self.map.get(nx, ny);
            let leads = match sought {
                Sought::Goal => match held {
                    Some(GlobalCell::Goal) => true,
                    _ => false,
                },
                Sought::Unvisited => match held {
                    None => true,
                    Some(GlobalCell::Unknown) => true,
                    _ => false,
                },
                Sought::Open => match held {
                    Some(GlobalCell::Open) => true,
                    _ => false,
                },
            };
            if leads {
                proof {
                    assert(Direction::in_order(0) == Direction::Front);
                    assert(Direction::in_order(1) == Direction::Right);
                    assert(Direction::in_order(2) == Direction::Left);
                }
                return Some(direction);
            }
            k += 1;
        }
        proof {
            assert(Direction::in_order(0) == Direction::Front);
            assert(Direction::in_order(1) == Direction::Right);
            assert(Direction::in_order(2) == Direction::Left);
            assert(Direction::in_order(3) == Direction::Back);
        }
        None
    }

    /// Chooses the next move of a player that faces `facing`.
    pub fn next_move(&self, facing: Direction) -> (direction: Direction)
        requires
            inside(self@.player_pos),
        ensures
            direction == chosen_move(self@.cells, self@.player_pos, facing),
    {
        if let Some(direction) = self.first_move_toward(Sought::Goal) {
            return direction;
        }
        if let Some(direction) = self.first_move_toward(Sought::Unvisited) {
            return direction;
        }
        if let Some(direction) = self.first_move_toward(Sought::Open) {
            return direction;
        }
        facing.reverse()
    }

    /// Makes a move on the map, before the server has confirmed it: the square
    /// that the player leaves becomes free, the square next to it in the
    /// direction of the move becomes the player's, and the player faces that way.
    pub fn move_player(&mut self, direction: Direction)
        requires
            on_grid(neighbor(old(self)@.player_pos, direction)),
        ensures
            final(self)@.player_pos == neighbor(old(self)@.player_pos, direction),
            final(self)@.player_direction == direction,
            final(self)@.cells == old(self)@.cells.insert(
                old(self)@.player_pos,
                GlobalCell::Open,
            ).insert(final(self)@.player_pos, GlobalCell::Player),
    {
        let (px, py) = self.player_pos;
        let (dx, dy) = direction.offset();
        let new_pos = (px + dx, py + dy);
        self.map.insert(px, py, GlobalCell::Open);
        self.map.insert(new_pos.0, new_pos.1, GlobalCell::Player);
        self.player_pos = new_pos;
        self.player_direction = direction;
    }
}

/// The order of the rules of a move: a goal next to the player is moved to
/// whatever else is there; without one, a square of which nothing is known
/// is; without either, a free square is; and with none of the three the player
/// turns back.
pub proof fn lemma_move_priority(
    cells: Map<(int, int), GlobalCell>,
    pos: (int, int),
    facing: Direction,
)
    ensures
        first_toward(cells, pos, Sought::Goal) matches Some(d) ==> chosen_move(cells, pos, facing)
            == d && leads_to(cells, pos, d, Sought::Goal),
        first_toward(cells, pos, Sought::Goal) is None ==> (first_toward(
            cells,
            pos,
            Sought::Unvisited,
        ) matches Some(d) ==> chosen_move(cells, pos, facing) == d && leads_to(
            cells,
            pos,
            d,
            Sought::Unvisited,
        )),
        first_toward(cells, pos, Sought::Goal) is None && first_toward(
            cells,
            pos,
            Sought::Unvisited,
        ) is None ==> (first_toward(cells, pos, Sought::Open) matches Some(d) ==> chosen_move(
            cells,
            pos,
            facing,
        ) == d && leads_to(cells, pos, d, Sought::Open)),
        (forall|d: Direction|
            !leads_to(cells, pos, d, Sought::Goal) && !leads_to(cells, pos, d, Sought::Unvisited)
                && !leads_to(cells, pos, d, Sought::Open)) ==> chosen_move(cells, pos, facing)
            == facing.reversed(),
{
}

/// A move is found toward a kind of square exactly where one of the four squares
/// next to the player is of that kind, and the move found is the first such in
/// the order in which moves are tried.
pub proof fn lemma_first_toward(cells: Map<(int, int), GlobalCell>, pos: (int, int), sought: Sought)
    ensures
        first_toward(cells, pos, sought) is Some <==> exists|d: Direction|
            leads_to(cells, pos, d, sought),
        first_toward(cells, pos, sought) matches Some(d) ==> leads_to(cells, pos, d, sought)
            && forall|e: Direction| #[trigger]
            leads_to(cells, pos, e, sought) ==> d.rank() <= e.rank(),
{
}

/// A radar view takes nothing away from a map: every square that the map held
/// is still held, and a square of which something was known is not unknown
/// afterwards.
pub proof fn lemma_radar_keeps_knowledge(
    cells: Map<(int, int), GlobalCell>,
    center: (int, int),
    radar_cells: Seq<Cell>,
    p: (int, int),
)
    requires
        cells.contains_key(p),
    ensures
        cells_after_radar(cells, center, radar_cells, 9).contains_key(p),
        cells[p] != GlobalCell::Unknown ==> cells_after_radar(cells, center, radar_cells, 9)[p]
            != GlobalCell::Unknown,
{
}

} // verus!
