//! Moves by compass: a client that keeps the bearing of its player, the cells
//! that it has seen and the squares that it has visited, and finds its moves on
//! the radar view alone.

use crate::grid_map::{on_grid, GridMap, GridSet};
use crate::radar_view::{Cell, Element, Entity, RadarView};
use crate::team_secrets::{secret_sum, TeamSecrets};
use vstd::prelude::*;

verus! {

/// The bearing of a player.
#[derive(Debug, Clone, Copy, PartialEq, Eq, Structural)]
pub enum Direction {
    North,
    East,
    West,
    South,
}

/// A move, named from where the player is heading.
#[derive(Debug, Clone, Copy, PartialEq, Eq, Structural)]
pub enum RelativeDirection {
    Front,
    Back,
    Left,
    Right,
}

/// The squares that a client has seen, each with the cell that was seen on it.
pub struct GameMap {
    pub cells: GridMap<Cell>,
}

/// What a team knows: the secrets of its players, the squares that were seen and
/// the squares that a player stood on.
pub struct GameState {
    pub team_secrets: TeamSecrets,
    pub map: GameMap,
    pub visited: GridSet,
}

/// A player: where it stands, where it is heading and the last secret that it
/// was told.
pub struct Player {
    pub name: String,
    pub position: (i32, i32),
    pub direction: Direction,
    pub secret: Option<u64>,
}

impl Direction {
    /// The step that a player makes ahead: north is up, with the row growing.
    pub open spec fn heading(self) -> (int, int) {
        match self {
            Direction::North => (0, 1),
            Direction::East => (1, 0),
            Direction::South => (0, -1),
            Direction::West => (-1, 0),
        }
    }
}

impl RelativeDirection {
    /// The step ahead `ahead` turned to this side: unchanged to the front,
    /// opposite to the back, and a quarter turn to the right or to the left.
    pub open spec fn turned(self, ahead: (int, int)) -> (int, int) {
        match self {
            RelativeDirection::Front => ahead,
            RelativeDirection::Back => (-ahead.0, -ahead.1),
            RelativeDirection::Right => (ahead.1, -ahead.0),
            RelativeDirection::Left => (-ahead.1, ahead.0),
        }
    }
}

/// The step that a move makes, for a player of that bearing.
pub open spec fn offset_of(direction: Direction, relative: RelativeDirection) -> (int, int) {
    relative.turned(direction.heading())
}

/// The place, seen from the player, of the cell at an index of a radar view: the
/// cells run row by row from the north-west to the south-east.
pub open spec fn relative_position_of(index: int) -> (int, int) {
    (index % 3 - 1, 1 - index / 3)
}

/// The square at a step from another.
pub open spec fn moved(position: (int, int), step: (int, int)) -> (int, int) {
    (position.0 + step.0, position.1 + step.1)
}

/// A pair of 32-bit integers as a pair of integers.
pub open spec fn pair(p: (i32, i32)) -> (int, int) {
    (p.0 as int, p.1 as int)
}

/// Gives the step that a move makes, for a player of that bearing.
pub fn get_offset(direction: Direction, relative: &RelativeDirection) -> (offset: (i32, i32))
    ensures
        pair(offset) == offset_of(direction, *relative),
{
    match (direction, relative) {
        (Direction::North, RelativeDirection::Front) => (0, 1),
        (Direction::North, RelativeDirection::Right) => (1, 0),
        (Direction::North, RelativeDirection::Back) => (0, -1),
        (Direction::North, RelativeDirection::Left) => (-1, 0),
        (Direction::East, RelativeDirection::Front) => (1, 0),
        (Direction::East, RelativeDirection::Right) => (0, -1),
        (Direction::East, RelativeDirection::Back) => (-1, 0),
        (Direction::East, RelativeDirection::Left) => (0, 1),
        (Direction::South, RelativeDirection::Front) => (0, -1),
        (Direction::South, RelativeDirection::Right) => (-1, 0),
        (Direction::South, RelativeDirection::Back) => (0, 1),
        (Direction::South, RelativeDirection::Left) => (1, 0),
        (Direction::West, RelativeDirection::Front) => (-1, 0),
        (Direction::West, RelativeDirection::Right) => (0, 1),
        (Direction::West, RelativeDirection::Back) => (1, 0),
        (Direction::West, RelativeDirection::Left) => (0, -1),
    }
}

/// Moves a player by one step; its bearing stays.
pub fn move_player(player: &mut Player, relative: &RelativeDirection)
    requires
        on_grid(moved(pair(old(player).position), offset_of(old(player).direction, *relative))),
    ensures
        pair(final(player).position) == moved(
            pair(old(player).position),
            offset_of(old(player).direction, *relative),
        ),
        final(player).direction == old(player).direction,
        final(player).name == old(player).name,
        final(player).secret == old(player).secret,
{
    let (dx, dy) = get_offset(player.direction, relative);
    player.position = (player.position.0 + dx, player.position.1 + dy);
}

/// Gives the place, seen from the player, of the cell at an index below 9 of a
/// radar view.
pub fn get_relative_position(index: usize) -> (position: (i32, i32))
    requires
        index < 9,
    ensures
        pair(position) == relative_position_of(index as int),
{
    match index {
        0 => (-1, 1),
        1 => (0, 1),
        2 => (1, 1),
        3 => (-1, 0),
        4 => (0, 0),
        5 => (1, 0),
        6 => (-1, -1),
        7 => (0, -1),
        _ => (1, -1),
    }
}

/// Gives the index, in a radar view, of the cell that a move leads to.
pub fn get_radar_index_for_direction(
    player_direction: Direction,
    relative: RelativeDirection,
) -> (index: usize)
    ensures
        index < 9,
        relative_position_of(index as int) == offset_of(player_direction, relative),
{
    match (player_direction, relative) {
        (Direction::North, RelativeDirection::Front) => 1,
        (Direction::North, RelativeDirection::Right) => 5,
        (Direction::North, RelativeDirection::Back) => 7,
        (Direction::North, RelativeDirection::Left) => 3,
        (Direction::East, RelativeDirection::Front) => 5,
        (Direction::East, RelativeDirection::Right) => 7,
        (Direction::East, RelativeDirection::Back) => 3,
        (Direction::East, RelativeDirection::Left) => 1,
        (Direction::South, RelativeDirection::Front) => 7,
        (Direction::South, RelativeDirection::Right) => 3,
        (Direction::South, RelativeDirection::Back) => 1,
        (Direction::South, RelativeDirection::Left) => 5,
        (Direction::West, RelativeDirection::Front) => 3,
        (Direction::West, RelativeDirection::Right) => 1,
        (Direction::West, RelativeDirection::Back) => 5,
        (Direction::West, RelativeDirection::Left) => 7,
    }
}

/// The index of the cell that a move leads to: the one whose place, seen from
/// the player, is the step of the move.
pub open spec fn radar_index_of(direction: Direction, relative: RelativeDirection) -> int {
    let step = offset_of(direction, relative);
    (1 - step.1) * 3 + (step.0 + 1)
}

/// The index of the cell that a move leads to is the only one below 9 whose
/// place is the step of the move.
pub proof fn lemma_radar_index(direction: Direction, relative: RelativeDirection, index: int)
    requires
        0 <= index < 9,
    ensures
        relative_position_of(index) == offset_of(direction, relative) <==> index
            == radar_index_of(direction, relative),
{
}

/// The cell is seen and free: nothing lies on it and nobody stands on it.
pub open spec fn is_free(cell: Cell) -> bool {
    cell == (Cell::Valid { element: Element::Nothing, entity: Entity::Nobody })
}

/// The cell is seen and holds the target, with nobody on it.
pub open spec fn is_exit(cell: Cell) -> bool {
    cell == (Cell::Valid { element: Element::Target, entity: Entity::Nobody })
}

/// The cell of a radar view that a move leads to.
pub open spec fn cell_toward(
    cells: Seq<Cell>,
    direction: Direction,
    relative: RelativeDirection,
) -> Cell {
    cells[radar_index_of(direction, relative)]
}

/// Tells whether a move leads to a free cell of the radar view, which holds the
/// four cells next to its middle.
pub fn can_move_to_direction(
    radar: &RadarView,
    player_direction: Direction,
    relative: RelativeDirection,
) -> (free: bool)
    requires
        radar.cells@.len() >= 8,
    ensures
        free == is_free(cell_toward(radar.cells@, player_direction, relative)),
{
    let index = get_radar_index_for_direction(player_direction, relative);
    match radar.cells[index] {
        Cell::Valid { element: Element::Nothing, entity: Entity::Nobody } => true,
        _ => false,
    }
}

impl RelativeDirection {
    /// The `k`-th move in the order in which moves are tried: right, front,
    /// left, back.
    pub open spec fn in_order(k: int) -> RelativeDirection {
        if k == 0 {
            RelativeDirection::Right
        } else if k == 1 {
            RelativeDirection::Front
        } else if k == 2 {
            RelativeDirection::Left
        } else {
            RelativeDirection::Back
        }
    }

    /// The place of a move in the order in which moves are tried.
    pub open spec fn rank(self) -> int {
        match self {
            RelativeDirection::Right => 0,
            RelativeDirection::Front => 1,
            RelativeDirection::Left => 2,
            RelativeDirection::Back => 3,
        }
    }

    /// Gives the `k`-th move in the order in which moves are tried.
    pub fn nth(k: usize) -> (relative: RelativeDirection)
        requires
            k < 4,
        ensures
            relative == RelativeDirection::in_order(k as int),
            relative.rank() == k,
    {
        if k == 0 {
            RelativeDirection::Right
        } else if k == 1 {
            RelativeDirection::Front
        } else if k == 2 {
            RelativeDirection::Left
        } else {
            RelativeDirection::Back
        }
    }
}

/// What a move is chosen for.
#[derive(Debug, Clone, Copy, PartialEq, Eq, Structural)]
pub enum Aim {
    /// The exit, seen on the radar view.
    Exit,
    /// A free cell on a square that no player has stood on.
    Fresh,
    /// A free cell.
    Free,
}

/// A move serves an aim, for a player that stands at `position` with that
/// bearing.
pub open spec fn serves(
    cells: Seq<Cell>,
    visited: Set<(int, int)>,
    position: (int, int),
    direction: Direction,
    relative: RelativeDirection,
    aim: Aim,
) -> bool {
    let cell = cell_toward(cells, direction, relative);
    match aim {
        Aim::Exit => is_exit(cell),
        Aim::Fresh => is_free(cell) && !visited.contains(
            moved(position, offset_of(direction, relative)),
        ),
        Aim::Free => is_free(cell),
    }
}

/// The first move, in the order right, front, left, back, that serves an aim.
pub open spec fn first_serving(
    cells: Seq<Cell>,
    visited: Set<(int, int)>,
    position: (int, int),
    direction: Direction,
    aim: Aim,
) -> Option<RelativeDirection> {
    if serves(cells, visited, position, direction, RelativeDirection::Right, aim) {
        Some(RelativeDirection::Right)
    } else if serves(cells, visited, position, direction, RelativeDirection::Front, aim) {
        Some(RelativeDirection::Front)
    } else if serves(cells, visited, position, direction, RelativeDirection::Left, aim) {
        Some(RelativeDirection::Left)
    } else if serves(cells, visited, position, direction, RelativeDirection::Back, aim) {
        Some(RelativeDirection::Back)
    } else {
        None
    }
}

/// The move that is chosen: to the exit if it is next to the player, else to a
/// free cell that no player has stood on, else to a free cell, else back.
pub open spec fn chosen_relative(
    cells: Seq<Cell>,
    visited: Set<(int, int)>,
    position: (int, int),
    direction: Direction,
) -> RelativeDirection {
    if first_serving(cells, visited, position, direction, Aim::Exit) is Some {
        first_serving(cells, visited, position, direction, Aim::Exit).unwrap()
    } else if first_serving(cells, visited, position, direction, Aim::Fresh) is Some {
        first_serving(cells, visited, position, direction, Aim::Fresh).unwrap()
    } else if first_serving(cells, visited, position, direction, Aim::Free) is Some {
        first_serving(cells, visited, position, direction, Aim::Free).unwrap()
    } else {
        RelativeDirection::Back
    }
}

/// The squares next to `position` have 32-bit coordinates.
pub open spec fn inside(position: (int, int)) -> bool {
    &&& i32::MIN < position.0 < i32::MAX
    &&& i32::MIN < position.1 < i32::MAX
}

/// Finds the first move, in the order in which moves are tried, that serves an
/// aim.
fn first_move_serving(player: &Player, state: &GameState, radar: &RadarView, aim: Aim) -> (found:
    Option<RelativeDirection>)
    requires
        radar.cells@.len() >= 8,
        inside(pair(player.position)),
    ensures
        found == first_serving(
            radar.cells@,
            state.visited@,
            pair(player.position),
            player.direction,
            aim,
        ),
{
    let mut k: usize = 0;
    while k < 4
        invariant
            k <= 4,
            radar.cells@.len() >= 8,
            inside(pair(player.position)),
            forall|j: int|
                0 <= j < k ==> !serves(
                    radar.cells@,
                    state.visited@,
                    pair(player.position),
                    player.direction,
                    #[trigger] RelativeDirection::in_order(j),
                    aim,
                ),
        decreases 4 - k,
    {
        let direction = RelativeDirection::nth(k);
        let index = get_radar_index_for_direction(player.direction, direction);
        let found = match aim {
            Aim::Exit => match radar.cells[index] {
                Cell::Valid { element: Element::Target, entity: Entity::Nobody } => true,
                _ => false,
            },
            Aim::Fresh => {
                if can_move_to_direction(radar, player.direction, direction) {
                    let (dx, dy) = get_offset(player.direction, &direction);
                    let next_pos = (player.position.0 + dx, player.position.1 + dy);
                    !state.visited.contains(next_pos.0, next_pos.1)
                } else {
                    false
                }
            },
            Aim::Free => can_move_to_direction(radar, player.direction, direction),
        };
        if found {
            proof {
                assert(RelativeDirection::in_order(0) == RelativeDirection::Right);
                assert(RelativeDirection::in_order(1) == RelativeDirection::Front);
                assert(RelativeDirection::in_order(2) == RelativeDirection::Left);
            }
            return Some(direction);
        }
        k += 1;
    }
    proof {
        assert(RelativeDirection::in_order(0) == RelativeDirection::Right);
        assert(RelativeDirection::in_order(1) == RelativeDirection::Front);
        assert(RelativeDirection::in_order(2) == RelativeDirection::Left);
        assert(RelativeDirection::in_order(3) == RelativeDirection::Back);
    }
    None
}

/// Chooses the next move of a player on a radar view, which holds the four cells
/// next to its middle.
pub fn choose_next_move(player: &Player, state: &GameState, radar: &RadarView) -> (relative:
    RelativeDirection)
    requires
        radar.cells@.len() >= 8,
        inside(pair(player.position)),
    ensures
        relative == chosen_relative(
            radar.cells@,
            state.visited@,
            pair(player.position),
            player.direction,
        ),
{
    if let Some(direction) = first_move_serving(player, state, radar, Aim::Exit) {
        return direction;
    }
    if let Some(direction) = first_move_serving(player, state, radar, Aim::Fresh) {
        return direction;
    }
    if let Some(direction) = first_move_serving(player, state, radar, Aim::Free) {
        return direction;
    }
    RelativeDirection::Back
}

/// The index, in a radar view taken at `position`, of the cell that lies on the
/// square `p`, where `p` is next to `position` or is `position`.
pub open spec fn index_seen_at(position: (int, int), p: (int, int)) -> int {
    (1 - (p.1 - position.1)) * 3 + (p.0 - position.0 + 1)
}

/// One of the first `count` cells of a radar view taken at `position` lies on
/// the square `p` and is in sight.
pub open spec fn in_sight(
    position: (int, int),
    radar_cells: Seq<Cell>,
    count: int,
    p: (int, int),
) -> bool {
    &&& position.0 - 1 <= p.0 <= position.0 + 1
    &&& position.1 - 1 <= p.1 <= position.1 + 1
    &&& index_seen_at(position, p) < count
    &&& index_seen_at(position, p) < radar_cells.len()
    &&& radar_cells[index_seen_at(position, p)] is Valid
}

/// The cells that a map holds once the first `count` cells of a radar view have
/// been seen by a player at `position`: each cell in sight is kept on the square
/// that it lies on, in place of what the map held there.
pub open spec fn cells_seen(
    held: Map<(int, int), Cell>,
    position: (int, int),
    radar_cells: Seq<Cell>,
    count: int,
) -> Map<(int, int), Cell> {
    Map::new(
        |p: (int, int)| held.contains_key(p) || in_sight(position, radar_cells, count, p),
        |p: (int, int)|
            if in_sight(position, radar_cells, count, p) {
                radar_cells[index_seen_at(position, p)]
            } else {
                held[p]
            },
    )
}

/// A cell of the first `count` is in sight.
pub open spec fn any_in_sight(radar_cells: Seq<Cell>, count: int) -> bool {
    exists|i: int| 0 <= i < count && (#[trigger] radar_cells[i]) is Valid
}

impl GameState {
    /// A state without secrets, cells or visited squares.
    pub fn new() -> (state: GameState)
        ensures
            state.team_secrets@ == Map::<Seq<char>, u64>::empty(),
            state.map.cells@ == Map::<(int, int), Cell>::empty(),
            state.visited@ == Set::<(int, int)>::empty(),
    {
        GameState {
            team_secrets: TeamSecrets::new(),
            map: GameMap { cells: GridMap::new() },
            visited: GridSet::new(),
        }
    }

    /// Records the secret of a player, in place of an earlier one of that player.
    pub fn update_secret(&mut self, player_name: &str, secret: u64)
        ensures
            final(self).team_secrets@ == old(self).team_secrets@.insert(player_name@, secret),
            final(self).map.cells@ == old(self).map.cells@,
            final(self).visited@ == old(self).visited@,
    {
        self.team_secrets.insert(player_name.to_owned(), secret);
    }

    /// Computes the sum of the secrets of the team, reduced by a modulus that is
    /// not 0. The sum is taken in 128 bits, where it cannot overflow.
    pub fn calculate_secret_sum_modulo(&self, modulo: u64) -> (answer: u64)
        requires
            modulo != 0,
        ensures
            answer == secret_sum(self.team_secrets@) % (modulo as int),
    {
        let total = self.team_secrets.total();
        (total % modulo as u128) as u64
    }

    /// Keeps the cells in sight of a radar view on the squares that they lie on,
    /// seen from the player, and marks the square of the player as visited if
    /// any cell is in sight. Every cell in sight is one of the first nine and
    /// lies on a square with 32-bit coordinates.
    pub fn update_from_radar(&mut self, player: &Player, radar: &RadarView)
        requires
            forall|i: int|
                0 <= i < radar.cells@.len() && (#[trigger] radar.cells@[i]) is Valid ==> i < 9
                    && on_grid(moved(pair(player.position), relative_position_of(i))),
        ensures
            final(self).map.cells@ == cells_seen(
                old(self).map.cells@,
                pair(player.position),
                radar.cells@,
                radar.cells@.len() as int,
            ),
            final(self).visited@ == (if any_in_sight(radar.cells@, radar.cells@.len() as int) {
                old(self).visited@.insert(pair(player.position))
            } else {
                old(self).visited@
            }),
            final(self).team_secrets@ == old(self).team_secrets@,
    {
        let ghost held = self.map.cells@;
        let ghost visited = self.visited@;
        let ghost position = pair(player.position);
        let mut i: usize = 0;
        while i < radar.cells.len()
            invariant
                i <= radar.cells@.len(),
                position == pair(player.position),
                forall|j: int|
                    0 <= j < radar.cells@.len() && (#[trigger] radar.cells@[j]) is Valid ==> j < 9
                        && on_grid(moved(position, relative_position_of(j))),
                self.map.cells@ == cells_seen(held, position, radar.cells@, i as int),
                self.visited@ == (if any_in_sight(radar.cells@, i as int) {
                    visited.insert(position)
                } else {
                    visited
                }),
                self.team_secrets@ == old(self).team_secrets@,
            decreases radar.cells@.len() - i,
        {
            if let Cell::Valid { element, entity } = radar.cells[i] {
                let (dx, dy) = get_relative_position(i);
                let abs_x = player.position.0 + dx;
                let abs_y = player.position.1 + dy;
                self.map.cells.insert(abs_x, abs_y, Cell::Valid { element, entity });
                self.visited.insert(player.position.0, player.position.1);
            } else {
            }
            i += 1;
        }
    }
}

/// A cell in sight lies on the square at its place from the player, and each
/// square around the player holds the cell of one index.
pub proof fn lemma_index_seen_at(position: (int, int), i: int)
    requires
        0 <= i < 9,
    ensures
        index_seen_at(position, moved(position, relative_position_of(i))) == i,
{
}

} // verus!
