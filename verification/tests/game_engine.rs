use maze_game::game_engine::{Direction, GameState, GlobalCell, GlobalMap};
use maze_game::radar_view::{decode_radarview, Cell, Element, Entity, RadarView, WallState};

fn radar_of(cells: Vec<Cell>) -> RadarView {
    RadarView {
        horizontal: vec![WallState::Undefined; 12],
        vertical: vec![WallState::Undefined; 12],
        cells,
    }
}

fn free() -> Cell {
    Cell::Valid { element: Element::Nothing, entity: Entity::Nobody }
}

fn cell(map: &GlobalMap, x: i32, y: i32) -> Option<GlobalCell> {
    map.map.get(x, y).copied()
}

#[test]
fn new_map_holds_the_player_at_the_origin() {
    let map = GlobalMap::new();
    assert_eq!(map.player_pos, (0, 0));
    assert_eq!(map.player_direction, Direction::Front);
    assert_eq!(cell(&map, 0, 0), Some(GlobalCell::Player));
    assert_eq!(cell(&map, 0, 1), None);
    assert_eq!(cell(&map, -1, 0), None);
}

#[test]
fn secret_sum_of_5_and_7_modulo_4_is_0() {
    let mut state = GameState::new();
    state.update_secret("A", 5);
    state.update_secret("B", 7);
    state.modulo = 4;
    assert_eq!(state.calculate_secret_sum_modulo(state.modulo), 0);
    assert_eq!(state.calculate_secret_sum_modulo(5), 2);
    assert_eq!(state.calculate_secret_sum_modulo(13), 12);
}

#[test]
fn secret_sum_without_secrets_is_0() {
    let state = GameState::new();
    assert_eq!(state.modulo, 0);
    assert_eq!(state.calculate_secret_sum_modulo(7), 0);
    assert_eq!(state.calculate_secret_sum_modulo(1), 0);
}

#[test]
fn a_new_secret_takes_the_place_of_the_old_one() {
    let mut state = GameState::new();
    state.update_secret("A", 5);
    state.update_secret("B", 7);
    state.update_secret("A", 100);
    assert_eq!(state.team_secrets.get(&String::from("A")), Some(100));
    assert_eq!(state.team_secrets.get(&String::from("B")), Some(7));
    assert_eq!(state.team_secrets.get(&String::from("C")), None);
    assert_eq!(state.team_secrets.len(), 2);
    assert_eq!(state.calculate_secret_sum_modulo(1000), 107);
}

#[test]
fn secret_sum_does_not_overflow() {
    let mut state = GameState::new();
    state.update_secret("A", u64::MAX);
    state.update_secret("B", u64::MAX);
    state.update_secret("C", u64::MAX);
    // 3 * (2^64 - 1) = 55340232221128654845, and 2^64 mod 10 is 6.
    assert_eq!(state.calculate_secret_sum_modulo(10), 5);
    assert_eq!(state.calculate_secret_sum_modulo(u64::MAX), 0);
    assert_eq!(state.calculate_secret_sum_modulo(1_000_000_007), 747032014);
}

#[test]
fn goal_beats_unexplored() {
    // Front is the goal, right is unknown.
    let mut map = GlobalMap::new();
    map.map.insert(0, -1, GlobalCell::Goal);
    map.map.insert(1, 0, GlobalCell::Unknown);
    assert_eq!(map.next_move(Direction::Front), Direction::Front);
    assert_eq!(map.next_move(Direction::Back), Direction::Front);
    // The goal behind, everything else unknown: the goal still wins.
    let mut map = GlobalMap::new();
    map.map.insert(0, 1, GlobalCell::Goal);
    assert_eq!(map.next_move(Direction::Front), Direction::Back);
}

#[test]
fn the_first_goal_in_the_order_of_moves_is_chosen() {
    let mut map = GlobalMap::new();
    map.map.insert(-1, 0, GlobalCell::Goal);
    map.map.insert(1, 0, GlobalCell::Goal);
    assert_eq!(map.next_move(Direction::Front), Direction::Right);
}

#[test]
fn fresh_map_moves_front() {
    let map = GlobalMap::new();
    assert_eq!(map.next_move(Direction::Front), Direction::Front);
}

#[test]
fn unknown_and_absent_squares_are_both_unvisited() {
    let mut map = GlobalMap::new();
    map.map.insert(0, -1, GlobalCell::Open);
    map.map.insert(1, 0, GlobalCell::Unknown);
    map.map.insert(-1, 0, GlobalCell::Open);
    map.map.insert(0, 1, GlobalCell::Open);
    assert_eq!(map.next_move(Direction::Front), Direction::Right);
    let mut map = GlobalMap::new();
    map.map.insert(0, -1, GlobalCell::Open);
    map.map.insert(1, 0, GlobalCell::Wall);
    map.map.insert(0, 1, GlobalCell::Open);
    // Left is absent.
    assert_eq!(map.next_move(Direction::Front), Direction::Left);
}

#[test]
fn unexplored_beats_open() {
    let mut map = GlobalMap::new();
    map.map.insert(0, -1, GlobalCell::Open);
    map.map.insert(1, 0, GlobalCell::Open);
    map.map.insert(-1, 0, GlobalCell::Open);
    map.map.insert(0, 1, GlobalCell::Unknown);
    assert_eq!(map.next_move(Direction::Front), Direction::Back);
}

#[test]
fn open_square_is_chosen_when_nothing_is_unexplored() {
    let mut map = GlobalMap::new();
    map.map.insert(0, -1, GlobalCell::Wall);
    map.map.insert(1, 0, GlobalCell::Wall);
    map.map.insert(-1, 0, GlobalCell::Open);
    map.map.insert(0, 1, GlobalCell::Open);
    assert_eq!(map.next_move(Direction::Right), Direction::Left);
    // All four open: the first in the order of moves.
    let mut map = GlobalMap::new();
    map.map.insert(0, -1, GlobalCell::Open);
    map.map.insert(1, 0, GlobalCell::Open);
    map.map.insert(-1, 0, GlobalCell::Open);
    map.map.insert(0, 1, GlobalCell::Open);
    assert_eq!(map.next_move(Direction::Right), Direction::Front);
}

#[test]
fn dead_end_reverses_the_facing() {
    // All four neighbours are walls: facing right, the player turns left.
    let mut map = GlobalMap::new();
    map.map.insert(0, -1, GlobalCell::Wall);
    map.map.insert(1, 0, GlobalCell::Wall);
    map.map.insert(-1, 0, GlobalCell::Wall);
    map.map.insert(0, 1, GlobalCell::Wall);
    assert_eq!(map.next_move(Direction::Right), Direction::Left);
    assert_eq!(map.next_move(Direction::Left), Direction::Right);
    assert_eq!(map.next_move(Direction::Front), Direction::Back);
    assert_eq!(map.next_move(Direction::Back), Direction::Front);
    // Players around count as neither free nor unknown.
    let mut map = GlobalMap::new();
    map.map.insert(0, -1, GlobalCell::Player);
    map.map.insert(1, 0, GlobalCell::Wall);
    map.map.insert(-1, 0, GlobalCell::Player);
    map.map.insert(0, 1, GlobalCell::Wall);
    assert_eq!(map.next_move(Direction::Right), Direction::Left);
}

#[test]
fn moves_are_steps_on_the_map() {
    assert_eq!(Direction::Front.offset(), (0, -1));
    assert_eq!(Direction::Right.offset(), (1, 0));
    assert_eq!(Direction::Left.offset(), (-1, 0));
    assert_eq!(Direction::Back.offset(), (0, 1));
    assert_eq!(Direction::Front.reverse(), Direction::Back);
    assert_eq!(Direction::Right.reverse(), Direction::Left);
    assert_eq!(Direction::Left.reverse(), Direction::Right);
    assert_eq!(Direction::Back.reverse(), Direction::Front);
    assert_eq!(Direction::nth(0), Direction::Front);
    assert_eq!(Direction::nth(1), Direction::Right);
    assert_eq!(Direction::nth(2), Direction::Left);
    assert_eq!(Direction::nth(3), Direction::Back);
}

#[test]
fn move_player_leaves_an_open_square_behind() {
    let mut map = GlobalMap::new();
    map.move_player(Direction::Right);
    assert_eq!(map.player_pos, (1, 0));
    assert_eq!(map.player_direction, Direction::Right);
    assert_eq!(cell(&map, 0, 0), Some(GlobalCell::Open));
    assert_eq!(cell(&map, 1, 0), Some(GlobalCell::Player));
    map.move_player(Direction::Front);
    assert_eq!(map.player_pos, (1, -1));
    assert_eq!(map.player_direction, Direction::Front);
    assert_eq!(cell(&map, 1, 0), Some(GlobalCell::Open));
    assert_eq!(cell(&map, 1, -1), Some(GlobalCell::Player));
    map.move_player(Direction::Left);
    map.move_player(Direction::Back);
    assert_eq!(map.player_pos, (0, 0));
    assert_eq!(cell(&map, 0, 0), Some(GlobalCell::Player));
    assert_eq!(cell(&map, 0, -1), Some(GlobalCell::Open));
}

#[test]
fn move_player_moves_onto_any_square() {
    // The move is made before the server confirms it, whatever the map holds.
    let mut map = GlobalMap::new();
    map.map.insert(0, 1, GlobalCell::Wall);
    map.move_player(Direction::Back);
    assert_eq!(map.player_pos, (0, 1));
    assert_eq!(cell(&map, 0, 1), Some(GlobalCell::Player));
    assert_eq!(cell(&map, 0, 0), Some(GlobalCell::Open));
}

#[test]
fn radar_view_is_brought_onto_the_window_around_the_player() {
    let mut map = GlobalMap::new();
    map.move_player(Direction::Right);
    map.move_player(Direction::Right);
    map.move_player(Direction::Back);
    assert_eq!(map.player_pos, (2, 1));
    let radar = radar_of(vec![
        Cell::Valid { element: Element::Target, entity: Entity::Nobody },
        Cell::Valid { element: Element::Nothing, entity: Entity::Ally },
        Cell::Valid { element: Element::Clue, entity: Entity::Enemy },
        Cell::Invalid,
        free(),
        Cell::Valid { element: Element::Target, entity: Entity::Ally },
        Cell::Invalid,
        Cell::Valid { element: Element::Nothing, entity: Entity::Monster },
        Cell::Valid { element: Element::Clue, entity: Entity::Ally },
    ]);
    map.update_from_radar(&radar);
    assert_eq!(map.player_pos, (2, 1));
    assert_eq!(map.player_direction, Direction::Back);
    // Row above the player.
    assert_eq!(cell(&map, 1, 0), Some(GlobalCell::Goal));
    assert_eq!(cell(&map, 2, 0), Some(GlobalCell::Player));
    assert_eq!(cell(&map, 3, 0), Some(GlobalCell::Open));
    // Row of the player: the square on the left was not known.
    assert_eq!(cell(&map, 1, 1), Some(GlobalCell::Unknown));
    assert_eq!(cell(&map, 2, 1), Some(GlobalCell::Open));
    assert_eq!(cell(&map, 3, 1), Some(GlobalCell::Goal));
    // Row below.
    assert_eq!(cell(&map, 1, 2), Some(GlobalCell::Unknown));
    assert_eq!(cell(&map, 2, 2), Some(GlobalCell::Open));
    assert_eq!(cell(&map, 3, 2), Some(GlobalCell::Player));
    // Outside the window.
    assert_eq!(cell(&map, 0, 0), Some(GlobalCell::Open));
    assert_eq!(cell(&map, 4, 1), None);
    assert_eq!(cell(&map, 2, 3), None);
}

#[test]
fn a_cell_out_of_sight_does_not_take_knowledge_away() {
    let mut map = GlobalMap::new();
    map.map.insert(-1, -1, GlobalCell::Goal);
    map.map.insert(1, 1, GlobalCell::Wall);
    map.update_from_radar(&radar_of(vec![Cell::Invalid; 9]));
    assert_eq!(cell(&map, -1, -1), Some(GlobalCell::Goal));
    assert_eq!(cell(&map, 1, 1), Some(GlobalCell::Wall));
    assert_eq!(cell(&map, 0, 0), Some(GlobalCell::Player));
    assert_eq!(cell(&map, 0, -1), Some(GlobalCell::Unknown));
    assert_eq!(cell(&map, 1, 0), Some(GlobalCell::Unknown));
}

#[test]
fn an_open_square_may_become_the_goal_or_a_player() {
    let mut map = GlobalMap::new();
    map.update_from_radar(&radar_of(vec![free(); 9]));
    assert_eq!(cell(&map, 1, 0), Some(GlobalCell::Open));
    assert_eq!(cell(&map, 0, 0), Some(GlobalCell::Open));
    let mut cells = vec![free(); 9];
    cells[5] = Cell::Valid { element: Element::Target, entity: Entity::Nobody };
    cells[3] = Cell::Valid { element: Element::Nothing, entity: Entity::Ally };
    map.update_from_radar(&radar_of(cells));
    assert_eq!(cell(&map, 1, 0), Some(GlobalCell::Goal));
    assert_eq!(cell(&map, -1, 0), Some(GlobalCell::Player));
}

#[test]
fn the_sample_view_leads_front_from_a_fresh_map() {
    let mut map = GlobalMap::new();
    let radar = decode_radarview("ieysGjGO8papd/a").unwrap();
    map.update_from_radar(&radar);
    // Cells 1, 3, 4 and 6 are free, the others out of sight: front (cell 1) and
    // left (cell 3) are open, right (cell 5) and back (cell 7) unknown.
    assert_eq!(cell(&map, 0, -1), Some(GlobalCell::Open));
    assert_eq!(cell(&map, -1, 0), Some(GlobalCell::Open));
    assert_eq!(cell(&map, 1, 0), Some(GlobalCell::Unknown));
    assert_eq!(cell(&map, 0, 1), Some(GlobalCell::Unknown));
    assert_eq!(map.next_move(Direction::Front), Direction::Right);
}

#[test]
fn the_player_is_inside_unless_it_stands_on_the_border() {
    let mut map = GlobalMap::new();
    assert!(map.is_inside());
    map.player_pos = (i32::MIN, 5);
    assert!(!map.is_inside());
    map.player_pos = (5, i32::MAX);
    assert!(!map.is_inside());
    map.player_pos = (i32::MIN + 1, i32::MAX - 1);
    assert!(map.is_inside());
    // Next to the border, the map is still read and written.
    map.update_from_radar(&radar_of(vec![free(); 9]));
    assert_eq!(cell(&map, i32::MIN, i32::MAX), Some(GlobalCell::Open));
    assert_eq!(cell(&map, i32::MIN + 2, i32::MAX - 2), Some(GlobalCell::Open));
    map.map.insert(i32::MIN + 1, i32::MAX - 2, GlobalCell::Wall);
    map.map.insert(i32::MIN + 2, i32::MAX - 1, GlobalCell::Wall);
    map.map.insert(i32::MIN + 1, i32::MAX, GlobalCell::Wall);
    assert_eq!(map.next_move(Direction::Front), Direction::Left);
    map.move_player(Direction::Left);
    assert_eq!(map.player_pos, (i32::MIN, i32::MAX - 1));
    assert!(!map.is_inside());
}
