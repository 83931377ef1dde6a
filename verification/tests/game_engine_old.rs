use maze_game::game_engine_old::{
    can_move_to_direction, choose_next_move, get_offset, get_radar_index_for_direction,
    get_relative_position, move_player, Direction, GameState, Player, RelativeDirection,
};
use maze_game::radar_view::{Cell, Element, Entity, RadarView, WallState};

const FREE: Cell = Cell::Valid { element: Element::Nothing, entity: Entity::Nobody };
const EXIT: Cell = Cell::Valid { element: Element::Target, entity: Entity::Nobody };

fn view(cells: Vec<Cell>) -> RadarView {
    RadarView {
        horizontal: vec![WallState::Undefined; 12],
        vertical: vec![WallState::Undefined; 12],
        cells,
    }
}

fn player_at(x: i32, y: i32, direction: Direction) -> Player {
    Player { name: String::from("p"), position: (x, y), direction, secret: None }
}

const BEARINGS: [Direction; 4] =
    [Direction::North, Direction::East, Direction::South, Direction::West];
const SIDES: [RelativeDirection; 4] = [
    RelativeDirection::Front,
    RelativeDirection::Right,
    RelativeDirection::Back,
    RelativeDirection::Left,
];

#[test]
fn offsets_turn_with_the_bearing() {
    assert_eq!(get_offset(Direction::North, &RelativeDirection::Front), (0, 1));
    assert_eq!(get_offset(Direction::North, &RelativeDirection::Right), (1, 0));
    assert_eq!(get_offset(Direction::North, &RelativeDirection::Back), (0, -1));
    assert_eq!(get_offset(Direction::North, &RelativeDirection::Left), (-1, 0));
    assert_eq!(get_offset(Direction::East, &RelativeDirection::Front), (1, 0));
    assert_eq!(get_offset(Direction::East, &RelativeDirection::Right), (0, -1));
    assert_eq!(get_offset(Direction::East, &RelativeDirection::Back), (-1, 0));
    assert_eq!(get_offset(Direction::East, &RelativeDirection::Left), (0, 1));
    assert_eq!(get_offset(Direction::South, &RelativeDirection::Front), (0, -1));
    assert_eq!(get_offset(Direction::South, &RelativeDirection::Right), (-1, 0));
    assert_eq!(get_offset(Direction::South, &RelativeDirection::Back), (0, 1));
    assert_eq!(get_offset(Direction::South, &RelativeDirection::Left), (1, 0));
    assert_eq!(get_offset(Direction::West, &RelativeDirection::Front), (-1, 0));
    assert_eq!(get_offset(Direction::West, &RelativeDirection::Right), (0, 1));
    assert_eq!(get_offset(Direction::West, &RelativeDirection::Back), (1, 0));
    assert_eq!(get_offset(Direction::West, &RelativeDirection::Left), (0, -1));
}

#[test]
fn cells_of_a_view_lie_around_the_player() {
    assert_eq!(get_relative_position(0), (-1, 1));
    assert_eq!(get_relative_position(1), (0, 1));
    assert_eq!(get_relative_position(2), (1, 1));
    assert_eq!(get_relative_position(3), (-1, 0));
    assert_eq!(get_relative_position(4), (0, 0));
    assert_eq!(get_relative_position(5), (1, 0));
    assert_eq!(get_relative_position(6), (-1, -1));
    assert_eq!(get_relative_position(7), (0, -1));
    assert_eq!(get_relative_position(8), (1, -1));
}

#[test]
fn the_cell_of_a_move_lies_where_the_move_leads() {
    assert_eq!(get_radar_index_for_direction(Direction::North, RelativeDirection::Front), 1);
    assert_eq!(get_radar_index_for_direction(Direction::North, RelativeDirection::Right), 5);
    assert_eq!(get_radar_index_for_direction(Direction::North, RelativeDirection::Back), 7);
    assert_eq!(get_radar_index_for_direction(Direction::North, RelativeDirection::Left), 3);
    assert_eq!(get_radar_index_for_direction(Direction::West, RelativeDirection::Right), 1);
    for bearing in BEARINGS {
        for side in SIDES {
            let index = get_radar_index_for_direction(bearing, side);
            assert_eq!(get_relative_position(index), get_offset(bearing, &side));
        }
    }
}

#[test]
fn a_player_moves_by_the_offset_and_keeps_its_bearing() {
    let mut player = player_at(3, -2, Direction::East);
    move_player(&mut player, &RelativeDirection::Front);
    assert_eq!(player.position, (4, -2));
    move_player(&mut player, &RelativeDirection::Left);
    assert_eq!(player.position, (4, -1));
    move_player(&mut player, &RelativeDirection::Back);
    move_player(&mut player, &RelativeDirection::Right);
    assert_eq!(player.position, (3, -2));
    assert!(matches!(player.direction, Direction::East));
    assert_eq!(player.name, "p");
}

#[test]
fn only_a_free_cell_can_be_moved_to() {
    let mut cells = vec![Cell::Invalid; 9];
    cells[1] = FREE;
    cells[5] = EXIT;
    cells[7] = Cell::Valid { element: Element::Nothing, entity: Entity::Monster };
    cells[3] = Cell::Valid { element: Element::Clue, entity: Entity::Nobody };
    let radar = view(cells);
    assert!(can_move_to_direction(&radar, Direction::North, RelativeDirection::Front));
    assert!(!can_move_to_direction(&radar, Direction::North, RelativeDirection::Right));
    assert!(!can_move_to_direction(&radar, Direction::North, RelativeDirection::Back));
    assert!(!can_move_to_direction(&radar, Direction::North, RelativeDirection::Left));
    assert!(can_move_to_direction(&radar, Direction::East, RelativeDirection::Left));
    assert!(can_move_to_direction(&radar, Direction::South, RelativeDirection::Back));
}

#[test]
fn the_exit_is_chosen_first() {
    let mut cells = vec![FREE; 9];
    cells[3] = EXIT;
    let state = GameState::new();
    let chosen = choose_next_move(&player_at(0, 0, Direction::North), &state, &view(cells));
    assert_eq!(chosen, RelativeDirection::Left);
}

#[test]
fn an_exit_with_somebody_on_it_is_no_exit() {
    let mut cells = vec![Cell::Invalid; 9];
    cells[3] = Cell::Valid { element: Element::Target, entity: Entity::Enemy };
    cells[7] = FREE;
    let state = GameState::new();
    let chosen = choose_next_move(&player_at(0, 0, Direction::North), &state, &view(cells));
    assert_eq!(chosen, RelativeDirection::Back);
}

#[test]
fn moves_are_tried_right_front_left_back() {
    let state = GameState::new();
    let chosen = choose_next_move(&player_at(0, 0, Direction::North), &state, &view(vec![FREE; 9]));
    assert_eq!(chosen, RelativeDirection::Right);
    let mut cells = vec![FREE; 9];
    cells[5] = Cell::Invalid;
    let chosen = choose_next_move(&player_at(0, 0, Direction::North), &state, &view(cells));
    assert_eq!(chosen, RelativeDirection::Front);
}

#[test]
fn a_square_not_visited_is_chosen_before_a_visited_one() {
    let mut state = GameState::new();
    state.visited.insert(1, 0);
    state.visited.insert(0, 1);
    let player = player_at(0, 0, Direction::North);
    let chosen = choose_next_move(&player, &state, &view(vec![FREE; 9]));
    assert_eq!(chosen, RelativeDirection::Left);
    state.visited.insert(-1, 0);
    state.visited.insert(0, -1);
    // Everything around is visited: the first free cell.
    let chosen = choose_next_move(&player, &state, &view(vec![FREE; 9]));
    assert_eq!(chosen, RelativeDirection::Right);
}

#[test]
fn with_nothing_free_the_move_is_back() {
    let state = GameState::new();
    let chosen =
        choose_next_move(&player_at(0, 0, Direction::West), &state, &view(vec![Cell::Invalid; 9]));
    assert_eq!(chosen, RelativeDirection::Back);
}

#[test]
fn cells_in_sight_are_kept_and_the_square_of_the_player_is_visited() {
    let mut state = GameState::new();
    let player = player_at(10, 20, Direction::North);
    let mut cells = vec![Cell::Invalid; 9];
    cells[0] = FREE;
    cells[4] = Cell::Valid { element: Element::Clue, entity: Entity::Ally };
    cells[8] = EXIT;
    state.update_from_radar(&player, &view(cells));
    assert_eq!(state.map.cells.get(9, 21), Some(&FREE));
    assert_eq!(
        state.map.cells.get(10, 20),
        Some(&Cell::Valid { element: Element::Clue, entity: Entity::Ally })
    );
    assert_eq!(state.map.cells.get(11, 19), Some(&EXIT));
    assert_eq!(state.map.cells.get(10, 21), None);
    assert!(state.visited.contains(10, 20));
    assert!(!state.visited.contains(9, 21));
}

#[test]
fn a_view_with_nothing_in_sight_changes_nothing() {
    let mut state = GameState::new();
    let player = player_at(10, 20, Direction::North);
    state.update_from_radar(&player, &view(vec![Cell::Invalid; 9]));
    assert_eq!(state.map.cells.get(10, 20), None);
    assert!(!state.visited.contains(10, 20));
    state.update_from_radar(&player, &view(vec![]));
    assert!(!state.visited.contains(10, 20));
}

#[test]
fn a_cell_seen_again_takes_the_place_of_the_old_one() {
    let mut state = GameState::new();
    let player = player_at(0, 0, Direction::North);
    state.update_from_radar(&player, &view(vec![FREE; 9]));
    let mut cells = vec![Cell::Invalid; 9];
    cells[5] = EXIT;
    state.update_from_radar(&player, &view(cells));
    assert_eq!(state.map.cells.get(1, 0), Some(&EXIT));
    assert_eq!(state.map.cells.get(-1, 0), Some(&FREE));
}

#[test]
fn secrets_of_the_compass_state_are_summed() {
    let mut state = GameState::new();
    state.update_secret("A", 5);
    state.update_secret("B", 7);
    assert_eq!(state.calculate_secret_sum_modulo(4), 0);
    state.update_secret("B", u64::MAX);
    // 5 + 2^64 - 1 = 18446744073709551620.
    assert_eq!(state.calculate_secret_sum_modulo(100), 20);
}
