use maze_game::maze::{Maze, PositionMap, PositionSet};
use maze_game::structs::Position;

fn at(x: usize, y: usize) -> Position {
    Position { x, y }
}

fn is_way(maze_walls: &[Position], width: usize, height: usize, path: &[Position]) -> bool {
    let mut i = 1;
    while i < path.len() {
        let (p, q) = (path[i - 1], path[i]);
        let beside = (p.x == q.x && (p.y + 1 == q.y || q.y + 1 == p.y))
            || (p.y == q.y && (p.x + 1 == q.x || q.x + 1 == p.x));
        if !beside || q.x >= width || q.y >= height || maze_walls.contains(&q) {
            return false;
        }
        i += 1;
    }
    !path.is_empty()
}

#[test]
fn neighbors_come_down_right_up_left() {
    let maze = Maze::new(3, 3, at(0, 0), at(2, 2));
    assert_eq!(maze.get_neighbors(at(1, 1)), vec![at(1, 2), at(2, 1), at(1, 0), at(0, 1)]);
    assert_eq!(maze.get_neighbors(at(0, 0)), vec![at(0, 1), at(1, 0)]);
    assert_eq!(maze.get_neighbors(at(2, 2)), vec![at(2, 1), at(1, 2)]);
    assert_eq!(maze.get_neighbors(at(0, 2)), vec![at(1, 2), at(0, 1)]);
}

#[test]
fn walls_and_the_outside_are_no_neighbors() {
    let mut maze = Maze::new(3, 3, at(0, 0), at(2, 2));
    maze.add_wall(at(1, 2));
    maze.add_wall(at(0, 1));
    assert_eq!(maze.get_neighbors(at(1, 1)), vec![at(2, 1), at(1, 0)]);
    // From outside the maze, only squares inside are reached.
    assert_eq!(maze.get_neighbors(at(3, 1)), vec![at(2, 1)]);
    assert_eq!(maze.get_neighbors(at(5, 5)), vec![]);
    assert_eq!(maze.get_neighbors(at(usize::MAX, usize::MAX)), vec![]);
    let empty = Maze::new(0, 0, at(0, 0), at(0, 0));
    assert_eq!(empty.get_neighbors(at(0, 0)), vec![]);
}

#[test]
fn the_way_through_an_open_maze_is_found() {
    let maze = Maze::new(3, 3, at(0, 0), at(2, 2));
    let path = maze.solve().unwrap();
    assert_eq!(path.first(), Some(&at(0, 0)));
    assert_eq!(path.last(), Some(&at(2, 2)));
    assert!(is_way(&[], 3, 3, &path));
    // Down is tried first, then right.
    assert_eq!(path, vec![at(0, 0), at(0, 1), at(0, 2), at(1, 2), at(2, 2)]);
}

#[test]
fn the_way_goes_around_walls() {
    let walls = [at(1, 0), at(1, 1), at(3, 1), at(1, 3), at(2, 3)];
    let mut maze = Maze::new(4, 4, at(0, 0), at(3, 3));
    for wall in walls {
        maze.add_wall(wall);
    }
    let path = maze.solve().unwrap();
    assert_eq!(path.first(), Some(&at(0, 0)));
    assert_eq!(path.last(), Some(&at(3, 3)));
    assert!(is_way(&walls, 4, 4, &path));
    assert_eq!(
        path,
        vec![at(0, 0), at(0, 1), at(0, 2), at(1, 2), at(2, 2), at(3, 2), at(3, 3)]
    );
    // With (2, 2) walled too, the right side is cut off.
    maze.add_wall(at(2, 2));
    assert_eq!(maze.solve(), None);
}

#[test]
fn no_way_is_found_where_there_is_none() {
    let mut maze = Maze::new(3, 3, at(0, 0), at(2, 2));
    maze.add_wall(at(1, 0));
    maze.add_wall(at(1, 1));
    maze.add_wall(at(1, 2));
    assert_eq!(maze.solve(), None);
    // The end is a wall.
    let mut maze = Maze::new(3, 3, at(0, 0), at(2, 2));
    maze.add_wall(at(2, 2));
    assert_eq!(maze.solve(), None);
    // The end lies outside.
    let maze = Maze::new(3, 3, at(0, 0), at(3, 3));
    assert_eq!(maze.solve(), None);
}

#[test]
fn the_way_from_a_square_to_itself_is_that_square() {
    let maze = Maze::new(3, 3, at(1, 1), at(1, 1));
    assert_eq!(maze.solve(), Some(vec![at(1, 1)]));
    // Even on a wall, and outside the maze.
    let mut maze = Maze::new(3, 3, at(1, 1), at(1, 1));
    maze.add_wall(at(1, 1));
    assert_eq!(maze.solve(), Some(vec![at(1, 1)]));
    let maze = Maze::new(0, 0, at(7, 9), at(7, 9));
    assert_eq!(maze.solve(), Some(vec![at(7, 9)]));
}

#[test]
fn a_start_on_a_wall_or_outside_can_be_left() {
    let mut maze = Maze::new(2, 1, at(0, 0), at(1, 0));
    maze.add_wall(at(0, 0));
    assert_eq!(maze.solve(), Some(vec![at(0, 0), at(1, 0)]));
    let maze = Maze::new(2, 1, at(2, 0), at(0, 0));
    assert_eq!(maze.solve(), Some(vec![at(2, 0), at(1, 0), at(0, 0)]));
}

#[test]
fn a_long_corridor_is_walked_to_its_end() {
    let maze = Maze::new(1, 200, at(0, 0), at(0, 199));
    let path = maze.solve().unwrap();
    assert_eq!(path.len(), 200);
    let mut y = 0;
    while y < 200 {
        assert_eq!(path[y], at(0, y));
        y += 1;
    }
}

#[test]
fn sets_and_maps_of_squares_keep_what_they_are_given() {
    let mut set = PositionSet::new();
    assert!(!set.contains(&at(1, 2)));
    set.insert(at(1, 2));
    set.insert(at(usize::MAX, 0));
    assert!(set.contains(&at(1, 2)));
    assert!(set.contains(&at(usize::MAX, 0)));
    assert!(!set.contains(&at(2, 1)));
    assert!(!set.contains(&at(0, usize::MAX)));
    let mut map = PositionMap::new();
    assert_eq!(map.get(&at(1, 2)), None);
    map.insert(at(1, 2), at(0, 0));
    map.insert(at(2, 1), at(5, 5));
    map.insert(at(1, 2), at(9, 9));
    assert_eq!(map.get(&at(1, 2)), Some(at(9, 9)));
    assert_eq!(map.get(&at(2, 1)), Some(at(5, 5)));
    assert_eq!(map.get(&at(2, 2)), None);
}
