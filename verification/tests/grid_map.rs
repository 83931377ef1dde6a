use maze_game::grid_map::{GridMap, GridSet};

#[test]
fn a_grid_map_keeps_one_value_for_each_square() {
    let mut map: GridMap<u8> = GridMap::new();
    assert_eq!(map.get(0, 0), None);
    assert!(!map.contains_key(0, 0));
    map.insert(0, 0, 1);
    map.insert(0, 1, 2);
    map.insert(1, 0, 3);
    map.insert(-1, 0, 4);
    map.insert(0, -1, 5);
    assert_eq!(map.get(0, 0), Some(&1));
    assert_eq!(map.get(0, 1), Some(&2));
    assert_eq!(map.get(1, 0), Some(&3));
    assert_eq!(map.get(-1, 0), Some(&4));
    assert_eq!(map.get(0, -1), Some(&5));
    assert_eq!(map.get(1, 1), None);
    map.insert(0, 1, 9);
    assert_eq!(map.get(0, 1), Some(&9));
    assert_eq!(map.get(1, 0), Some(&3));
    assert!(map.contains_key(-1, 0));
    assert!(!map.contains_key(-1, -1));
}

#[test]
fn squares_at_the_ends_of_the_grid_are_kept_apart() {
    let mut map: GridMap<u8> = GridMap::new();
    map.insert(i32::MIN, i32::MIN, 1);
    map.insert(i32::MIN, i32::MAX, 2);
    map.insert(i32::MAX, i32::MIN, 3);
    map.insert(i32::MAX, i32::MAX, 4);
    map.insert(-1, i32::MAX, 5);
    map.insert(0, i32::MIN, 6);
    assert_eq!(map.get(i32::MIN, i32::MIN), Some(&1));
    assert_eq!(map.get(i32::MIN, i32::MAX), Some(&2));
    assert_eq!(map.get(i32::MAX, i32::MIN), Some(&3));
    assert_eq!(map.get(i32::MAX, i32::MAX), Some(&4));
    assert_eq!(map.get(-1, i32::MAX), Some(&5));
    assert_eq!(map.get(0, i32::MIN), Some(&6));
    assert_eq!(map.get(0, 0), None);
}

#[test]
fn a_grid_set_holds_the_squares_that_were_added() {
    let mut set = GridSet::new();
    assert!(!set.contains(3, -4));
    set.insert(3, -4);
    set.insert(3, -4);
    set.insert(i32::MAX, i32::MIN);
    assert!(set.contains(3, -4));
    assert!(set.contains(i32::MAX, i32::MIN));
    assert!(!set.contains(-4, 3));
    assert!(!set.contains(i32::MIN, i32::MAX));
}
