use maze_game::team_secrets::TeamSecrets;

#[test]
fn secrets_are_kept_by_name() {
    let mut secrets = TeamSecrets::new();
    assert_eq!(secrets.len(), 0);
    assert_eq!(secrets.total(), 0);
    assert_eq!(secrets.get(&String::from("A")), None);
    secrets.insert(String::from("A"), 5);
    secrets.insert(String::from("B"), 7);
    secrets.insert(String::from(""), 1);
    assert_eq!(secrets.len(), 3);
    assert_eq!(secrets.total(), 13);
    assert_eq!(secrets.get(&String::from("A")), Some(5));
    assert_eq!(secrets.get(&String::from("B")), Some(7));
    assert_eq!(secrets.get(&String::from("")), Some(1));
    assert_eq!(secrets.get(&String::from("a")), None);
}

#[test]
fn a_secret_of_the_same_player_counts_once() {
    let mut secrets = TeamSecrets::new();
    secrets.insert(String::from("A"), 5);
    secrets.insert(String::from("A"), 6);
    secrets.insert(String::from("A"), 7);
    assert_eq!(secrets.len(), 1);
    assert_eq!(secrets.total(), 7);
    assert_eq!(secrets.get(&String::from("A")), Some(7));
}

#[test]
fn the_total_is_taken_in_128_bits() {
    let mut secrets = TeamSecrets::new();
    secrets.insert(String::from("A"), u64::MAX);
    secrets.insert(String::from("B"), u64::MAX);
    assert_eq!(secrets.total(), 2 * (u64::MAX as u128));
    assert_eq!(secrets.total(), 36893488147419103230);
}
