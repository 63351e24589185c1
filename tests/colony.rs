use ant_colony::colony::{Colony, Direction};
use rand::rngs::SmallRng;
use rand::SeedableRng;

#[test]
fn new_colony_is_empty_and_intact() {
    let c = Colony::new("Home".to_string());
    assert_eq!(c.name, "Home");
    assert_eq!(c.get_ant(), None);
    assert!(!c.is_destroyed());
    for d in [Direction::North, Direction::South, Direction::East, Direction::West] {
        assert_eq!(c.get_target_colony(&d), None);
    }
}

#[test]
fn add_tunnel_sets_and_replaces_one_direction() {
    let mut c = Colony::new("A".to_string());
    c.add_tunnel(Direction::East, 3);
    assert_eq!(c.get_target_colony(&Direction::East), Some(3));
    c.add_tunnel(Direction::East, 5);
    assert_eq!(c.get_target_colony(&Direction::East), Some(5));
    assert_eq!(c.get_target_colony(&Direction::North), None);
}

#[test]
fn remove_tunnel_to_closes_every_tunnel_to_target() {
    let mut c = Colony::new("A".to_string());
    c.add_tunnel(Direction::North, 1);
    c.add_tunnel(Direction::West, 1);
    c.add_tunnel(Direction::South, 2);
    c.remove_tunnel_to(1);
    assert_eq!(c.get_target_colony(&Direction::North), None);
    assert_eq!(c.get_target_colony(&Direction::West), None);
    assert_eq!(c.get_target_colony(&Direction::South), Some(2));
    assert_eq!(c.nth_available_direction(0), Some(Direction::South));
    assert_eq!(c.nth_available_direction(1), None);
}

#[test]
fn remove_tunnel_to_absent_target_changes_nothing() {
    let mut c = Colony::new("A".to_string());
    c.add_tunnel(Direction::North, 1);
    c.add_tunnel(Direction::East, 2);
    c.set_ant(Some(4));
    c.remove_tunnel_to(9);
    c.remove_tunnel_to(9);
    assert_eq!(c.get_target_colony(&Direction::North), Some(1));
    assert_eq!(c.get_target_colony(&Direction::East), Some(2));
    assert_eq!(c.get_target_colony(&Direction::South), None);
    assert_eq!(c.get_target_colony(&Direction::West), None);
    assert_eq!(c.get_ant(), Some(4));
    assert!(!c.is_destroyed());
    assert_eq!(c.nth_available_direction(0), Some(Direction::North));
    assert_eq!(c.nth_available_direction(1), Some(Direction::East));
}

#[test]
fn nth_available_direction_goes_north_south_east_west() {
    let mut c = Colony::new("A".to_string());
    c.add_tunnel(Direction::West, 0);
    c.add_tunnel(Direction::South, 0);
    assert_eq!(c.nth_available_direction(0), Some(Direction::South));
    assert_eq!(c.nth_available_direction(1), Some(Direction::West));
    assert_eq!(c.nth_available_direction(2), None);
}

#[test]
fn random_direction_is_none_without_tunnels() {
    let c = Colony::new("A".to_string());
    let mut rng = SmallRng::seed_from_u64(1);
    assert_eq!(c.get_random_direction(&mut rng), None);
}

#[test]
fn random_direction_is_always_an_open_one() {
    let mut c = Colony::new("A".to_string());
    c.add_tunnel(Direction::South, 1);
    c.add_tunnel(Direction::West, 2);
    let mut rng = SmallRng::seed_from_u64(42);
    let mut seen_south = false;
    let mut seen_west = false;
    for _ in 0..200 {
        match c.get_random_direction(&mut rng) {
            Some(Direction::South) => seen_south = true,
            Some(Direction::West) => seen_west = true,
            other => panic!("unexpected direction {:?}", other),
        }
    }
    assert!(seen_south && seen_west);
}

#[test]
fn random_direction_with_one_tunnel_is_that_one() {
    let mut c = Colony::new("A".to_string());
    c.add_tunnel(Direction::East, 7);
    let mut rng = SmallRng::seed_from_u64(3);
    for _ in 0..20 {
        assert_eq!(c.get_random_direction(&mut rng), Some(Direction::East));
    }
}

#[test]
fn destroyed_flag_and_resident_round_trip() {
    let mut c = Colony::new("A".to_string());
    c.set_destroyed(true);
    assert!(c.is_destroyed());
    c.set_ant(Some(2));
    assert_eq!(c.get_ant(), Some(2));
    c.set_ant(None);
    assert_eq!(c.get_ant(), None);
}

#[test]
fn clear_tunnels_closes_all() {
    let mut c = Colony::new("A".to_string());
    c.add_tunnel(Direction::North, 1);
    c.add_tunnel(Direction::East, 2);
    c.clear_tunnels();
    assert_eq!(c.nth_available_direction(0), None);
    assert_eq!(c.get_target_colony(&Direction::North), None);
}

#[test]
fn direction_from_str_ignores_case() {
    assert_eq!(Direction::from_str("north"), Some(Direction::North));
    assert_eq!(Direction::from_str("SOUTH"), Some(Direction::South));
    assert_eq!(Direction::from_str("EaSt"), Some(Direction::East));
    assert_eq!(Direction::from_str("West"), Some(Direction::West));
    assert_eq!(Direction::from_str("up"), None);
    assert_eq!(Direction::from_str(""), None);
}

#[test]
fn direction_from_lowercase_is_exact() {
    assert_eq!(Direction::from_lowercase("west"), Some(Direction::West));
    assert_eq!(Direction::from_lowercase("West"), None);
}

#[test]
fn direction_labels_and_slots() {
    assert_eq!(Direction::North.label_string(), "north");
    assert_eq!(Direction::South.label_string(), "south");
    assert_eq!(Direction::East.label_string(), "east");
    assert_eq!(Direction::West.label_string(), "west");
    assert_eq!(Direction::East.slot(), 2);
    assert_eq!(Direction::from_slot(3), Direction::West);
}
