use ant_colony::colony::{Colony, Direction};
use ant_colony::simulation::{
    Ant, RunOutcome, Simulation, SimulationError, MAX_MOVES, MAX_STEPS,
};

fn colony(name: &str, tunnels: &[(Direction, usize)]) -> Colony {
    let mut c = Colony::new(name.to_string());
    for (d, t) in tunnels {
        c.add_tunnel(*d, *t);
    }
    c
}

fn report(sim: &Simulation) -> Vec<(String, Vec<(String, String)>)> {
    sim.final_topology().expect("every tunnel names a colony")
}

#[test]
fn new_fails_without_colonies() {
    assert_eq!(Simulation::new(Vec::new(), 3).err(), Some(SimulationError::NoColonies));
    assert_eq!(Simulation::with_seed(Vec::new(), 3, 1).err(), Some(SimulationError::NoColonies));
}

#[test]
fn new_fails_without_ants() {
    let map = vec![colony("A", &[])];
    assert_eq!(Simulation::new(map, 0).err(), Some(SimulationError::NoAnts));
    let map = vec![colony("A", &[])];
    assert_eq!(Simulation::new_silent(map, 0).err(), Some(SimulationError::NoAnts));
}

#[test]
fn new_places_every_ant_on_the_map() {
    let map = vec![colony("A", &[]), colony("B", &[]), colony("C", &[])];
    let sim = Simulation::with_seed(map, 10, 99).unwrap();
    assert_eq!(sim.ants().len(), 10);
    for ant in sim.ants() {
        assert_eq!(ant.moves, 0);
        assert!(ant.colony_idx.unwrap() < 3);
    }
    assert_eq!(sim.step_count(), 0);
    assert!(sim.is_verbose());
}

#[test]
fn new_silent_turns_reports_off() {
    let map = vec![colony("A", &[])];
    let sim = Simulation::new_silent(map, 1).unwrap();
    assert!(!sim.is_verbose());
}

#[test]
fn same_seed_gives_same_run() {
    let build = || {
        vec![
            colony("A", &[(Direction::North, 1), (Direction::East, 2)]),
            colony("B", &[(Direction::South, 0), (Direction::East, 2)]),
            colony("C", &[(Direction::West, 0), (Direction::North, 1)]),
        ]
    };
    let mut one = Simulation::with_seed(build(), 2, 7).unwrap();
    let mut two = Simulation::with_seed(build(), 2, 7).unwrap();
    one.set_limits(50, 200);
    two.set_limits(50, 200);
    assert_eq!(one.run(), two.run());
    assert_eq!(one.ants(), two.ants());
    assert_eq!(report(&one), report(&two));
}

#[test]
fn with_positions_checks_positions() {
    let map = vec![colony("A", &[])];
    assert_eq!(
        Simulation::with_positions(map, vec![0, 4, 7], 1).err(),
        Some(SimulationError::InvalidColony(4))
    );
    let map = vec![colony("A", &[])];
    assert_eq!(Simulation::with_positions(map, vec![], 1).err(), Some(SimulationError::NoAnts));
    assert_eq!(
        Simulation::with_positions(Vec::new(), vec![0], 1).err(),
        Some(SimulationError::NoColonies)
    );
}

#[test]
fn ping_pong_ant_stops_at_move_cap() {
    let map = vec![
        colony("A", &[(Direction::North, 1)]),
        colony("B", &[(Direction::South, 0)]),
    ];
    let mut sim = Simulation::with_positions(map, vec![0], 5).unwrap();
    sim.step().unwrap();
    assert_eq!(sim.ants()[0], Ant { moves: 1, colony_idx: Some(1) });
    assert_eq!(sim.colonies()[1].get_ant(), Some(0));
    assert_eq!(sim.colonies()[0].get_ant(), None);
    sim.step().unwrap();
    assert_eq!(sim.ants()[0], Ant { moves: 2, colony_idx: Some(0) });
    assert_eq!(sim.run(), Ok(RunOutcome::Concluded));
    assert_eq!(sim.ants()[0].moves, MAX_MOVES);
    assert_eq!(sim.ants()[0].colony_idx, Some(0));
    assert_eq!(sim.step_count() as u32, MAX_MOVES - 2);
    assert!(sim.fights().is_empty());
    assert_eq!(
        report(&sim),
        vec![
            ("A".to_string(), vec![("north".to_string(), "B".to_string())]),
            ("B".to_string(), vec![("south".to_string(), "A".to_string())]),
        ]
    );
}

#[test]
fn two_ants_entering_one_colony_destroy_it() {
    let map = vec![
        colony("A", &[(Direction::East, 1)]),
        colony("B", &[]),
        colony("C", &[(Direction::West, 1)]),
    ];
    let mut sim = Simulation::with_positions(map, vec![0, 2], 11).unwrap();
    assert_eq!(sim.run(), Ok(RunOutcome::Concluded));
    assert_eq!(sim.step_count(), 1);
    assert_eq!(sim.ants()[0].colony_idx, None);
    assert_eq!(sim.ants()[1].colony_idx, None);
    assert_eq!(sim.ants()[0].moves, 0);
    assert!(sim.colonies()[1].is_destroyed());
    assert!(!sim.are_ants_active());
    assert_eq!(sim.fights().len(), 1);
    assert_eq!(sim.fights()[0].colony, 1);
    assert_eq!(sim.fights()[0].ants, vec![0, 1]);
    assert_eq!(
        report(&sim),
        vec![("A".to_string(), vec![]), ("C".to_string(), vec![])]
    );
}

#[test]
fn ant_without_tunnels_runs_into_step_cap() {
    let map = vec![colony("Lonely", &[])];
    let mut sim = Simulation::with_positions(map, vec![0], 3).unwrap();
    assert_eq!(sim.run(), Ok(RunOutcome::StoppedEarly));
    assert_eq!(sim.step_count(), MAX_STEPS);
    assert_eq!(sim.ants()[0], Ant { moves: 0, colony_idx: Some(0) });
    assert!(sim.are_ants_active());
    assert_eq!(report(&sim), vec![("Lonely".to_string(), vec![])]);
}

#[test]
fn step_cap_set_low_stops_early() {
    let map = vec![colony("Lonely", &[])];
    let mut sim = Simulation::with_positions(map, vec![0], 3).unwrap();
    sim.set_limits(10, 25);
    assert_eq!(sim.run(), Ok(RunOutcome::StoppedEarly));
    assert_eq!(sim.step_count(), 25);
}

#[test]
fn zero_step_cap_runs_no_tick() {
    let map = vec![
        colony("A", &[(Direction::North, 1)]),
        colony("B", &[(Direction::South, 0)]),
    ];
    let mut sim = Simulation::with_positions(map, vec![0], 3).unwrap();
    sim.set_limits(10, 0);
    assert_eq!(sim.run(), Ok(RunOutcome::StoppedEarly));
    assert_eq!(sim.step_count(), 0);
    assert_eq!(sim.ants()[0].moves, 0);
}

#[test]
fn ants_sharing_a_colony_fight_on_first_tick() {
    let map = vec![colony("A", &[]), colony("B", &[(Direction::North, 0)])];
    let mut sim = Simulation::with_positions(map, vec![0, 0], 1).unwrap();
    sim.step().unwrap();
    assert!(sim.colonies()[0].is_destroyed());
    assert_eq!(sim.ants()[0].colony_idx, None);
    assert_eq!(sim.ants()[1].colony_idx, None);
    assert_eq!(sim.colonies()[1].get_target_colony(&Direction::North), None);
    assert_eq!(report(&sim), vec![("B".to_string(), vec![])]);
}

#[test]
fn moving_into_an_occupied_colony_is_a_fight() {
    let map = vec![colony("A", &[(Direction::East, 1)]), colony("B", &[])];
    let mut sim = Simulation::with_positions(map, vec![0, 1], 1).unwrap();
    sim.step().unwrap();
    assert!(sim.colonies()[1].is_destroyed());
    assert!(!sim.colonies()[0].is_destroyed());
    assert_eq!(sim.ants()[0].colony_idx, None);
    assert_eq!(sim.ants()[1].colony_idx, None);
    assert_eq!(sim.colonies()[0].get_ant(), None);
    assert_eq!(sim.colonies()[0].get_target_colony(&Direction::East), None);
}

#[test]
fn three_ants_one_target_all_die_bystander_unaffected() {
    let map = vec![
        colony("A", &[(Direction::East, 1)]),
        colony("Mid", &[]),
        colony("C", &[(Direction::West, 1)]),
        colony("D", &[(Direction::South, 1)]),
        colony("E", &[(Direction::North, 5)]),
        colony("F", &[]),
    ];
    let mut sim = Simulation::with_positions(map, vec![0, 2, 3, 4], 2).unwrap();
    sim.step().unwrap();
    for a in 0..3 {
        assert_eq!(sim.ants()[a].colony_idx, None);
    }
    assert_eq!(sim.ants()[3], Ant { moves: 1, colony_idx: Some(5) });
    assert!(sim.colonies()[1].is_destroyed());
    assert_eq!(sim.fights()[0].ants, vec![0, 1, 2]);
    assert_eq!(sim.colonies()[5].get_ant(), Some(3));
    assert_eq!(sim.colonies()[4].get_ant(), None);
}

#[test]
fn swapping_ants_fight_in_both_colonies() {
    let map = vec![
        colony("A", &[(Direction::North, 1)]),
        colony("B", &[(Direction::South, 0)]),
    ];
    let mut sim = Simulation::with_positions(map, vec![0, 1], 2).unwrap();
    sim.step().unwrap();
    assert!(sim.colonies()[0].is_destroyed());
    assert!(sim.colonies()[1].is_destroyed());
    assert_eq!(sim.fights().len(), 2);
    assert!(report(&sim).is_empty());
}

#[test]
fn silent_run_records_no_fights() {
    let map = vec![colony("A", &[])];
    let mut sim = Simulation::new_silent(map, 2).unwrap();
    sim.step().unwrap();
    assert!(sim.fights().is_empty());
    assert!(sim.colonies()[0].is_destroyed());
}

#[test]
fn tunnel_off_the_map_is_reported() {
    let map = vec![colony("A", &[(Direction::West, 9)]), colony("B", &[])];
    let mut sim = Simulation::with_positions(map, vec![0], 1).unwrap();
    assert_eq!(sim.final_topology().err(), Some(SimulationError::InvalidColony(9)));
    assert_eq!(sim.step(), Err(SimulationError::InvalidColony(9)));
    assert_eq!(sim.ants()[0], Ant { moves: 0, colony_idx: Some(0) });
    assert_eq!(sim.run(), Err(SimulationError::InvalidColony(9)));
}

#[test]
fn move_count_grows_by_one_per_move() {
    let map = vec![
        colony("A", &[(Direction::North, 1)]),
        colony("B", &[(Direction::North, 2)]),
        colony("C", &[]),
    ];
    let mut sim = Simulation::with_positions(map, vec![0], 4).unwrap();
    sim.step().unwrap();
    assert_eq!(sim.ants()[0].moves, 1);
    sim.step().unwrap();
    assert_eq!(sim.ants()[0].moves, 2);
    sim.step().unwrap();
    assert_eq!(sim.ants()[0], Ant { moves: 2, colony_idx: Some(2) });
}

#[test]
fn ant_at_move_cap_stays_put() {
    let map = vec![
        colony("A", &[(Direction::North, 1)]),
        colony("B", &[(Direction::South, 0)]),
    ];
    let mut sim = Simulation::with_positions(map, vec![0], 4).unwrap();
    sim.set_limits(1, 100);
    sim.step().unwrap();
    sim.step().unwrap();
    assert_eq!(sim.ants()[0], Ant { moves: 1, colony_idx: Some(1) });
    assert!(!sim.are_ants_active());
}

#[test]
fn self_loop_counts_as_a_move() {
    let map = vec![colony("A", &[(Direction::North, 0)])];
    let mut sim = Simulation::with_positions(map, vec![0], 4).unwrap();
    sim.step().unwrap();
    assert_eq!(sim.ants()[0], Ant { moves: 1, colony_idx: Some(0) });
    assert!(!sim.colonies()[0].is_destroyed());
    assert_eq!(sim.colonies()[0].get_ant(), Some(0));
}

#[test]
fn destroyed_colony_stays_destroyed_and_empty() {
    let map = vec![
        colony("A", &[(Direction::East, 1)]),
        colony("B", &[(Direction::East, 3)]),
        colony("C", &[(Direction::West, 1)]),
        colony("D", &[(Direction::West, 1)]),
    ];
    let mut sim = Simulation::with_positions(map, vec![0, 2, 3], 8).unwrap();
    for _ in 0..5 {
        sim.step().unwrap();
        assert!(sim.colonies()[1].is_destroyed());
        assert!(sim.colonies()[1].nth_available_direction(0).is_none());
        for ant in sim.ants() {
            assert_ne!(ant.colony_idx, Some(1));
        }
    }
}

#[test]
fn ceiling_reached_as_last_ant_stops_is_stopped_early() {
    let map = vec![
        colony("A", &[(Direction::North, 1)]),
        colony("B", &[(Direction::South, 0)]),
    ];
    let mut sim = Simulation::with_positions(map, vec![0], 4).unwrap();
    sim.set_limits(3, 3);
    assert_eq!(sim.run(), Ok(RunOutcome::StoppedEarly));
    assert_eq!(sim.step_count(), 3);
    assert_eq!(sim.ants()[0].moves, 3);
    assert!(!sim.are_ants_active());
}

#[test]
fn run_without_active_ants_changes_nothing() {
    let map = vec![
        colony("A", &[(Direction::North, 1)]),
        colony("B", &[(Direction::South, 0)]),
    ];
    let mut sim = Simulation::with_positions(map, vec![0], 4).unwrap();
    sim.set_limits(0, 10);
    assert_eq!(sim.run(), Ok(RunOutcome::Concluded));
    assert_eq!(sim.step_count(), 0);
    assert_eq!(sim.ants()[0], Ant { moves: 0, colony_idx: Some(0) });
}

#[test]
fn residents_follow_placement_and_ticks() {
    let map = vec![
        colony("A", &[(Direction::East, 1)]),
        colony("B", &[]),
        colony("C", &[]),
    ];
    let mut sim = Simulation::with_positions(map, vec![2, 0, 2], 4).unwrap();
    assert_eq!(sim.colonies()[2].get_ant(), Some(2));
    assert_eq!(sim.colonies()[0].get_ant(), Some(1));
    assert_eq!(sim.colonies()[1].get_ant(), None);
    sim.step().unwrap();
    assert_eq!(sim.colonies()[2].get_ant(), None);
    assert_eq!(sim.colonies()[0].get_ant(), None);
    assert_eq!(sim.colonies()[1].get_ant(), Some(1));
    assert_eq!(sim.ants()[0].colony_idx, None);
    assert_eq!(sim.ants()[2].colony_idx, None);
}
