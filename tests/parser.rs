use ant_colony::colony::Direction;
use ant_colony::parser::{build_colonies, parse_map};

fn lines(text: &[&str]) -> Vec<String> {
    text.iter().map(|l| l.to_string()).collect()
}

#[test]
fn parse_map_reads_names_and_tunnels() {
    let colonies = parse_map(&lines(&[
        "Foo north=Bar west=Baz south=Qu-ux",
        "Bar south=Foo west=Bee",
        "Baz east=Foo",
        "Qu-ux north=Foo",
        "Bee east=Bar",
    ]));
    assert_eq!(colonies.len(), 5);
    assert_eq!(colonies[0].name, "Foo");
    assert_eq!(colonies[0].get_target_colony(&Direction::North), Some(1));
    assert_eq!(colonies[0].get_target_colony(&Direction::West), Some(2));
    assert_eq!(colonies[0].get_target_colony(&Direction::South), Some(3));
    assert_eq!(colonies[0].get_target_colony(&Direction::East), None);
    assert_eq!(colonies[1].get_target_colony(&Direction::West), Some(4));
    assert_eq!(colonies[4].name, "Bee");
    assert_eq!(colonies[4].get_target_colony(&Direction::East), Some(1));
    assert!(!colonies[2].is_destroyed());
    assert_eq!(colonies[2].get_ant(), None);
}

#[test]
fn parse_map_skips_blank_lines_and_keeps_indices() {
    let colonies = parse_map(&lines(&["", "A east=B", "   ", "B west=A", ""]));
    assert_eq!(colonies.len(), 2);
    assert_eq!(colonies[0].name, "A");
    assert_eq!(colonies[0].get_target_colony(&Direction::East), Some(1));
    assert_eq!(colonies[1].get_target_colony(&Direction::West), Some(0));
}

#[test]
fn parse_map_ignores_bad_tokens() {
    let colonies = parse_map(&lines(&["A up=B north=Nowhere east B", "B NORTH=A"]));
    assert_eq!(colonies[0].nth_available_direction(0), None);
    assert_eq!(colonies[1].get_target_colony(&Direction::North), Some(0));
}

#[test]
fn parse_map_takes_last_colony_of_a_name() {
    let colonies = parse_map(&lines(&["A", "B north=A", "A"]));
    assert_eq!(colonies.len(), 3);
    assert_eq!(colonies[1].get_target_colony(&Direction::North), Some(2));
}

#[test]
fn parse_map_later_token_replaces_direction() {
    let colonies = parse_map(&lines(&["A north=B north=C", "B", "C"]));
    assert_eq!(colonies[0].get_target_colony(&Direction::North), Some(2));
}

#[test]
fn build_colonies_works_on_words() {
    let words = vec![
        vec!["X".to_string(), "south=Y".to_string()],
        vec![],
        vec!["Y".to_string()],
    ];
    let colonies = build_colonies(&words);
    assert_eq!(colonies.len(), 2);
    assert_eq!(colonies[1].name, "Y");
    assert_eq!(colonies[0].get_target_colony(&Direction::South), Some(1));
}

#[test]
fn parse_map_of_nothing_is_empty() {
    assert!(parse_map(&Vec::new()).is_empty());
}
