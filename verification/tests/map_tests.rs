use pac_man::map::{check_position, parse_map, MapData, MapError, MapLoader, TextMapLoader, TileType};

/// A 28-wide, 31-tall level in the textual format: walls around the rim,
/// pellets inside, one player start and one ghost start.
fn standard_level_text() -> String {
    let mut lines: Vec<String> = Vec::new();
    lines.push("#".repeat(28));
    for y in 1..30 {
        let mut row = String::from("#");
        for x in 1..27 {
            if y == 23 && x == 14 {
                row.push('P');
            } else if y == 14 && x == 13 {
                row.push('G');
            } else {
                row.push('.');
            }
        }
        row.push('#');
        lines.push(row);
    }
    lines.push("#".repeat(28));
    lines.join("\n")
}

#[test]
fn test_text_map_loader() {
    let map_loader = TextMapLoader;
    let map_data = map_loader.load_map(standard_level_text().as_bytes()).unwrap();

    assert_eq!(map_data.height, 31);
    assert_eq!(map_data.width, 28);
}

#[test]
fn map_test_text_map_loader() {
    let map_loader = TextMapLoader;
    let map_data = map_loader.load_map(standard_level_text().as_bytes()).unwrap();

    assert_eq!(map_data.height, 31);
    assert_eq!(map_data.width, 28);
}

#[test]
fn parse_reads_each_character_as_one_cell() {
    let text = b"#.#\nP G\n...";
    let m = parse_map(text).unwrap();
    assert_eq!(m.width, 3);
    assert_eq!(m.height, 3);
    assert_eq!(m.get(0, 0), TileType::Wall);
    assert_eq!(m.get(1, 0), TileType::Pellet);
    assert_eq!(m.get(2, 0), TileType::Wall);
    assert_eq!(m.get(0, 1), TileType::Player);
    assert_eq!(m.get(1, 1), TileType::Empty);
    assert_eq!(m.get(2, 1), TileType::GhostSpawn);
    assert!(m.is_wall(0, 0));
    assert!(m.is_pellet(1, 0));
    assert!(m.is_player(0, 1));
    assert!(m.is_ghost(2, 1));
}

#[test]
fn parse_accepts_trailing_newline() {
    let m = parse_map(b"##\n..\n").unwrap();
    assert_eq!(m.height, 2);
    assert_eq!(m.width, 2);
}

#[test]
fn parse_empty_input_gives_degenerate_map() {
    let m = parse_map(b"").unwrap();
    assert_eq!(m.width, 0);
    assert_eq!(m.height, 0);
}

#[test]
fn parse_rejects_ragged_lines() {
    assert!(matches!(parse_map(b"###\n##\n###"), Err(MapError::NotRectangular)));
}

#[test]
fn parse_rejects_oversized_lines() {
    let line = "#".repeat(10_001);
    assert!(matches!(parse_map(line.as_bytes()), Err(MapError::TooLarge)));
}

#[test]
fn parse_rejects_too_many_lines() {
    let mut text = String::new();
    for _ in 0..10_001 {
        text.push('#');
        text.push('\n');
    }
    assert!(matches!(parse_map(text.as_bytes()), Err(MapError::TooLarge)));
}

#[test]
fn level_text_round_trips_exactly() {
    let text = standard_level_text();
    let m = parse_map(text.as_bytes()).unwrap();
    assert_eq!(m.to_text(), text.as_bytes().to_vec());
}

#[test]
fn small_level_text_round_trips_exactly() {
    let text = b"##.#\n.PG \n####";
    let m = parse_map(text).unwrap();
    assert_eq!(m.to_text(), text.to_vec());
}

#[test]
fn serialize_uses_canonical_characters() {
    let mut m = MapData::new(2, 1);
    m.set(0, 0, TileType::Wall);
    m.set(1, 0, TileType::Pellet);
    assert_eq!(m.to_text(), b"#.".to_vec());
}

#[test]
fn set_and_get_change_one_cell_only() {
    let mut m = MapData::new(3, 2);
    m.set(2, 1, TileType::Wall);
    assert_eq!(m.get(2, 1), TileType::Wall);
    assert_eq!(m.get(0, 0), TileType::Empty);
    assert_eq!(m.get(1, 1), TileType::Empty);
}

#[test]
fn check_position_uses_half_open_ranges() {
    assert!(check_position(0, 0, 3, 2));
    assert!(check_position(2, 1, 3, 2));
    assert!(!check_position(3, 1, 3, 2));
    assert!(!check_position(2, 2, 3, 2));
    assert!(!check_position(-1, 0, 3, 2));
    assert!(!check_position(0, -1, 3, 2));
}
