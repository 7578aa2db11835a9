use pac_man::map::{parse_map, MapData};
use pac_man::pathfind::find_path;
use pac_man::vec2::Vec2i;

fn open_room(w: usize, h: usize) -> MapData {
    // Walls on the perimeter, open cells inside.
    let mut lines: Vec<String> = Vec::new();
    for y in 0..h {
        let mut row = String::new();
        for x in 0..w {
            if x == 0 || y == 0 || x == w - 1 || y == h - 1 {
                row.push('#');
            } else {
                row.push(' ');
            }
        }
        lines.push(row);
    }
    parse_map(lines.join("\n").as_bytes()).unwrap()
}

#[test]
fn path_has_true_shortest_length_in_open_room() {
    let m = open_room(7, 7);
    let p = find_path(Vec2i { x: 1, y: 1 }, Vec2i { x: 5, y: 5 }, &m).unwrap();
    // Manhattan distance 8, so 9 cells including both ends.
    assert_eq!(p.len(), 9);
    assert_eq!(p[0], Vec2i { x: 1, y: 1 });
    assert_eq!(p[8], Vec2i { x: 5, y: 5 });
}

#[test]
fn path_detours_around_a_wall() {
    // A vertical wall with a gap at the bottom forces a detour.
    let text = b"#######\n#  #  #\n#  #  #\n#     #\n#######";
    let m = parse_map(text).unwrap();
    let p = find_path(Vec2i { x: 1, y: 1 }, Vec2i { x: 5, y: 1 }, &m).unwrap();
    // Down to the gap, across, and back up: 9 cells.
    assert_eq!(p.len(), 9);
    assert_eq!(p[0], Vec2i { x: 1, y: 1 });
    assert_eq!(p[p.len() - 1], Vec2i { x: 5, y: 1 });
    // Consecutive cells are adjacent and never walls.
    for i in 0..p.len() {
        assert!(!m.is_wall(p[i].x as usize, p[i].y as usize));
        if i + 1 < p.len() {
            let dx = (p[i].x - p[i + 1].x).abs();
            let dy = (p[i].y - p[i + 1].y).abs();
            assert_eq!(dx + dy, 1);
        }
    }
}

#[test]
fn unreachable_goal_yields_no_path() {
    // The target cell is sealed off by walls.
    let text = b"#####\n#  ##\n## ##\n## ##\n#####";
    let m = parse_map(text).unwrap();
    assert!(find_path(Vec2i { x: 1, y: 1 }, Vec2i { x: 3, y: 3 }, &m).is_none());
}

#[test]
fn walled_in_goal_yields_no_path() {
    let text = b"#######\n#  ## #\n# ##  #\n#     #\n#######";
    let m = parse_map(text).unwrap();
    // (5, 1) is reachable here through the gap below it.
    assert!(find_path(Vec2i { x: 1, y: 1 }, Vec2i { x: 5, y: 1 }, &m).is_some());
    let sealed = parse_map(b"#######\n#  ## #\n# #####\n#     #\n#######").unwrap();
    assert!(find_path(Vec2i { x: 1, y: 1 }, Vec2i { x: 5, y: 1 }, &sealed).is_none());
}

#[test]
fn start_equals_goal_gives_single_cell_path() {
    let m = open_room(5, 5);
    let p = find_path(Vec2i { x: 2, y: 2 }, Vec2i { x: 2, y: 2 }, &m).unwrap();
    assert_eq!(p, vec![Vec2i { x: 2, y: 2 }]);
}

#[test]
fn out_of_bounds_goal_yields_no_path() {
    let m = open_room(5, 5);
    assert!(find_path(Vec2i { x: 1, y: 1 }, Vec2i { x: 9, y: 9 }, &m).is_none());
}

#[test]
fn same_inputs_give_same_output() {
    let m = open_room(9, 9);
    let a = find_path(Vec2i { x: 1, y: 1 }, Vec2i { x: 7, y: 4 }, &m);
    let b = find_path(Vec2i { x: 1, y: 1 }, Vec2i { x: 7, y: 4 }, &m);
    assert_eq!(a, b);
}
