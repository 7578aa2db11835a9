use pac_man::events::EatPelletEvent;
use pac_man::ghost_agent::{GhostAgent, GhostMode, GhostType};
use pac_man::map::{parse_map, TileType};
use pac_man::pellet::{is_power_pellet, PelletType};
use pac_man::player::Player;
use pac_man::rng::rng_from_seed;
use pac_man::score::Score;
use pac_man::simulation::{
    blinky_position, ghost_move_step, handle_player_input, player_update, simulation_step,
};
use pac_man::vec2::Vec2i;

fn open_room_5x5() -> pac_man::map::MapData {
    // A 5x5 open room with walls only on the perimeter.
    parse_map(b"#####\n#   #\n#   #\n#   #\n#####").unwrap()
}

#[test]
fn returning_ghost_reaches_spawn_and_rejoins_the_chase() {
    // Ghost starts at (1,1) in ReturnToBase mode with spawn at (3,3);
    // after enough steps at the boosted speed it stands on (3,3) in
    // Chase mode.
    let m = open_room_5x5();
    let mut g = GhostAgent::new(3, 3, GhostType::Blinky);
    g.update_timers(1);
    g.eaten();
    g.tile_pos = Vec2i { x: 1, y: 1 };
    assert_eq!(g.mode, GhostMode::ReturnToBase);

    let mut ghosts = vec![g];
    let mut rng = rng_from_seed(11);
    let mut rejoined = false;
    for _ in 0..50 {
        simulation_step(
            &mut ghosts,
            Vec2i { x: 2, y: 2 },
            Vec2i { x: 0, y: 0 },
            &m,
            &mut rng,
            125_000,
        );
        if ghosts[0].mode == GhostMode::Chase {
            rejoined = true;
            break;
        }
    }
    assert!(rejoined);
    assert_eq!(ghosts[0].tile_pos, Vec2i { x: 3, y: 3 });
    assert_eq!(ghosts[0].mode, GhostMode::Chase);
}

#[test]
fn ghosts_never_stand_inside_walls() {
    let m = open_room_5x5();
    let mut ghosts = Vec::new();
    let mut first = GhostAgent::new(2, 2, GhostType::Blinky);
    first.update_timers(1);
    ghosts.push(first);
    let mut rng = rng_from_seed(5);
    for _ in 0..200 {
        simulation_step(
            &mut ghosts,
            Vec2i { x: 1, y: 1 },
            Vec2i { x: 1, y: 0 },
            &m,
            &mut rng,
            250_000,
        );
        let p = ghosts[0].tile_pos;
        assert!(!m.is_wall(p.x as usize, p.y as usize));
    }
}

#[test]
fn blinky_position_prefers_the_first_direct_pursuer() {
    let a = GhostAgent::new(1, 1, GhostType::Pinky);
    let b = GhostAgent::new(2, 2, GhostType::Blinky);
    let c = GhostAgent::new(3, 3, GhostType::Blinky);
    let ghosts = vec![a, b, c];
    assert_eq!(blinky_position(&ghosts, Vec2i { x: 9, y: 9 }), Vec2i { x: 2, y: 2 });
    let none = vec![GhostAgent::new(1, 1, GhostType::Clyde)];
    assert_eq!(blinky_position(&none, Vec2i { x: 9, y: 9 }), Vec2i { x: 9, y: 9 });
}

#[test]
fn ghost_move_commits_one_cell_per_tick() {
    let m = open_room_5x5();
    let mut g = GhostAgent::new(1, 1, GhostType::Blinky);
    g.update_timers(1);
    g.movement.direction = Vec2i { x: 1, y: 0 };
    g.last_move_dir = Vec2i { x: 1, y: 0 };
    // Speed 4: 250 000 microseconds per tick.
    ghost_move_step(&mut g, &m, 250_000);
    assert_eq!(g.tile_pos, Vec2i { x: 2, y: 1 });
    // A tick against the wall does not move the ghost.
    ghost_move_step(&mut g, &m, 500_000);
    assert_eq!(g.tile_pos, Vec2i { x: 3, y: 1 });
}

#[test]
fn player_eats_pellets_and_walls_survive() {
    let mut m = parse_map(b"#####\n#P..#\n#####").unwrap();
    let mut player = Player::new(1, 1);
    player.set_direction(Vec2i { x: 1, y: 0 });
    let events = player_update(&mut player, &mut m, 2 * 166_666);
    assert_eq!(player.tile_pos, Vec2i { x: 3, y: 1 });
    assert_eq!(events.len(), 2);
    assert_eq!(events[0].position, Vec2i { x: 2, y: 1 });
    assert_eq!(events[1].position, Vec2i { x: 3, y: 1 });
    assert_eq!(m.get(2, 1), TileType::Empty);
    assert_eq!(m.get(3, 1), TileType::Empty);
    assert!(m.is_wall(0, 0));
    assert!(m.is_wall(4, 2));
}

#[test]
fn blocked_player_halts_without_banking_time() {
    let mut m = parse_map(b"###\n#P#\n###").unwrap();
    let mut player = Player::new(1, 1);
    player.set_direction(Vec2i { x: 1, y: 0 });
    let events = player_update(&mut player, &mut m, 10_000_000);
    assert!(events.is_empty());
    assert_eq!(player.tile_pos, Vec2i { x: 1, y: 1 });
    assert!(!player.movement.is_moving);
    assert_eq!(player.movement.accumulated_time, 0);
}

#[test]
fn input_sets_only_legal_unit_directions() {
    let m = open_room_5x5();
    let mut player = Player::new(1, 1);
    // Up leads into the wall: the intent is unchanged.
    handle_player_input(&mut player, &m, true, false, false, false);
    assert_eq!(player.movement.direction, Vec2i { x: 0, y: 0 });
    assert!(!player.movement.is_moving);
    // Right is open.
    handle_player_input(&mut player, &m, false, false, false, true);
    assert_eq!(player.movement.direction, Vec2i { x: 1, y: 0 });
    assert!(player.movement.is_moving);
    // A diagonal combination is not a grid direction.
    handle_player_input(&mut player, &m, false, true, false, true);
    assert_eq!(player.movement.direction, Vec2i { x: 1, y: 0 });
}

#[test]
fn score_awards_one_per_pellet_and_ten_per_power_pellet() {
    let mut s = Score::default();
    s.plus_one();
    assert_eq!(s.value, 1);
    s.award(PelletType::General);
    assert_eq!(s.value, 2);
    s.award(PelletType::Power);
    assert_eq!(s.value, 12);
}

#[test]
fn power_pellets_sit_on_the_four_fixed_cells() {
    assert!(is_power_pellet(1, 3));
    assert!(is_power_pellet(26, 3));
    assert!(is_power_pellet(1, 23));
    assert!(is_power_pellet(26, 23));
    assert!(!is_power_pellet(2, 3));
    assert!(!is_power_pellet(0, 0));
}

#[test]
fn eat_pellet_event_knows_power_pellets() {
    let power = EatPelletEvent::new(Vec2i { x: 1, y: 3 });
    assert_eq!(power.pellet_type, PelletType::Power);
    let general = EatPelletEvent::new(Vec2i { x: 5, y: 5 });
    assert_eq!(general.pellet_type, PelletType::General);
}
