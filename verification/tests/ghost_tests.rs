use pac_man::ghost_agent::{GhostAgent, GhostMode, GhostType, CHASE_PHASE, SCATTER_LONG, SCATTER_SHORT};
use pac_man::map::parse_map;
use pac_man::map::MapData;
use pac_man::rng::rng_from_seed;
use pac_man::vec2::Vec2i;

fn open_room(w: usize, h: usize) -> MapData {
    let mut lines: Vec<String> = Vec::new();
    for y in 0..h {
        let mut row = String::new();
        for x in 0..w {
            if x == 0 || y == 0 || x == w - 1 || y == h - 1 {
                row.push('#');
            } else {
                row.push(' ');
            }
        }
        lines.push(row);
    }
    parse_map(lines.join("\n").as_bytes()).unwrap()
}

#[test]
fn interceptor_targets_four_cells_ahead() {
    // The "interceptor" archetype with the player at (5,5) facing (1,0)
    // computes the Chase target (9,5).
    let m = open_room(12, 8);
    let mut g = GhostAgent::new(1, 1, GhostType::Pinky);
    g.mode = GhostMode::Chase;
    let mut rng = rng_from_seed(7);
    let t = g.calc_target(
        Vec2i { x: 5, y: 5 },
        Vec2i { x: 1, y: 0 },
        Vec2i { x: 1, y: 1 },
        &m,
        &mut rng,
    );
    assert_eq!(t, Vec2i { x: 9, y: 5 });
}

#[test]
fn interceptor_target_is_clamped_on_narrow_maps() {
    let m = open_room(8, 8);
    let mut g = GhostAgent::new(1, 1, GhostType::Pinky);
    g.mode = GhostMode::Chase;
    let mut rng = rng_from_seed(7);
    let t = g.calc_target(
        Vec2i { x: 5, y: 5 },
        Vec2i { x: 1, y: 0 },
        Vec2i { x: 1, y: 1 },
        &m,
        &mut rng,
    );
    assert_eq!(t, Vec2i { x: 7, y: 5 });
}

#[test]
fn direct_pursuer_targets_the_player() {
    let m = open_room(10, 10);
    let mut g = GhostAgent::new(1, 1, GhostType::Blinky);
    g.mode = GhostMode::Chase;
    let mut rng = rng_from_seed(7);
    let t = g.calc_target(
        Vec2i { x: 6, y: 3 },
        Vec2i { x: 0, y: 1 },
        Vec2i { x: 1, y: 1 },
        &m,
        &mut rng,
    );
    assert_eq!(t, Vec2i { x: 6, y: 3 });
}

#[test]
fn flanker_doubles_the_lead_offset() {
    let m = open_room(20, 20);
    let mut g = GhostAgent::new(1, 1, GhostType::Inky);
    g.mode = GhostMode::Chase;
    let mut rng = rng_from_seed(7);
    // ahead = (8,5) + 2*(1,0) = (10,5); target = ahead + 2*(ahead - (4,5))
    // = (10,5) + (12,0) = (22,5), clamped to x <= 19.
    let t = g.calc_target(
        Vec2i { x: 8, y: 5 },
        Vec2i { x: 1, y: 0 },
        Vec2i { x: 4, y: 5 },
        &m,
        &mut rng,
    );
    assert_eq!(t, Vec2i { x: 19, y: 5 });
}

#[test]
fn opportunist_retreats_when_close_and_pursues_when_far() {
    let m = open_room(30, 30);
    let mut g = GhostAgent::new(10, 10, GhostType::Clyde);
    g.mode = GhostMode::Chase;
    let mut rng = rng_from_seed(7);
    // Distance squared 8 < 64: retreat to the corner.
    let near = g.calc_target(
        Vec2i { x: 12, y: 12 },
        Vec2i { x: 0, y: 0 },
        Vec2i { x: 1, y: 1 },
        &m,
        &mut rng,
    );
    assert_eq!(near, Vec2i { x: 1, y: 1 });
    // Distance squared 128 >= 64: pursue the player.
    let far = g.calc_target(
        Vec2i { x: 18, y: 18 },
        Vec2i { x: 0, y: 0 },
        Vec2i { x: 1, y: 1 },
        &m,
        &mut rng,
    );
    assert_eq!(far, Vec2i { x: 18, y: 18 });
}

#[test]
fn scatter_corners_are_fixed_per_archetype() {
    let m = open_room(28, 31);
    let mut rng = rng_from_seed(7);
    let player = Vec2i { x: 5, y: 5 };
    let dir = Vec2i { x: 0, y: 0 };
    let lead = Vec2i { x: 1, y: 1 };
    let b = GhostAgent::new(1, 1, GhostType::Blinky).calc_target(player, dir, lead, &m, &mut rng);
    assert_eq!(b, Vec2i { x: 26, y: 29 });
    let p = GhostAgent::new(1, 1, GhostType::Pinky).calc_target(player, dir, lead, &m, &mut rng);
    assert_eq!(p, Vec2i { x: 1, y: 29 });
    let i = GhostAgent::new(1, 1, GhostType::Inky).calc_target(player, dir, lead, &m, &mut rng);
    assert_eq!(i, Vec2i { x: 26, y: 1 });
    let c = GhostAgent::new(1, 1, GhostType::Clyde).calc_target(player, dir, lead, &m, &mut rng);
    assert_eq!(c, Vec2i { x: 1, y: 1 });
}

#[test]
fn frightened_never_reverses_while_another_exit_exists() {
    // At (2,2) of an open room every direction is legal; across many
    // draws the immediate reversal of the last direction never comes out.
    let m = open_room(6, 6);
    let mut rng = rng_from_seed(42);
    for seed_round in 0..50 {
        let mut g = GhostAgent::new(2, 2, GhostType::Blinky);
        g.mode = GhostMode::Frightened;
        g.movement.speed = 2;
        g.last_move_dir = Vec2i { x: 1, y: 0 };
        let dirs = g.get_possible_direction(&m, false);
        let chosen = g
            .choose_best_direction(Vec2i { x: 1, y: 1 }, &dirs, &m, &mut rng)
            .unwrap();
        assert_ne!(chosen, Vec2i { x: -1, y: 0 }, "round {}", seed_round);
    }
}

#[test]
fn frightened_reverses_only_as_a_last_resort() {
    // A dead-end corridor: from (1,1) heading right... wall ahead and on
    // the sides, so only the reversal remains.
    let text = b"#####\n#  ##\n#####";
    let m = parse_map(text).unwrap();
    let mut rng = rng_from_seed(3);
    let mut g = GhostAgent::new(2, 1, GhostType::Blinky);
    g.mode = GhostMode::Frightened;
    g.movement.speed = 2;
    g.last_move_dir = Vec2i { x: 1, y: 0 };
    let dirs = g.get_possible_direction(&m, false);
    let chosen = g
        .choose_best_direction(Vec2i { x: 1, y: 1 }, &dirs, &m, &mut rng)
        .unwrap();
    assert_eq!(chosen, Vec2i { x: -1, y: 0 });
}

#[test]
fn mode_schedule_follows_the_fixed_sequence() {
    let mut g = GhostAgent::new(1, 1, GhostType::Blinky);
    // Blinky has no house delay: the first advance releases it into the
    // first Scatter phase.
    g.update_timers(1);
    assert!(!g.in_house);
    assert_eq!(g.mode, GhostMode::Scatter);
    assert_eq!(g.current_mode_duration, Some(SCATTER_LONG));

    // Scatter 7s -> Chase 20s -> Scatter 7s -> Chase 20s -> Scatter 5s
    // -> Chase 20s -> Scatter 5s -> permanent Chase.
    g.update_timers(7_000_000);
    assert_eq!(g.mode, GhostMode::Chase);
    assert_eq!(g.current_mode_duration, Some(CHASE_PHASE));
    g.update_timers(20_000_000);
    assert_eq!(g.mode, GhostMode::Scatter);
    assert_eq!(g.current_mode_duration, Some(SCATTER_LONG));
    g.update_timers(7_000_000);
    assert_eq!(g.mode, GhostMode::Chase);
    g.update_timers(20_000_000);
    assert_eq!(g.mode, GhostMode::Scatter);
    assert_eq!(g.current_mode_duration, Some(SCATTER_SHORT));
    g.update_timers(5_000_000);
    assert_eq!(g.mode, GhostMode::Chase);
    g.update_timers(20_000_000);
    assert_eq!(g.mode, GhostMode::Scatter);
    assert_eq!(g.current_mode_duration, Some(SCATTER_SHORT));
    g.update_timers(5_000_000);
    assert_eq!(g.mode, GhostMode::Chase);
    assert_eq!(g.current_mode_duration, None);

    // After the fourth Scatter phase the mode never leaves Chase again.
    for _ in 0..10 {
        g.update_timers(3_600_000_000);
        assert_eq!(g.mode, GhostMode::Chase);
    }
}

#[test]
fn scatter_switches_exactly_at_the_scheduled_boundary() {
    let mut g = GhostAgent::new(1, 1, GhostType::Blinky);
    g.update_timers(1);
    g.update_timers(6_999_999);
    assert_eq!(g.mode, GhostMode::Scatter);
    g.update_timers(1);
    assert_eq!(g.mode, GhostMode::Chase);
}

#[test]
fn frightened_halves_speed_and_expires_into_chase() {
    let mut g = GhostAgent::new(1, 1, GhostType::Blinky);
    g.update_timers(1);
    g.set_frightened(3_000_000);
    assert_eq!(g.mode, GhostMode::Frightened);
    assert_eq!(g.movement.speed, 2);
    // Re-triggering refreshes the timer without changing mode.
    g.update_timers(1_000_000);
    g.set_frightened(3_000_000);
    assert_eq!(g.frightened_time, 3_000_000);
    assert_eq!(g.mode, GhostMode::Frightened);
    g.update_timers(3_000_000);
    assert_eq!(g.mode, GhostMode::Chase);
    assert_eq!(g.movement.speed, 4);
}

#[test]
fn eaten_boosts_speed_and_suppresses_frightened() {
    let mut g = GhostAgent::new(1, 1, GhostType::Pinky);
    g.update_timers(5_000_000);
    g.set_frightened(10_000_000);
    g.eaten();
    assert_eq!(g.mode, GhostMode::ReturnToBase);
    assert_eq!(g.movement.speed, 8);
    // A power item while returning to base changes nothing.
    g.set_frightened(10_000_000);
    assert_eq!(g.mode, GhostMode::ReturnToBase);
    assert_eq!(g.movement.speed, 8);
}

#[test]
fn house_exit_delays_differ_per_archetype() {
    let mut clyde = GhostAgent::new(1, 1, GhostType::Clyde);
    assert!(clyde.in_house);
    clyde.update_timers(14_999_999);
    assert!(clyde.in_house);
    clyde.update_timers(1);
    assert!(!clyde.in_house);
    assert_eq!(clyde.mode, GhostMode::Scatter);
    assert_eq!(clyde.movement.speed, 4);

    let mut blinky = GhostAgent::new(1, 1, GhostType::Blinky);
    blinky.update_timers(1);
    assert!(!blinky.in_house);
}

#[test]
fn junction_detection_tells_corners_from_corridors() {
    // (1,1) is a corner of the open room: two exits not including the
    // reverse of travelling right.
    let m = open_room(5, 5);
    let mut g = GhostAgent::new(1, 1, GhostType::Blinky);
    g.last_move_dir = Vec2i { x: 1, y: 0 };
    assert!(g.check_intersection(&m));
    // In a straight corridor the two exits include the reversal.
    let corridor = parse_map(b"#####\n#   #\n#####").unwrap();
    let mut h = GhostAgent::new(2, 1, GhostType::Blinky);
    h.last_move_dir = Vec2i { x: 1, y: 0 };
    assert!(!h.check_intersection(&corridor));
    // The centre of the room has four exits.
    let mut c = GhostAgent::new(2, 2, GhostType::Blinky);
    c.last_move_dir = Vec2i { x: 1, y: 0 };
    assert!(c.check_intersection(&m));
}

#[test]
fn possible_directions_respect_walls_and_reversal() {
    let m = open_room(5, 5);
    let mut g = GhostAgent::new(1, 1, GhostType::Blinky);
    g.last_move_dir = Vec2i { x: 0, y: -1 };
    // At the corner only right and down are open; reversal (0,1) of the
    // upward travel is excluded when reverse is not allowed.
    let with_reverse = g.get_possible_direction(&m, true);
    assert_eq!(with_reverse, vec![Vec2i { x: 1, y: 0 }, Vec2i { x: 0, y: 1 }]);
    let without_reverse = g.get_possible_direction(&m, false);
    assert_eq!(without_reverse, vec![Vec2i { x: 1, y: 0 }]);
}

#[test]
fn corridor_travel_keeps_direction_and_target() {
    // Mid-corridor with a set direction and no wall ahead, nothing is
    // recomputed: target, direction and last direction all stay.
    let corridor = parse_map(b"#####\n#   #\n#####").unwrap();
    let mut g = GhostAgent::new(1, 1, GhostType::Blinky);
    g.update_timers(1);
    g.movement.direction = Vec2i { x: 1, y: 0 };
    g.last_move_dir = Vec2i { x: 1, y: 0 };
    g.target_pos = Vec2i { x: 3, y: 1 };
    let mut rng = rng_from_seed(1);
    g.update(
        Vec2i { x: 3, y: 1 },
        Vec2i { x: 0, y: 0 },
        Vec2i { x: 1, y: 1 },
        &corridor,
        &mut rng,
        1,
    );
    assert_eq!(g.movement.direction, Vec2i { x: 1, y: 0 });
    assert_eq!(g.last_move_dir, Vec2i { x: 1, y: 0 });
    assert_eq!(g.target_pos, Vec2i { x: 3, y: 1 });
}

#[test]
fn missing_direction_forces_a_legal_choice() {
    // With no movement intent, recomputation is warranted and a legal
    // direction is committed.
    let m = open_room(6, 6);
    let mut g = GhostAgent::new(2, 2, GhostType::Blinky);
    g.update_timers(1);
    assert_eq!(g.movement.direction, Vec2i { x: 0, y: 0 });
    let mut rng = rng_from_seed(9);
    g.update(
        Vec2i { x: 4, y: 4 },
        Vec2i { x: 0, y: 0 },
        Vec2i { x: 2, y: 2 },
        &m,
        &mut rng,
        1,
    );
    let d = g.movement.direction;
    assert!(d.x.abs() + d.y.abs() == 1);
    assert_eq!(g.last_move_dir, d);
    assert!(!m.is_wall((g.tile_pos.x + d.x) as usize, (g.tile_pos.y + d.y) as usize));
}
