use pac_man::movement::Movement;
use pac_man::vec2::Vec2i;

#[test]
fn timer_yields_exactly_k_ticks_for_k_whole_intervals() {
    // Speed 4: the interval is 250 000 microseconds.
    let mut m = Movement::new(4, true);
    let ticks = m.update(3 * 250_000);
    assert_eq!(ticks, 3);
    assert_eq!(m.accumulated_time, 0);
}

#[test]
fn timer_yields_no_tick_below_one_interval() {
    let mut m = Movement::new(4, true);
    let ticks = m.update(249_999);
    assert_eq!(ticks, 0);
    assert_eq!(m.accumulated_time, 249_999);
}

#[test]
fn timer_carries_the_remainder_between_updates() {
    let mut m = Movement::new(4, true);
    assert_eq!(m.update(300_000), 1);
    assert_eq!(m.accumulated_time, 50_000);
    assert_eq!(m.update(200_000), 1);
    assert_eq!(m.accumulated_time, 0);
}

#[test]
fn timer_banks_nothing_while_stopped() {
    let mut m = Movement::new(4, false);
    let ticks = m.update(10_000_000);
    assert_eq!(ticks, 0);
    assert_eq!(m.accumulated_time, 0);
}

#[test]
fn setting_a_direction_starts_moving() {
    let mut m = Movement::new(6, false);
    m.set_direction(Vec2i { x: 1, y: 0 });
    assert!(m.is_moving);
    assert_eq!(m.direction, Vec2i { x: 1, y: 0 });
}

#[test]
fn stopping_resets_accumulated_time() {
    let mut m = Movement::new(4, true);
    m.update(100_000);
    assert_eq!(m.accumulated_time, 100_000);
    m.stop_moving();
    assert!(!m.is_moving);
    assert_eq!(m.accumulated_time, 0);
}

#[test]
fn move_interval_is_the_inverse_of_speed() {
    let m = Movement::new(8, true);
    assert_eq!(m.get_move_interval(), 125_000);
    let m2 = Movement::new(2, true);
    assert_eq!(m2.get_move_interval(), 500_000);
}

#[test]
fn can_move_once_a_whole_interval_accumulated() {
    let mut m = Movement::new(4, true);
    assert!(!m.can_move());
    m.accumulated_time = 250_000;
    assert!(m.can_move());
}
