use raycaster::grid::parse_maze;
use raycaster::player::{process_events, process_start_screen_input, Player};

fn grid(lines: &[&str]) -> raycaster::grid::Grid {
    let rows: Vec<Vec<char>> = lines.iter().map(|l| l.chars().collect()).collect();
    parse_maze(&rows).unwrap()
}

#[test]
fn new_player_faces_angle_zero() {
    let p = Player::new(1_000_000, 2_000_000, 0, 10922);
    assert_eq!(p.x, 1_000_000);
    assert_eq!(p.y, 2_000_000);
    assert_eq!(p.z, 0);
    assert_eq!(p.angle, 0);
    assert_eq!(p.fov, 10922);
}

#[test]
fn move_forward_walks_along_the_facing_angle() {
    let g = grid(&["++++", "+  +", "++++"]);
    let mut p = Player::new(1_500_000, 1_500_000, 0, 10922);
    p.move_forward(100_000, &g);
    // cos(0) is exactly one, so the full step lands on the x axis.
    assert_eq!(p.x, 1_600_000);
    assert_eq!(p.y, 1_500_000);
}

#[test]
fn move_forward_into_a_wall_is_blocked() {
    let g = grid(&["+++", "+ +", "+++"]);
    let mut p = Player::new(1_950_000, 1_500_000, 0, 10922);
    p.move_forward(100_000, &g);
    assert_eq!(p.x, 1_950_000);
    assert_eq!(p.y, 1_500_000);
}

#[test]
fn move_backward_reverses_the_step() {
    let g = grid(&["++++", "+  +", "++++"]);
    let mut p = Player::new(2_000_000, 1_500_000, 0, 10922);
    p.move_backward(100_000, &g);
    assert_eq!(p.x, 1_900_000);
    assert_eq!(p.y, 1_500_000);
}

#[test]
fn turns_wrap_around_the_circle() {
    let g = grid(&["+++", "+ +", "+++"]);
    let mut p = Player::new(1_500_000, 1_500_000, 0, 10922);
    p.turn_left(522);
    assert_eq!(p.angle, 65014);
    p.turn_right(522);
    assert_eq!(p.angle, 0);
    p.turn_right(522);
    assert_eq!(p.angle, 522);
    let _ = &g;
}

#[test]
fn check_collision_blocks_walls_and_outside() {
    let g = grid(&["+ "]);
    let p = Player::new(1_500_000, 500_000, 0, 10922);
    assert!(p.check_collision(500_000, 500_000, &g));
    assert!(!p.check_collision(1_500_000, 500_000, &g));
    assert!(p.check_collision(-5, 500_000, &g));
    assert!(p.check_collision(1_500_000, 1_500_000, &g));
}

#[test]
fn process_events_applies_keys_in_order() {
    let g = grid(&["++++", "+  +", "++++"]);
    let mut p = Player::new(1_500_000, 1_500_000, 0, 10922);
    process_events(&mut p, &g, true, false, false, true, 0);
    // Forward first at the old angle, then the right turn.
    assert_eq!(p.x, 1_600_000);
    assert_eq!(p.y, 1_500_000);
    assert_eq!(p.angle, 522);
}

#[test]
fn process_events_mouse_turns_both_ways() {
    let g = grid(&["+++", "+ +", "+++"]);
    let mut p = Player::new(1_500_000, 1_500_000, 0, 10922);
    process_events(&mut p, &g, false, false, false, false, 1092);
    assert_eq!(p.angle, 1092);
    process_events(&mut p, &g, false, false, false, false, -2184);
    assert_eq!(p.angle, 64444);
}

#[test]
fn start_screen_selection_wraps_and_confirms() {
    let mut selected: usize = 0;
    assert_eq!(process_start_screen_input(&mut selected, false, true, false), None);
    assert_eq!(selected, 1);
    assert_eq!(process_start_screen_input(&mut selected, false, true, false), None);
    assert_eq!(selected, 0);
    // The up step adds one and wraps one place back: a full cycle over
    // two buttons, so the selection stays put.
    assert_eq!(process_start_screen_input(&mut selected, true, false, false), None);
    assert_eq!(selected, 0);
    assert_eq!(
        process_start_screen_input(&mut selected, false, false, true),
        Some(0)
    );
    // Down and up together still land on the stepped selection.
    assert_eq!(process_start_screen_input(&mut selected, true, true, false), None);
    assert_eq!(selected, 1);
}
