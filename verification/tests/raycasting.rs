use space_maze::cast_ray;
use space_maze::raycast::MAX_CAST_DISTANCE;
use space_maze::Framebuffer;
use space_maze::Player;
use space_maze::Vec2Fp;

fn closed_room() -> Vec<Vec<char>> {
    vec![
        vec!['-', '-', '-'],
        vec!['-', ' ', '-'],
        vec!['-', '-', '-'],
    ]
}

fn player_at_units(x: i64, y: i64, a: i64) -> Player {
    Player::new(Vec2Fp::new(x * 1024, y * 1024), a, 600)
}

#[test]
fn cast_straight_at_a_wall_reports_half_a_block() {
    // a 3x3 wall ring with one open interior cell, the player at its
    // center facing the east wall: the wall plane is 50 units away
    let maze = closed_room();
    let mut fb = Framebuffer::new(100, 60);
    let player = player_at_units(150, 150, 0);
    let hit = cast_ray(&mut fb, &maze, &player, 0, 100, false);
    assert_eq!(hit.distance, 50);
    assert_eq!(hit.impact, '-');
    assert_eq!(hit.tx, 64);
}

#[test]
fn cast_distance_is_within_one_step_of_the_true_distance() {
    // 151 units from the wall plane at x = 200: true distance 49, and the
    // 2-unit sampling may overshoot by at most one step
    let maze = closed_room();
    let mut fb = Framebuffer::new(100, 60);
    let player = Player::new(Vec2Fp::new(151 * 1024, 150 * 1024), 0, 600);
    let hit = cast_ray(&mut fb, &maze, &player, 0, 100, false);
    assert!(49 <= hit.distance && hit.distance < 51);
    assert_eq!(hit.impact, '-');
}

#[test]
fn cast_across_an_open_room_stops_at_the_enclosing_ring() {
    // a 5x5 ring, all interior open: the ray crosses the whole room and
    // terminates exactly at the ring
    let maze = vec![
        vec!['-', '-', '-', '-', '-'],
        vec!['-', ' ', ' ', ' ', '-'],
        vec!['-', ' ', ' ', ' ', '-'],
        vec!['-', ' ', ' ', ' ', '-'],
        vec!['-', '-', '-', '-', '-'],
    ];
    let mut fb = Framebuffer::new(100, 60);
    let player = player_at_units(150, 250, 0);
    let hit = cast_ray(&mut fb, &maze, &player, 0, 100, false);
    assert_eq!(hit.distance, 250);
    assert_eq!(hit.impact, '-');
}

#[test]
fn cast_in_an_unenclosed_grid_stops_at_the_guard() {
    let maze = vec![vec![' ', ' ', ' ']];
    let mut fb = Framebuffer::new(100, 60);
    let player = player_at_units(150, 50, 0);
    let hit = cast_ray(&mut fb, &maze, &player, 0, 100, false);
    assert_eq!(hit.distance, MAX_CAST_DISTANCE);
    assert_eq!(hit.impact, ' ');
    assert_eq!(hit.tx, 0);
}

#[test]
fn texture_column_always_lies_inside_the_tile() {
    let maze = closed_room();
    let mut fb = Framebuffer::new(100, 60);
    let mut a: i64 = -1800;
    while a <= 5400 {
        let player = player_at_units(150, 150, 0);
        let hit = cast_ray(&mut fb, &maze, &player, a, 100, false);
        assert!(hit.tx < 128, "angle {} gave texture column {}", a, hit.tx);
        a += 93;
    }
}

#[test]
fn cast_without_recording_leaves_the_framebuffer_unchanged() {
    let maze = closed_room();
    let mut fb = Framebuffer::new(50, 40);
    fb.set_current_color(0x123456);
    fb.point(10, 10);
    let snapshot = fb.buffer.clone();
    let player = player_at_units(150, 150, 0);
    cast_ray(&mut fb, &maze, &player, 300, 100, false);
    assert_eq!(fb.buffer, snapshot);
}

#[test]
fn cast_with_recording_plots_only_white_points() {
    let maze = closed_room();
    let mut fb = Framebuffer::new(400, 400);
    let player = player_at_units(150, 150, 0);
    let before = fb.buffer.clone();
    cast_ray(&mut fb, &maze, &player, 450, 100, true);
    let mut changed = 0;
    for k in 0..fb.buffer.len() {
        if fb.buffer[k] != before[k] {
            assert_eq!(fb.buffer[k], 0xFFFFFF);
            changed += 1;
        }
    }
    assert!(changed > 0);
    // the very first sample sits at the player position and is plotted
    assert_eq!(fb.get_pixel(150, 150), 0xFFFFFF);
}
