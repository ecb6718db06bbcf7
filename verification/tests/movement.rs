use space_maze::parse_maze;
use space_maze::process_events;
use space_maze::InputState;
use space_maze::Player;
use space_maze::StepSound;
use space_maze::Vec2Fp;

fn idle_input() -> InputState {
    InputState {
        turn_left: false,
        turn_right: false,
        forward: false,
        backward: false,
        mouse_turn: 0,
    }
}

fn closed_room() -> Vec<Vec<char>> {
    vec![
        vec!['-', '-', '-'],
        vec!['-', ' ', '-'],
        vec!['-', '-', '-'],
    ]
}

#[test]
fn turning_keys_rotate_by_the_fixed_tick() {
    let maze = closed_room();
    let mut player = Player::new(Vec2Fp::new(150 * 1024, 150 * 1024), 0, 600);

    let mut input = idle_input();
    input.turn_right = true;
    let sound = process_events(&mut player, &input, &maze, 100);
    assert_eq!(player.a, 22);
    assert_eq!(sound, StepSound::Pause);

    input.turn_right = false;
    input.turn_left = true;
    process_events(&mut player, &input, &maze, 100);
    assert_eq!(player.a, 0);

    process_events(&mut player, &input, &maze, 100);
    assert_eq!(player.a, 3578);
}

#[test]
fn mouse_swipes_rotate_by_their_sign() {
    let maze = closed_room();
    let mut player = Player::new(Vec2Fp::new(150 * 1024, 150 * 1024), 0, 600);
    let mut input = idle_input();
    input.mouse_turn = 7;
    process_events(&mut player, &input, &maze, 100);
    assert_eq!(player.a, 22);
    input.mouse_turn = -3;
    process_events(&mut player, &input, &maze, 100);
    assert_eq!(player.a, 0);
}

#[test]
fn walking_into_open_floor_moves_and_plays_steps() {
    let maze = closed_room();
    let mut player = Player::new(Vec2Fp::new(120 * 1024, 150 * 1024), 0, 600);
    let mut input = idle_input();
    input.forward = true;
    let sound = process_events(&mut player, &input, &maze, 100);
    assert_eq!(player.pos.x, 120 * 1024 + 2 * 1024);
    assert_eq!(player.pos.y, 150 * 1024);
    assert_eq!(sound, StepSound::Play);
}

#[test]
fn walking_into_a_wall_is_refused_and_pauses_steps() {
    // one step east of the interior cell's edge: the target sample lands
    // in the east wall cell, so the move is refused
    let maze = closed_room();
    let mut player = Player::new(Vec2Fp::new(199 * 1024, 150 * 1024), 0, 600);
    let mut input = idle_input();
    input.forward = true;
    let sound = process_events(&mut player, &input, &maze, 100);
    assert_eq!(player.pos.x, 199 * 1024);
    assert_eq!(sound, StepSound::Pause);
}

#[test]
fn cancelling_steps_keep_the_sound_as_it_was() {
    let maze = closed_room();
    let mut player = Player::new(Vec2Fp::new(150 * 1024, 150 * 1024), 0, 600);
    let mut input = idle_input();
    input.forward = true;
    input.backward = true;
    let sound = process_events(&mut player, &input, &maze, 100);
    assert_eq!(player.pos.x, 150 * 1024);
    assert_eq!(sound, StepSound::Keep);
}

#[test]
fn can_move_to_checks_the_target_cell() {
    let maze = closed_room();
    let player = Player::new(Vec2Fp::new(150 * 1024, 150 * 1024), 0, 600);
    assert!(player.can_move_to(Vec2Fp::new(180 * 1024, 160 * 1024), &maze, 100));
    assert!(!player.can_move_to(Vec2Fp::new(250 * 1024, 150 * 1024), &maze, 100));
    // beyond the defined rows: a miss, never a crash
    assert!(!player.can_move_to(Vec2Fp::new(150 * 1024, 950 * 1024), &maze, 100));
}

#[test]
fn maze_text_parses_into_rows_of_symbols() {
    let text: Vec<u8> = b"---\n- -\n---\n".to_vec();
    let maze = parse_maze(&text);
    assert_eq!(maze.len(), 3);
    assert_eq!(maze[0], vec!['-', '-', '-']);
    assert_eq!(maze[1], vec!['-', ' ', '-']);
    assert_eq!(maze[2], vec!['-', '-', '-']);
}

#[test]
fn maze_text_keeps_a_final_unterminated_row() {
    let maze = parse_maze(&b"-g\n  ".to_vec());
    assert_eq!(maze.len(), 2);
    assert_eq!(maze[0], vec!['-', 'g']);
    assert_eq!(maze[1], vec![' ', ' ']);
}

#[test]
fn maze_text_drops_carriage_returns_and_handles_empty_input() {
    let maze = parse_maze(&b"-|\r\n+-\r\n".to_vec());
    assert_eq!(maze.len(), 2);
    assert_eq!(maze[0], vec!['-', '|']);
    assert_eq!(maze[1], vec!['+', '-']);
    assert!(parse_maze(&Vec::new()).is_empty());
    // an empty line between rows stays an empty row, never a crash
    let gappy = parse_maze(&b"-\n\n-\n".to_vec());
    assert_eq!(gappy.len(), 3);
    assert!(gappy[1].is_empty());
}
