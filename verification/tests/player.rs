use raycaster::Cell;
use raycaster::Command;
use raycaster::Player;
use raycaster::Vec2;
use raycaster::parse_maze;
use raycaster::process_events;
use raycaster::player::JOYSTICK_THRESHOLD_FP;
use raycaster::player::MOVE_SPEED_FP;
use raycaster::player::ROTATION_SPEED_FP;
use raycaster::player::joystick_move;
use raycaster::player::joystick_rotation;
use raycaster::player::mouse_rotation;
use raycaster::player::rotate_player;
use raycaster::player::try_move;

const FP: i64 = 65536;

fn box_maze() -> Vec<Vec<Cell>> {
    let lines: Vec<Vec<u8>> = vec![b"+-+".to_vec(), b"| |".to_vec(), b"+-+".to_vec()];
    parse_maze(&lines).expect("the boxed maze is well formed")
}

fn player_at(x: i64, y: i64) -> Player {
    Player { pos: Vec2 { x, y }, a: 0, fov: 0x8000, mouse_sensitivity: 300 }
}

#[test]
fn move_into_wall_is_rejected() {
    let maze = box_maze();
    // (15, 15) is open; 5 units east lands at (20, 15), inside the
    // right-hand vertical wall: the position must not change.
    let mut player = player_at(15 * FP, 15 * FP);
    try_move(&mut player, &maze, 10, MOVE_SPEED_FP, 0);
    assert_eq!(player.pos, Vec2 { x: 15 * FP, y: 15 * FP });
}

#[test]
fn move_into_open_cell_is_exact() {
    let maze = box_maze();
    // 3 units east of (12, 15) is (15, 15), still open floor: the
    // position advances by exactly the delta vector.
    let mut player = player_at(12 * FP, 15 * FP);
    try_move(&mut player, &maze, 10, 3 * FP, 0);
    assert_eq!(player.pos, Vec2 { x: 15 * FP, y: 15 * FP });
}

#[test]
fn rotation_is_unconditional() {
    let maze = box_maze();
    let mut player = player_at(15 * FP, 15 * FP);
    let commands = vec![Command::Rotate(-ROTATION_SPEED_FP), Command::Rotate(-ROTATION_SPEED_FP)];
    process_events(&mut player, &maze, 10, &commands);
    assert_eq!(player.a, -2 * ROTATION_SPEED_FP);
    assert_eq!(player.pos, Vec2 { x: 15 * FP, y: 15 * FP });
}

#[test]
fn rotate_wraps_at_the_ends_of_the_range() {
    let mut player = player_at(0, 0);
    player.a = i64::MAX;
    rotate_player(&mut player, 1);
    assert_eq!(player.a, i64::MIN);
}

#[test]
fn command_sequence_applies_in_order() {
    let maze = box_maze();
    let mut player = player_at(15 * FP, 15 * FP);
    let commands = vec![
        Command::Rotate(100),
        // Into the wall: rejected.
        Command::Move(MOVE_SPEED_FP, 0),
        // Back into the open cell: committed.
        Command::Move(-3 * FP, 0),
    ];
    process_events(&mut player, &maze, 10, &commands);
    assert_eq!(player.a, 100);
    assert_eq!(player.pos, Vec2 { x: 12 * FP, y: 15 * FP });
}

#[test]
fn joystick_inside_dead_zone_is_ignored() {
    assert_eq!(joystick_rotation(JOYSTICK_THRESHOLD_FP), None);
    assert_eq!(joystick_rotation(-JOYSTICK_THRESHOLD_FP), None);
    let forward = Vec2 { x: FP, y: 0 };
    let strafe = Vec2 { x: 0, y: -FP };
    assert_eq!(joystick_move(0, 0, forward, strafe), None);
}

#[test]
fn joystick_rotation_scales_the_reading() {
    // Full deflection turns by exactly one rotation step.
    assert_eq!(joystick_rotation(FP), Some(Command::Rotate(ROTATION_SPEED_FP)));
    // Half deflection turns by half of one, rounded toward zero.
    assert_eq!(joystick_rotation(FP / 2), Some(Command::Rotate(ROTATION_SPEED_FP / 2)));
}

#[test]
fn joystick_move_combines_forward_and_strafe() {
    // Facing east: forward (1, 0), strafe (0, -1). Full forward
    // deflection moves 5 units east.
    let forward = Vec2 { x: FP, y: 0 };
    let strafe = Vec2 { x: 0, y: -FP };
    assert_eq!(
        joystick_move(0, FP, forward, strafe),
        Some(Command::Move(5 * FP, 0))
    );
    // Full sideways deflection moves 5 units north (negative y).
    assert_eq!(
        joystick_move(FP, 0, forward, strafe),
        Some(Command::Move(0, -5 * FP))
    );
}

#[test]
fn mouse_turns_against_horizontal_travel() {
    // Two pixels right with sensitivity 300 turns left by 600.
    assert_eq!(mouse_rotation(2 * FP, 0, 300), Some(Command::Rotate(-600)));
    // Travel under one pixel on both axes is ignored.
    assert_eq!(mouse_rotation(FP, FP, 300), None);
}
