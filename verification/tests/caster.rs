use raycaster::Cell;
use raycaster::Framebuffer;
use raycaster::Impact;
use raycaster::Player;
use raycaster::Vec2;
use raycaster::WallKind;
use raycaster::cast_ray;
use raycaster::check_collision;
use raycaster::parse_maze;

const FP: i64 = 65536;
const STEP_FP: u64 = 5 * 65536;

fn box_maze() -> Vec<Vec<Cell>> {
    let lines: Vec<Vec<u8>> = vec![b"+-+".to_vec(), b"| |".to_vec(), b"+-+".to_vec()];
    parse_maze(&lines).expect("the boxed maze is well formed")
}

fn player_at(x: i64, y: i64) -> Player {
    Player { pos: Vec2 { x, y }, a: 0, fov: 0x10_0000 / 16, mouse_sensitivity: 300 }
}

#[test]
fn collision_inside_wall_cell() {
    let maze = box_maze();
    // (5, 5) lies strictly inside cell (0, 0), the corner wall.
    let pos = Vec2 { x: 5 * FP, y: 5 * FP };
    assert!(check_collision(&maze, &pos, 10));
}

#[test]
fn collision_inside_empty_cell() {
    let maze = box_maze();
    // (15, 15) lies strictly inside cell (1, 1), open floor.
    let pos = Vec2 { x: 15 * FP, y: 15 * FP };
    assert!(!check_collision(&maze, &pos, 10));
}

#[test]
fn collision_outside_bounds_is_permissive() {
    let maze = box_maze();
    // Beyond the last row.
    let below = Vec2 { x: 15 * FP, y: 35 * FP };
    assert!(!check_collision(&maze, &below, 10));
    // Beyond the indexed row's length.
    let right = Vec2 { x: 35 * FP, y: 15 * FP };
    assert!(!check_collision(&maze, &right, 10));
    // Negative coordinates are outside, not clamped.
    let negative = Vec2 { x: -1, y: 15 * FP };
    assert!(!check_collision(&maze, &negative, 10));
    let negative_y = Vec2 { x: 15 * FP, y: -5 * FP };
    assert!(!check_collision(&maze, &negative_y, 10));
}

#[test]
fn ray_hits_wall_one_step_east() {
    let maze = box_maze();
    let mut fb = Framebuffer::new(4, 4);
    let player = player_at(15 * FP, 15 * FP);
    // Facing east: the sample after one 5-unit step lands at x = 20,
    // cell (2, 1), the right-hand vertical wall.
    let hit = cast_ray(&mut fb, &maze, &player, FP, 0, 10, false, 1000);
    assert_eq!(hit.distance, STEP_FP);
    assert_eq!(hit.impact, Impact::Wall(WallKind::Vertical));
}

#[test]
fn ray_hits_wall_n_steps_away() {
    // A corridor one cell tall: 9 open cells of side 5, then a corner
    // wall at cell index 9 (x in [45, 50)).
    let mut row: Vec<Cell> = vec![Cell::Empty; 9];
    row.push(Cell::Wall(WallKind::Corner));
    let maze = vec![row];
    let mut fb = Framebuffer::new(4, 4);
    let player = player_at(2 * FP, 2 * FP);
    // Samples at x = 2, 7, ..., 42 are open; x = 47 is the 9th step.
    let hit = cast_ray(&mut fb, &maze, &player, FP, 0, 5, false, 1000);
    assert_eq!(hit.distance, 9 * STEP_FP);
    assert_eq!(hit.impact, Impact::Wall(WallKind::Corner));
    // The distance lies in [(N-1)*s, N*s] for the wall N = 9 steps out.
    assert!(8 * STEP_FP <= hit.distance && hit.distance <= 9 * STEP_FP);
}

#[test]
fn ray_exits_grid_through_open_space() {
    // A single open cell of side 10: marching east leaves the row after
    // two steps.
    let maze = vec![vec![Cell::Empty]];
    let mut fb = Framebuffer::new(4, 4);
    let player = player_at(5 * FP, 5 * FP);
    let hit = cast_ray(&mut fb, &maze, &player, FP, 0, 10, false, 1000);
    // x = 5 is open; x = 10 indexes column 1, outside the row.
    assert_eq!(hit.impact, Impact::Outside);
    assert_eq!(hit.distance, STEP_FP);
}

#[test]
fn ray_runs_out_of_budget() {
    // A huge cell: with a three-step budget every sample is still on
    // open floor, and the marcher reports the give-up sentinel with the
    // whole distance it accumulated.
    let maze = vec![vec![Cell::Empty]];
    let mut fb = Framebuffer::new(4, 4);
    let player = player_at(0, 0);
    let hit = cast_ray(&mut fb, &maze, &player, FP, 0, 0x1_0000_0000, false, 3);
    assert_eq!(hit.impact, Impact::NoHit);
    assert_eq!(hit.distance, 4 * STEP_FP);
}

#[test]
fn cast_ray_is_idempotent() {
    let maze = box_maze();
    let mut fb = Framebuffer::new(4, 4);
    let player = player_at(15 * FP, 15 * FP);
    let first = cast_ray(&mut fb, &maze, &player, FP, 0, 10, false, 1000);
    let second = cast_ray(&mut fb, &maze, &player, FP, 0, 10, false, 1000);
    assert_eq!(first, second);
}

#[test]
fn cast_ray_without_paint_leaves_framebuffer_alone() {
    let maze = box_maze();
    let mut fb = Framebuffer::new(4, 4);
    let player = player_at(15 * FP, 15 * FP);
    let before = fb.buffer.clone();
    let _ = cast_ray(&mut fb, &maze, &player, FP, 0, 10, false, 1000);
    assert_eq!(fb.buffer, before);
}

#[test]
fn cast_ray_paint_uses_trace_color() {
    // Painting enabled: traversed open samples are traced in the
    // diagnostic color; everything else keeps its color.
    let mut row: Vec<Cell> = vec![Cell::Empty; 9];
    row.push(Cell::Wall(WallKind::Corner));
    let maze = vec![row];
    let mut fb = Framebuffer::new(50, 5);
    let player = player_at(2 * FP, 2 * FP);
    let _ = cast_ray(&mut fb, &maze, &player, FP, 0, 5, true, 1000);
    // Every traversed open sample is painted: (2 + 5n, 2) for the nine
    // samples before the wall hit.
    for n in 0..9 {
        assert_eq!(fb.buffer[2 * 50 + 2 + 5 * n], 0xFFDDDD);
    }
    // A pixel off the traced line is untouched.
    assert_eq!(fb.buffer[0], 0);
}

#[test]
fn boxed_maze_scenario_east_ray() {
    // Grid ["+-+", "| |", "+-+"], block size 10, player at (15, 15)
    // facing east: the march terminates at column index 2 of the middle
    // row before any bound is exceeded, after one 5-unit step.
    let maze = box_maze();
    let mut fb = Framebuffer::new(4, 4);
    let player = player_at(15 * FP, 15 * FP);
    let hit = cast_ray(&mut fb, &maze, &player, FP, 0, 10, false, 1000);
    assert_eq!(hit.impact, Impact::Wall(WallKind::Vertical));
    assert_eq!(hit.distance, STEP_FP);
}

#[test]
fn parse_maze_reads_cells() {
    let maze = box_maze();
    assert_eq!(maze.len(), 3);
    assert_eq!(maze[0], vec![
        Cell::Wall(WallKind::Corner),
        Cell::Wall(WallKind::Horizontal),
        Cell::Wall(WallKind::Corner)
    ]);
    assert_eq!(maze[1], vec![
        Cell::Wall(WallKind::Vertical),
        Cell::Empty,
        Cell::Wall(WallKind::Vertical)
    ]);
    assert_eq!(maze[2], vec![
        Cell::Wall(WallKind::Corner),
        Cell::Wall(WallKind::Horizontal),
        Cell::Wall(WallKind::Corner)
    ]);
}

#[test]
fn parse_maze_accepts_ragged_rows() {
    let lines: Vec<Vec<u8>> = vec![b"+-+".to_vec(), b"|".to_vec()];
    let maze = parse_maze(&lines).expect("ragged rows are allowed");
    assert_eq!(maze[0].len(), 3);
    assert_eq!(maze[1].len(), 1);
}

#[test]
fn parse_maze_rejects_unknown_marks() {
    let lines: Vec<Vec<u8>> = vec![b"+-+".to_vec(), b"|x|".to_vec()];
    assert!(parse_maze(&lines).is_none());
}
