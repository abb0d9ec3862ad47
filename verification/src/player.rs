//! The player: pose (position, heading, field of view) and the input
//! decision rules. Heading changes are unconditional; every translation
//! is committed only after the collision test clears the target, so the
//! avatar can never step into a wall.
//!
//! Device polling and trigonometry live outside the library: callers
//! digest raw input into [`Command`] values (a heading change, or an
//! attempted translation by a fixed-point delta vector) and hand them
//! here in the order the devices reported them.

use vstd::prelude::*;
use crate::grid::BLOCK_MAX;
use crate::grid::COORD_LIMIT;
use crate::grid::Cell;
use crate::grid::FP_SCALE;
use crate::grid::grid_view;
use crate::grid::wall_at;
use crate::caster::check_collision;

verus! {

/// Distance (in subunits) one movement key press travels: five
/// coordinate units, matching the ray marcher's step.
pub const MOVE_SPEED_FP: i64 = 5 * 65536;

/// Heading change (in subunits of a radian) per rotation key press or
/// D-pad tap: one thirty-fifth of a half turn, rounded to subunits.
pub const ROTATION_SPEED_FP: i64 = 5883;

/// Dead zone of the gamepad sticks: axis readings at most this large
/// (a tenth of full deflection, rounded up to subunits) are ignored.
pub const JOYSTICK_THRESHOLD_FP: i64 = 6554;

/// Mouse travel (in subunits of a pixel) below which a frame's mouse
/// delta is ignored: one pixel on either axis.
pub const MOUSE_THRESHOLD_FP: i64 = 65536;

/// Largest field of view (in subunits of a radian) a well-formed pose
/// may carry; keeps the per-column angle arithmetic in range.
pub const FOV_MAX: i64 = 0x10_0000;

/// A two-component fixed-point vector: a position or a displacement in
/// subunits of the grid's coordinate space.
#[derive(Clone, Copy, PartialEq, Eq, Structural, Debug)]
pub struct Vec2 {
    pub x: i64,
    pub y: i64,
}

/// The player's pose: position in subunits, heading and field of view
/// in subunits of a radian, and the mouse-look scale in subunits of a
/// radian per pixel.
#[derive(Clone, Copy, PartialEq, Eq, Structural, Debug)]
pub struct Player {
    pub pos: Vec2,
    pub a: i64,
    pub fov: i64,
    pub mouse_sensitivity: i64,
}

impl Player {
    /// A pose the engine can work with: coordinates small enough that
    /// every ray sample stays in range, and a bounded field of view.
    pub open spec fn wf(&self) -> bool {
        &&& -COORD_LIMIT <= self.pos.x <= COORD_LIMIT
        &&& -COORD_LIMIT <= self.pos.y <= COORD_LIMIT
        &&& 0 <= self.fov <= FOV_MAX
    }
}

/// One digested input event: an unconditional heading change, or an
/// attempted translation that the collision test must clear first.
#[derive(Clone, Copy, PartialEq, Eq, Structural, Debug)]
pub enum Command {
    /// Turn by this many subunits of a radian (negative turns left).
    Rotate(i64),
    /// Try to move by this displacement, in subunits.
    Move(i64, i64),
}

/// Two's-complement wrap of a value at most one step outside the `i64`
/// range, as a sum or difference of two `i64` values always is.
pub open spec fn wrap_i64(v: int) -> int {
    if v > i64::MAX {
        v - 0x1_0000_0000_0000_0000
    } else if v < i64::MIN {
        v + 0x1_0000_0000_0000_0000
    } else {
        v
    }
}

/// The pose after a heading change: position untouched, heading summed
/// with two's-complement wrap.
pub open spec fn apply_rotate(pl: Player, delta: int) -> Player {
    Player { a: wrap_i64(pl.a + delta) as i64, ..pl }
}

/// The pose after an attempted translation: the target is taken exactly
/// when it stays in coordinate range and the collision test clears it;
/// otherwise the move is rejected whole and the pose is unchanged.
pub open spec fn apply_move(
    g: Seq<Seq<Cell>>,
    block_size: int,
    pl: Player,
    dx: int,
    dy: int,
) -> Player {
    let nx = pl.pos.x + dx;
    let ny = pl.pos.y + dy;
    if -COORD_LIMIT <= nx <= COORD_LIMIT && -COORD_LIMIT <= ny <= COORD_LIMIT && !wall_at(
        g,
        nx,
        ny,
        block_size,
    ) {
        Player { pos: Vec2 { x: nx as i64, y: ny as i64 }, ..pl }
    } else {
        pl
    }
}

/// The pose after one command.
pub open spec fn apply_command(
    g: Seq<Seq<Cell>>,
    block_size: int,
    pl: Player,
    c: Command,
) -> Player {
    match c {
        Command::Rotate(delta) => apply_rotate(pl, delta as int),
        Command::Move(dx, dy) => apply_move(g, block_size, pl, dx as int, dy as int),
    }
}

/// The pose after a sequence of commands, applied in order.
pub open spec fn apply_commands(
    g: Seq<Seq<Cell>>,
    block_size: int,
    pl: Player,
    cs: Seq<Command>,
) -> Player
    decreases cs.len(),
{
    if cs.len() == 0 {
        pl
    } else {
        apply_commands(g, block_size, apply_command(g, block_size, pl, cs[0]), cs.skip(1))
    }
}

/// Folds a value at most one step outside the `i64` range back into it
/// by two's-complement wrap.
pub fn wrap_to_i64(v: i128) -> (r: i64)
    requires
        -0x1_0000_0000_0000_0000i128 <= v <= 0x1_0000_0000_0000_0000i128,
    ensures
        r as int == wrap_i64(v as int),
{
    if v > i64::MAX as i128 {
        (v - 0x1_0000_0000_0000_0000i128) as i64
    } else if v < i64::MIN as i128 {
        (v + 0x1_0000_0000_0000_0000i128) as i64
    } else {
        v as i64
    }
}

/// Turns the player by `delta` subunits of a radian, unconditionally:
/// no collision test applies to heading changes.
pub fn rotate_player(player: &mut Player, delta: i64)
    ensures
        *final(player) == apply_rotate(*old(player), delta as int),
        old(player).wf() ==> final(player).wf(),
{
    let a: i64 = wrap_to_i64(player.a as i128 + delta as i128);
    player.a = a;
}

/// Attempts to translate the player by `(dx, dy)` subunits: the move is
/// committed exactly when the target stays in coordinate range and does
/// not fall inside a wall; otherwise the position is left as it was.
pub fn try_move(player: &mut Player, maze: &Vec<Vec<Cell>>, block_size: u64, dx: i64, dy: i64)
    requires
        old(player).wf(),
        1 <= block_size <= BLOCK_MAX,
    ensures
        *final(player) == apply_move(
            grid_view(maze),
            block_size as int,
            *old(player),
            dx as int,
            dy as int,
        ),
        final(player).wf(),
{
    let nx: i128 = player.pos.x as i128 + dx as i128;
    let ny: i128 = player.pos.y as i128 + dy as i128;
    if nx < -COORD_LIMIT as i128 || nx > COORD_LIMIT as i128 || ny < -COORD_LIMIT as i128 || ny
        > COORD_LIMIT as i128 {
        return ;
    }
    let target = Vec2 { x: nx as i64, y: ny as i64 };
    if !check_collision(maze, &target, block_size) {
        player.pos = target;
    }
}

/// Applies a frame's digested input events in order: rotations turn the
/// heading unconditionally, translations are committed only where the
/// collision test clears the target.
pub fn process_events(
    player: &mut Player,
    maze: &Vec<Vec<Cell>>,
    block_size: u64,
    commands: &Vec<Command>,
)
    requires
        old(player).wf(),
        1 <= block_size <= BLOCK_MAX,
    ensures
        *final(player) == apply_commands(
            grid_view(maze),
            block_size as int,
            *old(player),
            commands@,
        ),
        final(player).wf(),
{
    let ghost g = grid_view(maze);
    proof {
        assert(commands@.skip(0) =~= commands@);
    }
    let mut k: usize = 0;
    while k < commands.len()
        invariant
            k <= commands.len(),
            player.wf(),
            1 <= block_size <= BLOCK_MAX,
            g == grid_view(maze),
            apply_commands(g, block_size as int, *player, commands@.skip(k as int))
                == apply_commands(g, block_size as int, *old(player), commands@),
        decreases commands.len() - k,
    {
        let ghost rest = commands@.skip(k as int);
        proof {
            assert(rest[0] == commands@[k as int]);
            assert(rest.skip(1) =~= commands@.skip(k as int + 1));
        }
        match commands[k] {
            Command::Rotate(delta) => rotate_player(player, delta),
            Command::Move(dx, dy) => try_move(player, maze, block_size, dx, dy),
        }
        k += 1;
    }
    proof {
        assert(commands@.skip(commands@.len() as int) =~= Seq::<Command>::empty());
    }
}

/// Truncating division by `FP_SCALE`: the rounding-toward-zero rescale
/// every fixed-point product goes through.
pub open spec fn tdiv_fp(v: int) -> int {
    if v >= 0 {
        v / (FP_SCALE as int)
    } else {
        -((-v) / (FP_SCALE as int))
    }
}

fn div_fp(v: i64) -> (r: i64)
    requires
        i64::MIN < v,
    ensures
        r == tdiv_fp(v as int),
{
    if v >= 0 {
        ((v as u64) / 65536) as i64
    } else {
        let m: u64 = (-v) as u64;
        -((m / 65536) as i64)
    }
}

/// The heading change a frame's right-stick reading calls for: readings
/// inside the dead zone are ignored, larger ones turn the player by the
/// reading scaled by the rotation speed.
pub fn joystick_rotation(joystick_rotate: i64) -> (r: Option<Command>)
    requires
        -FP_SCALE <= joystick_rotate <= FP_SCALE,
    ensures
        r == if joystick_rotate > JOYSTICK_THRESHOLD_FP || joystick_rotate
            < -JOYSTICK_THRESHOLD_FP {
            Some(Command::Rotate(tdiv_fp(joystick_rotate * ROTATION_SPEED_FP) as i64))
        } else {
            Option::<Command>::None
        },
{
    if joystick_rotate > JOYSTICK_THRESHOLD_FP || joystick_rotate < -JOYSTICK_THRESHOLD_FP {
        Some(Command::Rotate(div_fp(joystick_rotate * ROTATION_SPEED_FP)))
    } else {
        None
    }
}

/// The translation a frame's left-stick reading calls for, given the
/// unit forward and strafe directions of the current heading: readings
/// with both axes inside the dead zone are ignored, larger ones move by
/// forward times the stick's y plus strafe times the stick's x, scaled
/// by the move speed.
pub fn joystick_move(
    joystick_move_x: i64,
    joystick_move_y: i64,
    forward: Vec2,
    strafe: Vec2,
) -> (r: Option<Command>)
    requires
        -FP_SCALE <= joystick_move_x <= FP_SCALE,
        -FP_SCALE <= joystick_move_y <= FP_SCALE,
        -FP_SCALE <= forward.x <= FP_SCALE,
        -FP_SCALE <= forward.y <= FP_SCALE,
        -FP_SCALE <= strafe.x <= FP_SCALE,
        -FP_SCALE <= strafe.y <= FP_SCALE,
    ensures
        r == if joystick_move_x > JOYSTICK_THRESHOLD_FP || joystick_move_x
            < -JOYSTICK_THRESHOLD_FP || joystick_move_y > JOYSTICK_THRESHOLD_FP || joystick_move_y
            < -JOYSTICK_THRESHOLD_FP {
            Some(
                Command::Move(
                    tdiv_fp(
                        forward.x * joystick_move_y * 5 + strafe.x * joystick_move_x * 5,
                    ) as i64,
                    tdiv_fp(
                        forward.y * joystick_move_y * 5 + strafe.y * joystick_move_x * 5,
                    ) as i64,
                ),
            )
        } else {
            Option::<Command>::None
        },
{
    if joystick_move_x > JOYSTICK_THRESHOLD_FP || joystick_move_x < -JOYSTICK_THRESHOLD_FP
        || joystick_move_y > JOYSTICK_THRESHOLD_FP || joystick_move_y < -JOYSTICK_THRESHOLD_FP {
        proof {
            assert(-0x5_0000_0000i64 <= forward.x * joystick_move_y * 5 <= 0x5_0000_0000i64)
                by (nonlinear_arith)
                requires
                    -FP_SCALE <= forward.x <= FP_SCALE,
                    -FP_SCALE <= joystick_move_y <= FP_SCALE,
            ;
            assert(-0x5_0000_0000i64 <= strafe.x * joystick_move_x * 5 <= 0x5_0000_0000i64)
                by (nonlinear_arith)
                requires
                    -FP_SCALE <= strafe.x <= FP_SCALE,
                    -FP_SCALE <= joystick_move_x <= FP_SCALE,
            ;
            assert(-0x5_0000_0000i64 <= forward.y * joystick_move_y * 5 <= 0x5_0000_0000i64)
                by (nonlinear_arith)
                requires
                    -FP_SCALE <= forward.y <= FP_SCALE,
                    -FP_SCALE <= joystick_move_y <= FP_SCALE,
            ;
            assert(-0x5_0000_0000i64 <= strafe.y * joystick_move_x * 5 <= 0x5_0000_0000i64)
                by (nonlinear_arith)
                requires
                    -FP_SCALE <= strafe.y <= FP_SCALE,
                    -FP_SCALE <= joystick_move_x <= FP_SCALE,
            ;
        }
        let dx: i64 = div_fp(forward.x * joystick_move_y * 5 + strafe.x * joystick_move_x * 5);
        let dy: i64 = div_fp(forward.y * joystick_move_y * 5 + strafe.y * joystick_move_x * 5);
        Some(Command::Move(dx, dy))
    } else {
        None
    }
}

/// The heading change a frame's mouse travel calls for: movement under
/// one pixel on both axes is ignored, larger travel turns the player
/// against the horizontal delta scaled by the mouse sensitivity.
pub fn mouse_rotation(mouse_delta_x: i64, mouse_delta_y: i64, sensitivity: i64) -> (r: Option<
    Command,
>)
    requires
        -0x1_0000_0000i64 <= mouse_delta_x <= 0x1_0000_0000i64,
        -0x1_0000_0000i64 <= mouse_delta_y <= 0x1_0000_0000i64,
        -FP_SCALE <= sensitivity <= FP_SCALE,
    ensures
        r == if mouse_delta_x > MOUSE_THRESHOLD_FP || mouse_delta_x < -MOUSE_THRESHOLD_FP
            || mouse_delta_y > MOUSE_THRESHOLD_FP || mouse_delta_y < -MOUSE_THRESHOLD_FP {
            Some(Command::Rotate((-tdiv_fp(mouse_delta_x * sensitivity)) as i64))
        } else {
            Option::<Command>::None
        },
{
    if mouse_delta_x > MOUSE_THRESHOLD_FP || mouse_delta_x < -MOUSE_THRESHOLD_FP || mouse_delta_y
        > MOUSE_THRESHOLD_FP || mouse_delta_y < -MOUSE_THRESHOLD_FP {
        proof {
            assert(-0x1_0000_0000_0000i64 <= mouse_delta_x * sensitivity
                <= 0x1_0000_0000_0000i64) by (nonlinear_arith)
                requires
                    -0x1_0000_0000i64 <= mouse_delta_x <= 0x1_0000_0000i64,
                    -FP_SCALE <= sensitivity <= FP_SCALE,
            ;
        }
        Some(Command::Rotate(-div_fp(mouse_delta_x * sensitivity)))
    } else {
        None
    }
}

} // verus!
