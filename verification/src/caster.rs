//! The intersection engine and the collision test. A ray is marched
//! outward from its origin in fixed five-unit increments; at each step
//! the sample point is converted to grid indices by the shared indexing
//! rule, and the march stops at the first sample that leaves the grid
//! or lands on a wall. The march is bounded by an explicit step budget,
//! and running it out is reported as its own sentinel, distinct from
//! leaving the grid through open space.

use vstd::prelude::*;
use crate::framebuffer::Framebuffer;
use crate::grid::BLOCK_MAX;
use crate::grid::Cell;
use crate::grid::FP_SCALE;
use crate::grid::WallKind;
use crate::grid::cell_at;
use crate::grid::cell_lookup;
use crate::grid::grid_view;
use crate::grid::in_bounds;
use crate::grid::wall_at;
use crate::player::Player;
use crate::player::Vec2;

verus! {

/// Coordinate units one march step advances: the engine's spatial
/// resolution, traded against per-frame cost.
pub const STEP_UNITS: i64 = 5;

/// One march step in subunits.
pub const STEP_FP: i64 = 5 * 65536;

/// Largest step budget `cast_ray` accepts; keeps every sample point and
/// accumulated distance in range.
pub const MAX_STEPS_CAP: u32 = 0x10_0000;

/// Color of the diagnostic ray trace painted when a caller asks for it.
pub const RAY_COLOR: u32 = 0xFFDDDD;

/// What a ray ran into.
#[derive(Clone, Copy, PartialEq, Eq, Structural, Debug)]
pub enum Impact {
    /// The ray left the grid through open space.
    Outside,
    /// The ray struck a wall of this kind.
    Wall(WallKind),
    /// The step budget ran out with every sample still on open floor.
    NoHit,
}

/// One ray's outcome: the distance marched, in subunits, and what was
/// struck. Because the direction handed to the marcher is a unit
/// vector, the accumulated parameter equals Euclidean distance.
#[derive(Clone, Copy, PartialEq, Eq, Structural, Debug)]
pub struct Intersect {
    pub distance: u64,
    pub impact: Impact,
}

/// X coordinate of the ray's `n`-th sample point.
pub open spec fn ray_x(ox: int, dx: int, n: int) -> int {
    ox + STEP_UNITS * n * dx
}

/// Y coordinate of the ray's `n`-th sample point.
pub open spec fn ray_y(oy: int, dy: int, n: int) -> int {
    oy + STEP_UNITS * n * dy
}

/// The `n`-th sample lies on open floor inside the grid: the march
/// walks past it.
pub open spec fn sample_open(
    g: Seq<Seq<Cell>>,
    ox: int,
    oy: int,
    dx: int,
    dy: int,
    block_size: int,
    n: int,
) -> bool {
    &&& in_bounds(g, ray_x(ox, dx, n), ray_y(oy, dy, n), block_size)
    &&& cell_at(g, ray_x(ox, dx, n), ray_y(oy, dy, n), block_size) == Cell::Empty
}

/// The march from sample `n` on, with `fuel` more samples allowed after
/// it: the step count and impact of the first terminating sample. When
/// the budget runs out one more step is counted, so the reported
/// distance is the total marched.
pub open spec fn march_from(
    g: Seq<Seq<Cell>>,
    ox: int,
    oy: int,
    dx: int,
    dy: int,
    block_size: int,
    n: nat,
    fuel: nat,
) -> (nat, Impact)
    decreases fuel,
{
    let x = ray_x(ox, dx, n as int);
    let y = ray_y(oy, dy, n as int);
    if !in_bounds(g, x, y, block_size) {
        (n, Impact::Outside)
    } else {
        match cell_at(g, x, y, block_size) {
            Cell::Wall(k) => (n, Impact::Wall(k)),
            Cell::Empty => if fuel == 0 {
                ((n + 1) as nat, Impact::NoHit)
            } else {
                march_from(g, ox, oy, dx, dy, block_size, (n + 1) as nat, (fuel - 1) as nat)
            },
        }
    }
}

/// The whole march: samples `0` through `max_steps` are examined in
/// order and the first that leaves the grid or lands on a wall decides
/// the outcome.
pub open spec fn ray_march(
    g: Seq<Seq<Cell>>,
    ox: int,
    oy: int,
    dx: int,
    dy: int,
    block_size: int,
    max_steps: nat,
) -> (nat, Impact) {
    march_from(g, ox, oy, dx, dy, block_size, 0, max_steps)
}

/// Screen column of the ray's `n`-th sample point: the sample's x
/// coordinate scaled from subunits to pixels.
pub open spec fn sample_px(ox: int, dx: int, n: int) -> int {
    ray_x(ox, dx, n) / (FP_SCALE as int)
}

/// Screen row of the ray's `n`-th sample point.
pub open spec fn sample_py(oy: int, dy: int, n: int) -> int {
    ray_y(oy, dy, n) / (FP_SCALE as int)
}

/// The diagnostic trace reached the ray's `n`-th sample: where that
/// sample's screen position lies on the surface, the pixel there holds
/// the trace color.
pub open spec fn sample_traced(
    fb: &Framebuffer,
    ox: int,
    oy: int,
    dx: int,
    dy: int,
    n: int,
) -> bool {
    let px = sample_px(ox, dx, n);
    let py = sample_py(oy, dy, n);
    0 <= px < fb.width && 0 <= py < fb.height ==> fb.buffer@[fb.pix(px, py)] == RAY_COLOR
}

/// An intersection result is the one the march arrives at: its impact,
/// at a distance of exactly the terminating step count times the step
/// length.
pub open spec fn matches_march(
    r: Intersect,
    g: Seq<Seq<Cell>>,
    ox: int,
    oy: int,
    dx: int,
    dy: int,
    block_size: int,
    max_steps: nat,
) -> bool {
    let nm = ray_march(g, ox, oy, dx, dy, block_size, max_steps);
    r.impact == nm.1 && r.distance == nm.0 * STEP_FP
}

/// Marching past a run of open samples does not change the outcome: the
/// march from `s` equals the march from `n` once every sample in
/// between is open floor.
pub proof fn lemma_march_advance(
    g: Seq<Seq<Cell>>,
    ox: int,
    oy: int,
    dx: int,
    dy: int,
    block_size: int,
    s: nat,
    fuel: nat,
    n: nat,
)
    requires
        s <= n,
        n - s <= fuel,
        forall|m: int| s <= m < n ==> sample_open(g, ox, oy, dx, dy, block_size, m),
    ensures
        march_from(g, ox, oy, dx, dy, block_size, s, fuel) == march_from(
            g,
            ox,
            oy,
            dx,
            dy,
            block_size,
            n,
            (fuel - (n - s)) as nat,
        ),
    decreases n - s,
{
    if s < n {
        assert(sample_open(g, ox, oy, dx, dy, block_size, s as int));
        lemma_march_advance(g, ox, oy, dx, dy, block_size, (s + 1) as nat, (fuel - 1) as nat, n);
    }
}

/// A ray aimed at a wall `n` steps away, with every nearer sample on
/// open floor and `n` within the step budget, strikes exactly that
/// wall, at exactly `n` steps.
pub proof fn lemma_ray_hits_wall(
    g: Seq<Seq<Cell>>,
    ox: int,
    oy: int,
    dx: int,
    dy: int,
    block_size: int,
    max_steps: nat,
    n: nat,
    k: WallKind,
)
    requires
        n <= max_steps,
        forall|m: int| 0 <= m < n ==> sample_open(g, ox, oy, dx, dy, block_size, m),
        in_bounds(g, ray_x(ox, dx, n as int), ray_y(oy, dy, n as int), block_size),
        cell_at(g, ray_x(ox, dx, n as int), ray_y(oy, dy, n as int), block_size) == Cell::Wall(k),
    ensures
        ray_march(g, ox, oy, dx, dy, block_size, max_steps) == (n, Impact::Wall(k)),
{
    lemma_march_advance(g, ox, oy, dx, dy, block_size, 0, max_steps, n);
}

/// A ray that leaves the grid at its `n`-th sample, with every nearer
/// sample on open floor and `n` within the step budget, reports the
/// outside sentinel, at a distance of exactly the steps accumulated at
/// exit.
pub proof fn lemma_ray_exits_grid(
    g: Seq<Seq<Cell>>,
    ox: int,
    oy: int,
    dx: int,
    dy: int,
    block_size: int,
    max_steps: nat,
    n: nat,
)
    requires
        n <= max_steps,
        forall|m: int| 0 <= m < n ==> sample_open(g, ox, oy, dx, dy, block_size, m),
        !in_bounds(g, ray_x(ox, dx, n as int), ray_y(oy, dy, n as int), block_size),
    ensures
        ray_march(g, ox, oy, dx, dy, block_size, max_steps) == (n, Impact::Outside),
{
    lemma_march_advance(g, ox, oy, dx, dy, block_size, 0, max_steps, n);
}

/// Casting the same ray twice over an unmodified grid yields the same
/// result: the outcome is a function of the arguments alone, so any two
/// results that meet `cast_ray`'s contract for the same arguments are
/// equal.
pub proof fn lemma_cast_ray_deterministic(
    r1: Intersect,
    r2: Intersect,
    g: Seq<Seq<Cell>>,
    ox: int,
    oy: int,
    dx: int,
    dy: int,
    block_size: int,
    max_steps: nat,
)
    requires
        matches_march(r1, g, ox, oy, dx, dy, block_size, max_steps),
        matches_march(r2, g, ox, oy, dx, dy, block_size, max_steps),
    ensures
        r1 == r2,
{
}

/// The collision test's three cases, spelled out: a position outside
/// the grid never collides, a position on open floor inside the grid
/// does not collide, and a position inside a wall cell does.
pub proof fn lemma_collision_cases(g: Seq<Seq<Cell>>, x: int, y: int, block_size: int)
    ensures
        !in_bounds(g, x, y, block_size) ==> !wall_at(g, x, y, block_size),
        in_bounds(g, x, y, block_size) && cell_at(g, x, y, block_size) == Cell::Empty
            ==> !wall_at(g, x, y, block_size),
        in_bounds(g, x, y, block_size) && cell_at(g, x, y, block_size) != Cell::Empty
            ==> wall_at(g, x, y, block_size),
{
}

/// The marcher and the collision test share one grid semantics: a ray
/// sample is walked past exactly when the collision test clears the
/// sample point.
pub proof fn lemma_march_agrees_with_collision(
    g: Seq<Seq<Cell>>,
    ox: int,
    oy: int,
    dx: int,
    dy: int,
    block_size: int,
    n: int,
)
    ensures
        sample_open(g, ox, oy, dx, dy, block_size, n) <==> (in_bounds(
            g,
            ray_x(ox, dx, n),
            ray_y(oy, dy, n),
            block_size,
        ) && !wall_at(g, ray_x(ox, dx, n), ray_y(oy, dy, n), block_size)),
{
}

/// Whether the candidate position falls inside a wall cell, by the same
/// indexing rule the ray marcher uses. Positions outside the grid never
/// collide: the boundary is permissive, not blocking.
pub fn check_collision(maze: &Vec<Vec<Cell>>, player_pos: &Vec2, block_size: u64) -> (r: bool)
    requires
        1 <= block_size <= BLOCK_MAX,
    ensures
        r == wall_at(
            grid_view(maze),
            player_pos.x as int,
            player_pos.y as int,
            block_size as int,
        ),
{
    match cell_lookup(maze, player_pos.x, player_pos.y, block_size) {
        None => false,
        Some(c) => match c {
            Cell::Empty => false,
            Cell::Wall(_) => true,
        },
    }
}

/// Marches a ray from the player's position along the unit direction
/// `(dir_x, dir_y)` (in subunits) until it leaves the grid, strikes a
/// wall, or runs out of its step budget, and reports the impact with
/// the distance marched. When `draw_line` is set, each traversed open
/// sample's on-screen pixel is painted in the trace color as a
/// diagnostic trace, and nothing else is painted in any other color;
/// the outcome never depends on the framebuffer, and without
/// `draw_line` the framebuffer is untouched.
pub fn cast_ray(
    framebuffer: &mut Framebuffer,
    maze: &Vec<Vec<Cell>>,
    player: &Player,
    dir_x: i64,
    dir_y: i64,
    block_size: u64,
    draw_line: bool,
    max_steps: u32,
) -> (r: Intersect)
    requires
        old(framebuffer).wf(),
        player.wf(),
        -FP_SCALE <= dir_x <= FP_SCALE,
        -FP_SCALE <= dir_y <= FP_SCALE,
        1 <= block_size <= BLOCK_MAX,
        max_steps <= MAX_STEPS_CAP,
    ensures
        matches_march(
            r,
            grid_view(maze),
            player.pos.x as int,
            player.pos.y as int,
            dir_x as int,
            dir_y as int,
            block_size as int,
            max_steps as nat,
        ),
        final(framebuffer).wf(),
        old(framebuffer).same_frame(final(framebuffer)),
        final(framebuffer).buffer@.len() == old(framebuffer).buffer@.len(),
        !draw_line ==> final(framebuffer).buffer == old(framebuffer).buffer,
        forall|p: int|
            0 <= p < final(framebuffer).buffer@.len() ==> final(framebuffer).buffer@[p] == old(
                framebuffer,
            ).buffer@[p] || final(framebuffer).buffer@[p] == RAY_COLOR,
        draw_line ==> forall|m: int|
            0 <= m < ray_march(
                grid_view(maze),
                player.pos.x as int,
                player.pos.y as int,
                dir_x as int,
                dir_y as int,
                block_size as int,
                max_steps as nat,
            ).0 ==> sample_traced(
                final(framebuffer),
                player.pos.x as int,
                player.pos.y as int,
                dir_x as int,
                dir_y as int,
                m,
            ),
{
    let ghost g = grid_view(maze);
    let ghost ox = player.pos.x as int;
    let ghost oy = player.pos.y as int;
    let mut n: u32 = 0;
    while n <= max_steps
        invariant
            n <= max_steps + 1,
            player.wf(),
            -FP_SCALE <= dir_x <= FP_SCALE,
            -FP_SCALE <= dir_y <= FP_SCALE,
            1 <= block_size <= BLOCK_MAX,
            max_steps <= MAX_STEPS_CAP,
            g == grid_view(maze),
            ox == player.pos.x as int,
            oy == player.pos.y as int,
            forall|m: int| 0 <= m < n ==> sample_open(g, ox, oy, dir_x as int, dir_y as int, block_size as int, m),
            framebuffer.wf(),
            old(framebuffer).same_frame(framebuffer),
            framebuffer.buffer@.len() == old(framebuffer).buffer@.len(),
            !draw_line ==> framebuffer.buffer == old(framebuffer).buffer,
            forall|p: int|
                0 <= p < framebuffer.buffer@.len() ==> framebuffer.buffer@[p] == old(
                    framebuffer,
                ).buffer@[p] || framebuffer.buffer@[p] == RAY_COLOR,
            draw_line ==> forall|m: int|
                0 <= m < n ==> sample_traced(
                    framebuffer,
                    ox,
                    oy,
                    dir_x as int,
                    dir_y as int,
                    m,
                ),
        decreases max_steps + 1 - n,
    {
        let t: i64 = 5 * (n as i64);
        proof {
            assert(-0x50_0000_0000i64 <= t * dir_x <= 0x50_0000_0000i64) by (nonlinear_arith)
                requires
                    0 <= t <= 0x50_0000,
                    -FP_SCALE <= dir_x <= FP_SCALE,
            ;
            assert(-0x50_0000_0000i64 <= t * dir_y <= 0x50_0000_0000i64) by (nonlinear_arith)
                requires
                    0 <= t <= 0x50_0000,
                    -FP_SCALE <= dir_y <= FP_SCALE,
            ;
        }
        let x: i64 = player.pos.x + t * dir_x;
        let y: i64 = player.pos.y + t * dir_y;
        proof {
            assert(x as int == ray_x(ox, dir_x as int, n as int));
            assert(y as int == ray_y(oy, dir_y as int, n as int));
        }
        match cell_lookup(maze, x, y, block_size) {
            None => {
                proof {
                    lemma_ray_exits_grid(
                        g,
                        ox,
                        oy,
                        dir_x as int,
                        dir_y as int,
                        block_size as int,
                        max_steps as nat,
                        n as nat,
                    );
                }
                return Intersect { distance: (n as u64) * 327680, impact: Impact::Outside };
            },
            Some(c) => match c {
                Cell::Wall(k) => {
                    proof {
                        lemma_ray_hits_wall(
                            g,
                            ox,
                            oy,
                            dir_x as int,
                            dir_y as int,
                            block_size as int,
                            max_steps as nat,
                            n as nat,
                            k,
                        );
                    }
                    return Intersect { distance: (n as u64) * 327680, impact: Impact::Wall(k) };
                },
                Cell::Empty => {
                    if draw_line {
                        let qx: u64 = (x as u64) / 65536;
                        let qy: u64 = (y as u64) / 65536;
                        proof {
                            assert(qx as int == sample_px(ox, dir_x as int, n as int));
                            assert(qy as int == sample_py(oy, dir_y as int, n as int));
                        }
                        if qx < framebuffer.width as u64 && qy < framebuffer.height as u64 {
                            let ghost fb_prev = *framebuffer;
                            framebuffer.point(qx as usize, qy as usize, RAY_COLOR);
                            proof {
                                let w = fb_prev.width as int;
                                let hgt = fb_prev.height as int;
                                let idx = fb_prev.pix(qx as int, qy as int);
                                assert((qy as int) * w + (qx as int) < w * hgt)
                                    by (nonlinear_arith)
                                    requires
                                        0 <= (qx as int) < w,
                                        0 <= (qy as int) < hgt,
                                ;
                                assert(framebuffer.buffer@ == fb_prev.buffer@.update(
                                    idx,
                                    RAY_COLOR,
                                ));
                                assert forall|p: int|
                                    0 <= p < framebuffer.buffer@.len() implies
                                    framebuffer.buffer@[p] == fb_prev.buffer@[p]
                                        || framebuffer.buffer@[p] == RAY_COLOR by {
                                    if p != idx {
                                        assert(framebuffer.buffer@[p] == fb_prev.buffer@[p]);
                                    }
                                }
                                assert forall|m: int|
                                    0 <= m < n + 1 implies sample_traced(
                                    framebuffer,
                                    ox,
                                    oy,
                                    dir_x as int,
                                    dir_y as int,
                                    m,
                                ) by {
                                    let spx = sample_px(ox, dir_x as int, m);
                                    let spy = sample_py(oy, dir_y as int, m);
                                    if 0 <= spx < fb_prev.width && 0 <= spy < fb_prev.height {
                                        let pidx = fb_prev.pix(spx, spy);
                                        assert(framebuffer.pix(spx, spy) == pidx);
                                        assert(spy * w + spx < w * hgt) by (nonlinear_arith)
                                            requires
                                                0 <= spx < w,
                                                0 <= spy < hgt,
                                        ;
                                        if m == n {
                                            assert(pidx == idx);
                                            assert(framebuffer.buffer@[idx] == RAY_COLOR);
                                        } else {
                                            assert(sample_traced(
                                                &fb_prev,
                                                ox,
                                                oy,
                                                dir_x as int,
                                                dir_y as int,
                                                m,
                                            ));
                                            assert(fb_prev.buffer@[pidx] == RAY_COLOR);
                                            if pidx != idx {
                                                assert(framebuffer.buffer@[pidx]
                                                    == fb_prev.buffer@[pidx]);
                                            }
                                        }
                                    }
                                }
                            }
                        } else {
                            proof {
                                assert forall|m: int|
                                    0 <= m < n + 1 implies sample_traced(
                                    framebuffer,
                                    ox,
                                    oy,
                                    dir_x as int,
                                    dir_y as int,
                                    m,
                                ) by {
                                    if m == n {
                                        assert(sample_px(ox, dir_x as int, m) >= framebuffer.width
                                            || sample_py(oy, dir_y as int, m)
                                            >= framebuffer.height);
                                    }
                                }
                            }
                        }
                    }
                    proof {
                        assert(sample_open(
                            g,
                            ox,
                            oy,
                            dir_x as int,
                            dir_y as int,
                            block_size as int,
                            n as int,
                        ));
                    }
                    n += 1;
                },
            },
        }
    }
    proof {
        lemma_march_advance(
            g,
            ox,
            oy,
            dir_x as int,
            dir_y as int,
            block_size as int,
            0,
            max_steps as nat,
            max_steps as nat,
        );
        assert(sample_open(g, ox, oy, dir_x as int, dir_y as int, block_size as int, max_steps as int));
    }
    Intersect { distance: (max_steps as u64 + 1) * 327680, impact: Impact::NoHit }
}

} // verus!
