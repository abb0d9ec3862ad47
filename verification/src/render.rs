//! The projection and render pass: per-column wall slices for the
//! first-person view, the texture model they sample, and the small
//! bitmap-drawing helpers for the frame counter and the minimap.

use vstd::prelude::*;
use vstd::arithmetic::div_mod::lemma_div_by_multiple;
use vstd::arithmetic::div_mod::lemma_div_is_ordered;
use vstd::arithmetic::div_mod::lemma_div_is_ordered_by_denominator;
use vstd::arithmetic::div_mod::lemma_div_pos_is_pos;
use vstd::arithmetic::div_mod::lemma_fundamental_div_mod;
use vstd::arithmetic::div_mod::lemma_fundamental_div_mod_converse_div;
use vstd::arithmetic::div_mod::lemma_mod_bound;
use vstd::arithmetic::div_mod::lemma_multiply_divide_lt;
use crate::caster::Impact;
use crate::caster::STEP_FP;
use crate::caster::MAX_STEPS_CAP;
use crate::caster::cast_ray;
use crate::caster::ray_march;
use crate::framebuffer::Framebuffer;
use crate::grid::BLOCK_MAX;
use crate::grid::Cell;
use crate::grid::FP_SCALE;
use crate::grid::grid_view;
use crate::player::Player;
use crate::player::Vec2;

verus! {

/// Calibration constant of the pinhole projection, in coordinate
/// units: how strongly wall height grows as distance shrinks.
pub const PROJECTION_PLANE_DISTANCE: i64 = 80;

/// Largest texture side length accepted; keeps the row-sampling
/// arithmetic in range.
pub const TEXTURE_SIDE_MAX: usize = 0x1_0000;

/// A decoded texture: a row-major grid of packed `0x00RRGGBB` colors.
pub struct Texture {
    pub width: usize,
    pub height: usize,
    pub pixels: Vec<u32>,
}

impl Texture {
    /// One color per texel, nothing degenerate, sides small enough to
    /// sample without overflow.
    pub open spec fn wf(&self) -> bool {
        &&& self.pixels@.len() == self.width * self.height
        &&& 1 <= self.width <= TEXTURE_SIDE_MAX
        &&& 1 <= self.height <= TEXTURE_SIDE_MAX
    }

    /// The texel at `(col, row)`.
    pub open spec fn texel(&self, col: int, row: int) -> u32 {
        self.pixels@[row * self.width + col]
    }

    /// Builds a texture from decoded pixel data: accepted exactly when
    /// the data is one color per texel of a usable size.
    pub fn from_pixels(width: usize, height: usize, pixels: Vec<u32>) -> (r: Option<Texture>)
        ensures
            r is Some <==> {
                &&& pixels@.len() == width * height
                &&& 1 <= width <= TEXTURE_SIDE_MAX
                &&& 1 <= height <= TEXTURE_SIDE_MAX
            },
            r matches Some(t) ==> t == (Texture { width, height, pixels }),
    {
        if width < 1 || width > TEXTURE_SIDE_MAX || height < 1 || height > TEXTURE_SIDE_MAX {
            return None;
        }
        proof {
            assert((width as int) * (height as int) <= 0x1_0000_0000) by (nonlinear_arith)
                requires
                    1 <= width <= 0x1_0000,
                    1 <= height <= 0x1_0000,
            ;
        }
        let area: u64 = (width as u64) * (height as u64);
        if pixels.len() as u64 != area {
            return None;
        }
        Some(Texture { width, height, pixels })
    }

    /// Reads the texel at `(col, row)`.
    pub fn pixel(&self, col: usize, row: usize) -> (c: u32)
        requires
            self.wf(),
            col < self.width,
            row < self.height,
        ensures
            c == self.texel(col as int, row as int),
    {
        proof {
            assert((row as int) * (self.width as int) + (col as int) < (self.width as int) * (
            self.height as int)) by (nonlinear_arith)
                requires
                    (col as int) < (self.width as int),
                    (row as int) < (self.height as int),
            ;
        }
        let len = self.pixels.len();
        self.pixels[row * self.width + col]
    }
}

/// Packs 8-bit channels into a `0x00RRGGBB` color, as the presentation
/// surface expects them.
pub fn pack_color(red: u8, green: u8, blue: u8) -> (c: u32)
    ensures
        c == ((red as u32) << 16u32) | ((green as u32) << 8u32) | (blue as u32),
{
    ((red as u32) << 16u32) | ((green as u32) << 8u32) | (blue as u32)
}

/// The wall textures, one per wall kind.
pub struct Textures {
    pub wall1: Texture,
    pub wall2: Texture,
    pub wall3: Texture,
}

impl Textures {
    pub open spec fn wf(&self) -> bool {
        self.wall1.wf() && self.wall2.wf() && self.wall3.wf()
    }
}

/// The fixed impact-to-texture mapping: corners, verticals and
/// horizontals each get their own wall texture, and anything else —
/// which a bounded maze should never produce — falls back to the first.
pub open spec fn texture_for_spec(textures: &Textures, impact: Impact) -> &Texture {
    match impact {
        Impact::Wall(crate::grid::WallKind::Corner) => &textures.wall1,
        Impact::Wall(crate::grid::WallKind::Vertical) => &textures.wall2,
        Impact::Wall(crate::grid::WallKind::Horizontal) => &textures.wall3,
        _ => &textures.wall1,
    }
}

/// Selects the texture for what a ray struck.
pub fn texture_for(textures: &Textures, impact: Impact) -> (t: &Texture)
    ensures
        t == texture_for_spec(textures, impact),
{
    match impact {
        Impact::Wall(crate::grid::WallKind::Corner) => &textures.wall1,
        Impact::Wall(crate::grid::WallKind::Vertical) => &textures.wall2,
        Impact::Wall(crate::grid::WallKind::Horizontal) => &textures.wall3,
        _ => &textures.wall1,
    }
}

/// The pinhole projection: the screen height (in pixels) of a wall
/// slice seen at the given distance (in subunits), for a screen of
/// half-height `hh` pixels. Height is inversely proportional to
/// distance; no per-ray fisheye correction is applied.
pub open spec fn stake_height(hh: int, distance: int) -> int {
    (hh * PROJECTION_PLANE_DISTANCE * FP_SCALE) / distance
}

/// A distance clamped away from zero: a ray that starts inside a wall
/// reports distance zero, and the projection clamps it to one subunit
/// rather than divide by zero.
pub open spec fn clamped(distance: int) -> int {
    if distance < 1 {
        1
    } else {
        distance
    }
}

/// Computes the projected wall-slice height for one ray, clamping the
/// distance to a subunit floor first.
pub fn stake_height_px(hh: u64, distance: u64) -> (h: u64)
    requires
        hh <= 0x1_0000_0000,
    ensures
        h == stake_height(hh as int, clamped(distance as int)),
{
    let d: u64 = if distance == 0 {
        1
    } else {
        distance
    };
    (hh * 80 * 65536) / d
}

/// Projection is antitone in distance: a wall seen from farther away is
/// never drawn taller.
pub proof fn lemma_farther_wall_not_taller(hh: int, d1: int, d2: int)
    requires
        0 <= hh,
        1 <= d1 <= d2,
    ensures
        stake_height(hh, d1) >= stake_height(hh, d2),
{
    lemma_div_is_ordered_by_denominator(hh * PROJECTION_PLANE_DISTANCE * FP_SCALE, d1, d2);
}

/// Projection sanity: of two rays, the one that struck its wall nearer
/// yields the strictly taller slice, whenever the exact projected
/// heights differ by at least one pixel — the premise
/// `hh * 80 * 65536 * (d2 - d1) >= d1 * d2` says exactly that. (With
/// integer heights the premise cannot be dropped: both distances can
/// round to the same pixel count.)
pub proof fn lemma_nearer_wall_taller(hh: int, d1: int, d2: int)
    requires
        0 <= hh,
        1 <= d1 < d2,
        hh * PROJECTION_PLANE_DISTANCE * FP_SCALE * (d2 - d1) >= d1 * d2,
    ensures
        stake_height(hh, d1) > stake_height(hh, d2),
{
    let k = hh * PROJECTION_PLANE_DISTANCE * FP_SCALE;
    let q2 = k / d2;
    assert(0 <= k) by (nonlinear_arith)
        requires
            0 <= hh,
            PROJECTION_PLANE_DISTANCE == 80,
            FP_SCALE == 65536,
            k == hh * PROJECTION_PLANE_DISTANCE * FP_SCALE,
    ;
    lemma_fundamental_div_mod(k, d2);
    lemma_mod_bound(k, d2);
    assert(q2 * d2 <= k) by (nonlinear_arith)
        requires
            k == d2 * q2 + k % d2,
            0 <= k % d2,
    ;
    assert((q2 + 1) * d1 <= k) by (nonlinear_arith)
        requires
            q2 * d2 <= k,
            k * (d2 - d1) >= d1 * d2,
            1 <= d1 < d2,
            0 <= k,
    ;
    lemma_div_pos_is_pos(k, d2);
    lemma_div_by_multiple(q2 + 1, d1);
    lemma_div_is_ordered((q2 + 1) * d1, k, d1);
}

/// Half the projected slice height for a raw ray distance.
pub open spec fn slice_h2(hh: int, distance: int) -> int {
    stake_height(hh, clamped(distance)) / 2
}

/// Top screen row of the slice (inclusive).
pub open spec fn slice_top(hh: int, distance: int) -> int {
    hh - slice_h2(hh, distance)
}

/// Bottom screen row of the slice (exclusive).
pub open spec fn slice_bottom(hh: int, distance: int) -> int {
    hh + slice_h2(hh, distance)
}

/// Whether the slice fits the screen. A slice that would overrun the
/// screen is skipped whole rather than clamped, to keep its vertical
/// centering undistorted.
pub open spec fn slice_drawn(hh: int, height: int, distance: int) -> bool {
    &&& slice_h2(hh, distance) <= hh
    &&& slice_top(hh, distance) < height
    &&& slice_bottom(hh, distance) <= height
}

/// The color a slice pixel samples: the texture column is keyed by the
/// screen column (tiling across the screen), the row by mapping the
/// pixel's place in the slice linearly onto the texture's height.
pub open spec fn slice_color(t: &Texture, x: int, y: int, top: int, bottom: int) -> u32 {
    let tex_x = x % (t.width as int);
    let tex_y = ((y - top) * t.height) / (bottom - top);
    t.texel(tex_x, tex_y)
}

/// What one rendered column leaves at screen position `(x, y)` whose
/// previous color was `old_color`: the sampled slice color on the
/// column's drawn range, the previous color everywhere else.
pub open spec fn column_pixel(
    textures: &Textures,
    height: int,
    x_col: int,
    distance: int,
    impact: Impact,
    x: int,
    y: int,
    old_color: u32,
) -> u32 {
    let hh = height / 2;
    if x == x_col && slice_drawn(hh, height, distance) && slice_top(hh, distance) <= y
        < slice_bottom(hh, distance) {
        slice_color(
            texture_for_spec(textures, impact),
            x,
            y,
            slice_top(hh, distance),
            slice_bottom(hh, distance),
        )
    } else {
        old_color
    }
}

/// A screen position indexes inside the pixel buffer.
proof fn lemma_pix_in_range(w: int, h: int, len: int, x: int, y: int)
    by (nonlinear_arith)
    requires
        0 <= x < w,
        0 <= y < h,
        len == w * h,
    ensures
        0 <= y * w + x < len,
{
}

/// Coordinates with distinct screen positions occupy distinct buffer
/// cells: the row-major index is injective on the screen.
proof fn lemma_pix_injective(w: int, x1: int, y1: int, x2: int, y2: int)
    by (nonlinear_arith)
    requires
        0 <= x1 < w,
        0 <= x2 < w,
        y1 * w + x1 == y2 * w + x2,
    ensures
        x1 == x2,
        y1 == y2,
{
}

/// Draws the wall slice of screen column `i` for a ray that came back
/// with the given distance (in subunits) and impact: the slice's pixels
/// take the sampled texture colors, every other pixel keeps its color,
/// and a slice that would overrun the screen is skipped whole.
pub fn render_column(
    framebuffer: &mut Framebuffer,
    textures: &Textures,
    i: usize,
    distance: u64,
    impact: Impact,
)
    requires
        old(framebuffer).wf(),
        textures.wf(),
        i < old(framebuffer).width,
        old(framebuffer).height <= 0x1_0000_0000,
    ensures
        final(framebuffer).wf(),
        old(framebuffer).same_frame(final(framebuffer)),
        final(framebuffer).buffer@.len() == old(framebuffer).buffer@.len(),
        forall|x: int, y: int|
            0 <= x < old(framebuffer).width && 0 <= y < old(framebuffer).height
                ==> final(framebuffer).buffer@[old(framebuffer).pix(x, y)] == column_pixel(
                textures,
                old(framebuffer).height as int,
                i as int,
                distance as int,
                impact,
                x,
                y,
                old(framebuffer).buffer@[old(framebuffer).pix(x, y)],
            ),
{
    let height: usize = framebuffer.height;
    let hh: u64 = (height / 2) as u64;
    let h: u64 = stake_height_px(hh, distance);
    let h2: u64 = h / 2;
    proof {
        assert(h2 as int == slice_h2(hh as int, distance as int));
    }
    if h2 > hh {
        proof {
            assert(!slice_drawn(hh as int, height as int, distance as int));
        }
        return ;
    }
    let top: u64 = hh - h2;
    let bottom: u64 = hh + h2;
    if !(top < height as u64 && bottom <= height as u64) {
        proof {
            assert(!slice_drawn(hh as int, height as int, distance as int));
        }
        return ;
    }
    let texture: &Texture = texture_for(textures, impact);
    proof {
        lemma_mod_bound(i as int, texture.width as int);
    }
    let tex_x: usize = i % texture.width;
    let mut y: u64 = top;
    while y < bottom
        invariant
            top <= y <= bottom,
            framebuffer.wf(),
            old(framebuffer).same_frame(framebuffer),
            framebuffer.buffer@.len() == old(framebuffer).buffer@.len(),
            textures.wf(),
            texture == texture_for_spec(textures, impact),
            tex_x == i as int % (texture.width as int),
            i < framebuffer.width,
            height == framebuffer.height,
            height <= 0x1_0000_0000,
            hh == height as int / 2,
            h == stake_height(hh as int, clamped(distance as int)),
            h2 == slice_h2(hh as int, distance as int),
            h2 <= hh,
            top == slice_top(hh as int, distance as int),
            bottom == slice_bottom(hh as int, distance as int),
            top < height,
            bottom <= height,
            forall|px: int, py: int|
                0 <= px < old(framebuffer).width && 0 <= py < old(framebuffer).height
                    ==> framebuffer.buffer@[old(framebuffer).pix(px, py)] == (if px == i && top
                    <= py < y {
                    slice_color(texture, px, py, top as int, bottom as int)
                } else {
                    old(framebuffer).buffer@[old(framebuffer).pix(px, py)]
                }),
        decreases bottom - y,
    {
        let offset: u64 = y - top;
        let span: u64 = bottom - top;
        proof {
            assert((offset as int) * (texture.height as int) <= 0x1_0000_0000_0000i64)
                by (nonlinear_arith)
                requires
                    0 <= offset <= 0x1_0000_0000,
                    0 <= texture.height <= 0x1_0000,
            ;
            assert((offset as int) * (texture.height as int) < (span as int) * (
            texture.height as int)) by (nonlinear_arith)
                requires
                    0 <= offset < span,
                    1 <= texture.height,
            ;
        }
        let num: u64 = offset * (texture.height as u64);
        proof {
            lemma_multiply_divide_lt(num as int, span as int, texture.height as int);
        }
        let tex_y: usize = (num / span) as usize;
        let color: u32 = texture.pixel(tex_x, tex_y);
        let ghost fb_prev = *framebuffer;
        framebuffer.point(i, y as usize, color);
        proof {
            let w = old(framebuffer).width as int;
            let hgt = old(framebuffer).height as int;
            assert(fb_prev.width == old(framebuffer).width);
            let idx = old(framebuffer).pix(i as int, y as int);
            assert(fb_prev.pix(i as int, y as int) == idx);
            lemma_pix_in_range(w, hgt, fb_prev.buffer@.len() as int, i as int, y as int);
            assert(framebuffer.buffer@ == fb_prev.buffer@.update(idx, color));
            assert forall|px: int, py: int|
                0 <= px < old(framebuffer).width && 0 <= py < old(framebuffer).height
                    implies framebuffer.buffer@[old(framebuffer).pix(px, py)] == (if px == i && top
                    <= py < y + 1 {
                    slice_color(texture, px, py, top as int, bottom as int)
                } else {
                    old(framebuffer).buffer@[old(framebuffer).pix(px, py)]
                }) by {
                lemma_pix_in_range(w, hgt, fb_prev.buffer@.len() as int, px, py);
                let pidx = old(framebuffer).pix(px, py);
                assert(fb_prev.pix(px, py) == pidx);
                if px == i && py == y {
                    assert(framebuffer.buffer@[idx] == color);
                } else {
                    if pidx == idx {
                        lemma_pix_injective(w, px, py, i as int, y as int);
                    }
                    assert(pidx != idx);
                    assert(framebuffer.buffer@[pidx] == fb_prev.buffer@[pidx]);
                    assert(fb_prev.buffer@[pidx] == (if px == i && top <= py < y {
                        slice_color(texture, px, py, top as int, bottom as int)
                    } else {
                        old(framebuffer).buffer@[pidx]
                    }));
                }
            }
        }
        y = y + 1;
    }
    proof {
        assert(slice_drawn(hh as int, height as int, distance as int));
    }
}

/// One frame of the first-person view: for each screen column, a ray is
/// cast along that column's direction and the struck wall is drawn as a
/// textured vertical slice whose height falls off with the reported
/// distance. Columns whose slice would overrun the screen are skipped;
/// every pixel off the drawn slices keeps its color.
pub fn render3d(
    framebuffer: &mut Framebuffer,
    maze: &Vec<Vec<Cell>>,
    player: &Player,
    textures: &Textures,
    directions: &Vec<Vec2>,
    block_size: u64,
    max_steps: u32,
)
    requires
        old(framebuffer).wf(),
        old(framebuffer).height <= 0x1_0000_0000,
        player.wf(),
        textures.wf(),
        directions@.len() == old(framebuffer).width,
        forall|k: int|
            0 <= k < directions@.len() ==> -FP_SCALE <= (#[trigger] directions@[k]).x <= FP_SCALE
                && -FP_SCALE <= directions@[k].y <= FP_SCALE,
        1 <= block_size <= BLOCK_MAX,
        max_steps <= MAX_STEPS_CAP,
    ensures
        final(framebuffer).wf(),
        old(framebuffer).same_frame(final(framebuffer)),
        final(framebuffer).buffer@.len() == old(framebuffer).buffer@.len(),
        forall|x: int, y: int|
            0 <= x < old(framebuffer).width && 0 <= y < old(framebuffer).height
                ==> final(framebuffer).buffer@[old(framebuffer).pix(x, y)] == ({
                let nm = ray_march(
                    grid_view(maze),
                    player.pos.x as int,
                    player.pos.y as int,
                    directions@[x].x as int,
                    directions@[x].y as int,
                    block_size as int,
                    max_steps as nat,
                );
                column_pixel(
                    textures,
                    old(framebuffer).height as int,
                    x,
                    nm.0 * STEP_FP,
                    nm.1,
                    x,
                    y,
                    old(framebuffer).buffer@[old(framebuffer).pix(x, y)],
                )
            }),
{
    let ghost g = grid_view(maze);
    let num_rays: usize = framebuffer.width;
    let mut i: usize = 0;
    while i < num_rays
        invariant
            i <= num_rays,
            framebuffer.wf(),
            old(framebuffer).same_frame(framebuffer),
            framebuffer.buffer@.len() == old(framebuffer).buffer@.len(),
            num_rays == framebuffer.width,
            framebuffer.height <= 0x1_0000_0000,
            player.wf(),
            textures.wf(),
            g == grid_view(maze),
            directions@.len() == num_rays,
            forall|k: int|
                0 <= k < directions@.len() ==> -FP_SCALE <= (#[trigger] directions@[k]).x
                    <= FP_SCALE && -FP_SCALE <= directions@[k].y <= FP_SCALE,
            1 <= block_size <= BLOCK_MAX,
            max_steps <= MAX_STEPS_CAP,
            forall|x: int, y: int|
                0 <= x < old(framebuffer).width && 0 <= y < old(framebuffer).height
                    ==> framebuffer.buffer@[old(framebuffer).pix(x, y)] == (if x < i {
                    let nm = ray_march(
                        g,
                        player.pos.x as int,
                        player.pos.y as int,
                        directions@[x].x as int,
                        directions@[x].y as int,
                        block_size as int,
                        max_steps as nat,
                    );
                    column_pixel(
                        textures,
                        old(framebuffer).height as int,
                        x,
                        nm.0 * STEP_FP,
                        nm.1,
                        x,
                        y,
                        old(framebuffer).buffer@[old(framebuffer).pix(x, y)],
                    )
                } else {
                    old(framebuffer).buffer@[old(framebuffer).pix(x, y)]
                }),
        decreases num_rays - i,
    {
        let dir: Vec2 = directions[i];
        let ghost before = framebuffer.buffer@;
        let intersect = cast_ray(
            framebuffer,
            maze,
            player,
            dir.x,
            dir.y,
            block_size,
            false,
            max_steps,
        );
        let ghost fb_mid = *framebuffer;
        render_column(framebuffer, textures, i, intersect.distance, intersect.impact);
        proof {
            assert(fb_mid.buffer@ == before);
            let nm = ray_march(
                g,
                player.pos.x as int,
                player.pos.y as int,
                dir.x as int,
                dir.y as int,
                block_size as int,
                max_steps as nat,
            );
            assert(intersect.impact == nm.1 && intersect.distance == nm.0 * STEP_FP);
            assert forall|x: int, y: int|
                0 <= x < old(framebuffer).width && 0 <= y < old(framebuffer).height
                    implies framebuffer.buffer@[old(framebuffer).pix(x, y)] == (if x < i + 1 {
                    let nmx = ray_march(
                        g,
                        player.pos.x as int,
                        player.pos.y as int,
                        directions@[x].x as int,
                        directions@[x].y as int,
                        block_size as int,
                        max_steps as nat,
                    );
                    column_pixel(
                        textures,
                        old(framebuffer).height as int,
                        x,
                        nmx.0 * STEP_FP,
                        nmx.1,
                        x,
                        y,
                        old(framebuffer).buffer@[old(framebuffer).pix(x, y)],
                    )
                } else {
                    old(framebuffer).buffer@[old(framebuffer).pix(x, y)]
                }) by {
                assert(fb_mid.width == old(framebuffer).width);
                assert(fb_mid.pix(x, y) == old(framebuffer).pix(x, y));
                assert(framebuffer.buffer@[fb_mid.pix(x, y)] == column_pixel(
                    textures,
                    fb_mid.height as int,
                    i as int,
                    intersect.distance as int,
                    intersect.impact,
                    x,
                    y,
                    fb_mid.buffer@[fb_mid.pix(x, y)],
                ));
            }
        }
        i += 1;
    }
}

/// The minimap color of a cell: red corners, green verticals, blue
/// horizontals; open floor is not drawn.
pub open spec fn cell_color(cell: Cell) -> u32 {
    match cell {
        Cell::Wall(crate::grid::WallKind::Corner) => 0xFF0000,
        Cell::Wall(crate::grid::WallKind::Vertical) => 0x00FF00,
        Cell::Wall(crate::grid::WallKind::Horizontal) => 0x0000FF,
        Cell::Empty => 0,
    }
}

/// Draws one minimap cell: a wall cell fills its `block_size`-sided
/// square (clipped to the screen) with its color, open floor draws
/// nothing. Pixels outside the square keep their colors.
pub fn draw_cell(
    framebuffer: &mut Framebuffer,
    xo: usize,
    yo: usize,
    block_size: usize,
    cell: Cell,
)
    requires
        old(framebuffer).wf(),
    ensures
        final(framebuffer).wf(),
        old(framebuffer).same_frame(final(framebuffer)),
        final(framebuffer).buffer@.len() == old(framebuffer).buffer@.len(),
        cell == Cell::Empty ==> final(framebuffer).buffer == old(framebuffer).buffer,
        forall|px: int, py: int|
            0 <= px < old(framebuffer).width && 0 <= py < old(framebuffer).height
                ==> final(framebuffer).buffer@[old(framebuffer).pix(px, py)] == (if cell
                != Cell::Empty && xo <= px < xo + block_size && yo <= py < yo + block_size {
                cell_color(cell)
            } else {
                old(framebuffer).buffer@[old(framebuffer).pix(px, py)]
            }),
        forall|p: int|
            0 <= p < final(framebuffer).buffer@.len() ==> final(framebuffer).buffer@[p] == old(
                framebuffer,
            ).buffer@[p] || final(framebuffer).buffer@[p] == cell_color(cell),
{
    let color: u32 = match cell {
        Cell::Wall(crate::grid::WallKind::Corner) => 0xFF0000,
        Cell::Wall(crate::grid::WallKind::Vertical) => 0x00FF00,
        Cell::Wall(crate::grid::WallKind::Horizontal) => 0x0000FF,
        Cell::Empty => {
            return ;
        },
    };
    let width: usize = framebuffer.width;
    let height: usize = framebuffer.height;
    let x_end: usize = if xo < width && block_size < width - xo {
        xo + block_size
    } else {
        width
    };
    let y_end: usize = if yo < height && block_size < height - yo {
        yo + block_size
    } else {
        height
    };
    let mut x: usize = xo;
    while x < x_end
        invariant
            framebuffer.wf(),
            old(framebuffer).same_frame(framebuffer),
            framebuffer.buffer@.len() == old(framebuffer).buffer@.len(),
            width == old(framebuffer).width,
            height == old(framebuffer).height,
            x_end as int == (if xo < width && xo + block_size < width {
                xo + block_size
            } else {
                width as int
            }),
            y_end as int == (if yo < height && yo + block_size < height {
                yo + block_size
            } else {
                height as int
            }),
            xo <= x,
            x <= x_end || x == xo,
            cell != Cell::Empty,
            color == cell_color(cell),
            forall|px: int, py: int|
                0 <= px < old(framebuffer).width && 0 <= py < old(framebuffer).height
                    ==> framebuffer.buffer@[old(framebuffer).pix(px, py)] == (if xo <= px < x && yo
                    <= py < yo + block_size {
                    color
                } else {
                    old(framebuffer).buffer@[old(framebuffer).pix(px, py)]
                }),
        decreases x_end - x,
    {
        let mut y: usize = yo;
        while y < y_end
            invariant
                framebuffer.wf(),
                old(framebuffer).same_frame(framebuffer),
                framebuffer.buffer@.len() == old(framebuffer).buffer@.len(),
                width == old(framebuffer).width,
                height == old(framebuffer).height,
                y_end as int == (if yo < height && yo + block_size < height {
                    yo + block_size
                } else {
                    height as int
                }),
                xo <= x < x_end,
                x_end <= width,
                yo <= y,
                y <= y_end || y == yo,
                color == cell_color(cell),
                forall|px: int, py: int|
                    0 <= px < old(framebuffer).width && 0 <= py < old(framebuffer).height
                        ==> framebuffer.buffer@[old(framebuffer).pix(px, py)] == (if (xo <= px < x
                        && yo <= py < yo + block_size) || (px == x && yo <= py < y) {
                        color
                    } else {
                        old(framebuffer).buffer@[old(framebuffer).pix(px, py)]
                    }),
            decreases y_end - y,
        {
            let ghost fb_prev = *framebuffer;
            framebuffer.point(x, y, color);
            proof {
                let w = old(framebuffer).width as int;
                let hgt = old(framebuffer).height as int;
                assert(fb_prev.width == old(framebuffer).width);
                assert forall|px: int, py: int|
                    0 <= px < old(framebuffer).width && 0 <= py < old(framebuffer).height
                        implies framebuffer.buffer@[old(framebuffer).pix(px, py)] == (if (xo <= px
                        < x && yo <= py < yo + block_size) || (px == x && yo <= py < y + 1) {
                        color
                    } else {
                        old(framebuffer).buffer@[old(framebuffer).pix(px, py)]
                    }) by {
                    let pidx = old(framebuffer).pix(px, py);
                    lemma_pix_in_range(w, hgt, fb_prev.buffer@.len() as int, px, py);
                    assert(fb_prev.pix(px, py) == pidx);
                    if x < fb_prev.width && y < fb_prev.height {
                        let idx = old(framebuffer).pix(x as int, y as int);
                        assert(fb_prev.pix(x as int, y as int) == idx);
                        lemma_pix_in_range(w, hgt, fb_prev.buffer@.len() as int, x as int, y as int);
                        assert(framebuffer.buffer@ == fb_prev.buffer@.update(idx, color));
                        if !(px == x && py == y) {
                            if pidx == idx {
                                lemma_pix_injective(w, px, py, x as int, y as int);
                            }
                            assert(framebuffer.buffer@[pidx] == fb_prev.buffer@[pidx]);
                        }
                    } else {
                        assert(framebuffer.buffer == fb_prev.buffer);
                        assert(!(px == x && py == y));
                    }
                }
            }
            y += 1;
        }
        x += 1;
    }
    proof {
        let w = old(framebuffer).width as int;
        let hgt = old(framebuffer).height as int;
        assert forall|p: int|
            0 <= p < framebuffer.buffer@.len() implies framebuffer.buffer@[p] == old(
            framebuffer,
        ).buffer@[p] || framebuffer.buffer@[p] == cell_color(cell) by {
            if w > 0 {
                let py = p / w;
                let px = p % w;
                lemma_mod_bound(p, w);
                lemma_div_pos_is_pos(p, w);
                lemma_multiply_divide_lt(p, w, hgt);
                lemma_fundamental_div_mod(p, w);
                vstd::arithmetic::mul::lemma_mul_is_commutative(w, py);
                assert(old(framebuffer).pix(px, py) == p);
                assert(framebuffer.buffer@[old(framebuffer).pix(px, py)] == framebuffer.buffer@[p]);
                assert(old(framebuffer).buffer@[old(framebuffer).pix(px, py)] == old(
                    framebuffer,
                ).buffer@[p]);
                assert(0 <= px < old(framebuffer).width);
                assert(0 <= py < old(framebuffer).height);
                assert(framebuffer.buffer@[old(framebuffer).pix(px, py)] == (if xo <= px < xo
                    + block_size && yo <= py < yo + block_size {
                    color
                } else {
                    old(framebuffer).buffer@[old(framebuffer).pix(px, py)]
                }));
            } else {
                assert(w * hgt == 0) by (nonlinear_arith)
                    requires
                        w <= 0,
                        hgt >= 0,
                        w >= 0,
                ;
            }
        }
    }
}

/// The 5x5 bitmap of a decimal digit, packed row-major into the low 25
/// bits, top row highest.
pub open spec fn glyph_of(digit: int) -> u32 {
    if digit == 0 {
        0b01110_10001_10001_10001_01110u32
    } else if digit == 1 {
        0b00100_01100_00100_00100_01110u32
    } else if digit == 2 {
        0b01110_10001_00110_01000_11111u32
    } else if digit == 3 {
        0b01110_10001_00110_10001_01110u32
    } else if digit == 4 {
        0b00100_01100_10100_11111_00100u32
    } else if digit == 5 {
        0b11111_10000_11110_00001_11110u32
    } else if digit == 6 {
        0b01110_10000_11110_10001_01110u32
    } else if digit == 7 {
        0b11111_00010_00100_01000_10000u32
    } else if digit == 8 {
        0b01110_10001_01110_10001_01110u32
    } else if digit == 9 {
        0b01110_10001_01111_00001_01110u32
    } else {
        0
    }
}

/// One row of a digit's bitmap: five bits, leftmost column highest.
pub open spec fn glyph_row_bits(digit: int, r: int) -> u8 {
    ((glyph_of(digit) >> ((5 * (4 - r)) as u32)) & 0x1F) as u8
}

/// Whether the bitmap of `digit` lights the pixel at `(c, r)` of its
/// 5x5 square.
pub open spec fn glyph_pixel(digit: int, r: int, c: int) -> bool {
    glyph_row_bits(digit, r) & (1u8 << ((4 - c) as u8)) != 0
}

/// One row of a digit's bitmap, as five bits with the leftmost column
/// highest.
pub fn glyph_row(digit: u8, row: usize) -> (bits: u8)
    requires
        digit <= 9,
        row < 5,
    ensures
        bits == glyph_row_bits(digit as int, row as int),
{
    let pattern: u32 = match digit {
        0 => 0b01110_10001_10001_10001_01110u32,
        1 => 0b00100_01100_00100_00100_01110u32,
        2 => 0b01110_10001_00110_01000_11111u32,
        3 => 0b01110_10001_00110_10001_01110u32,
        4 => 0b00100_01100_10100_11111_00100u32,
        5 => 0b11111_10000_11110_00001_11110u32,
        6 => 0b01110_10000_11110_10001_01110u32,
        7 => 0b11111_00010_00100_01000_10000u32,
        8 => 0b01110_10001_01110_10001_01110u32,
        _ => 0b01110_10001_01111_00001_01110u32,
    };
    let shift: u32 = 5 * (4 - row as u32);
    ((pattern >> shift) & 0x1F) as u8
}

/// Draws one decimal digit as a 5x5 bitmap with its top-left corner at
/// `(x, y)`, clipped to the screen. A value over 9 draws nothing;
/// otherwise exactly the lit pixels of the digit's bitmap take the
/// given color and every other pixel keeps its own.
pub fn draw_digit(framebuffer: &mut Framebuffer, x: usize, y: usize, digit: u8, color: u32)
    requires
        old(framebuffer).wf(),
    ensures
        final(framebuffer).wf(),
        old(framebuffer).same_frame(final(framebuffer)),
        final(framebuffer).buffer@.len() == old(framebuffer).buffer@.len(),
        digit > 9 ==> final(framebuffer).buffer == old(framebuffer).buffer,
        digit <= 9 ==> forall|px: int, py: int|
            0 <= px < old(framebuffer).width && 0 <= py < old(framebuffer).height
                ==> final(framebuffer).buffer@[old(framebuffer).pix(px, py)] == (if x <= px < x + 5
                && y <= py < y + 5 && glyph_pixel(digit as int, py - y, px - x) {
                color
            } else {
                old(framebuffer).buffer@[old(framebuffer).pix(px, py)]
            }),
        forall|p: int|
            0 <= p < final(framebuffer).buffer@.len() ==> final(framebuffer).buffer@[p] == old(
                framebuffer,
            ).buffer@[p] || final(framebuffer).buffer@[p] == color,
{
    if digit > 9 {
        return ;
    }
    let mut row: usize = 0;
    while row < 5
        invariant
            framebuffer.wf(),
            old(framebuffer).same_frame(framebuffer),
            framebuffer.buffer@.len() == old(framebuffer).buffer@.len(),
            digit <= 9,
            row <= 5,
            forall|px: int, py: int|
                0 <= px < old(framebuffer).width && 0 <= py < old(framebuffer).height
                    ==> framebuffer.buffer@[old(framebuffer).pix(px, py)] == (if x <= px < x + 5
                    && y <= py < y + row && glyph_pixel(digit as int, py - y, px - x) {
                    color
                } else {
                    old(framebuffer).buffer@[old(framebuffer).pix(px, py)]
                }),
        decreases 5 - row,
    {
        let bits: u8 = glyph_row(digit, row);
        let mut col: usize = 0;
        while col < 5
            invariant
                framebuffer.wf(),
                old(framebuffer).same_frame(framebuffer),
                framebuffer.buffer@.len() == old(framebuffer).buffer@.len(),
                digit <= 9,
                row < 5,
                col <= 5,
                bits == glyph_row_bits(digit as int, row as int),
                forall|px: int, py: int|
                    0 <= px < old(framebuffer).width && 0 <= py < old(framebuffer).height
                        ==> framebuffer.buffer@[old(framebuffer).pix(px, py)] == (if x <= px < x
                        + 5 && ((y <= py < y + row && glyph_pixel(digit as int, py - y, px - x)) || (
                        py == y + row && x <= px < x + col && glyph_pixel(
                            digit as int,
                            py - y,
                            px - x,
                        ))) {
                        color
                    } else {
                        old(framebuffer).buffer@[old(framebuffer).pix(px, py)]
                    }),
            decreases 5 - col,
        {
            let lit: bool = bits & (1u8 << ((4 - col) as u8)) != 0;
            proof {
                assert(lit == glyph_pixel(digit as int, row as int, col as int));
            }
            let ghost fb_prev = *framebuffer;
            if lit {
                if x < framebuffer.width && framebuffer.width - x > col && y < framebuffer.height
                    && framebuffer.height - y > row {
                    framebuffer.point(x + col, y + row, color);
                }
            }
            proof {
                let w = old(framebuffer).width as int;
                let hgt = old(framebuffer).height as int;
                assert(fb_prev.width == old(framebuffer).width);
                assert forall|px: int, py: int|
                    0 <= px < old(framebuffer).width && 0 <= py < old(framebuffer).height
                        implies framebuffer.buffer@[old(framebuffer).pix(px, py)] == (if x <= px
                        < x + 5 && ((y <= py < y + row && glyph_pixel(digit as int, py - y, px - x))
                        || (py == y + row && x <= px < x + col + 1 && glyph_pixel(
                            digit as int,
                            py - y,
                            px - x,
                        ))) {
                        color
                    } else {
                        old(framebuffer).buffer@[old(framebuffer).pix(px, py)]
                    }) by {
                    let pidx = old(framebuffer).pix(px, py);
                    lemma_pix_in_range(w, hgt, fb_prev.buffer@.len() as int, px, py);
                    assert(fb_prev.pix(px, py) == pidx);
                    let tx = (x + col) as int;
                    let ty = (y + row) as int;
                    if lit && tx < w && ty < hgt {
                        let idx = old(framebuffer).pix(tx, ty);
                        assert(fb_prev.pix(tx, ty) == idx);
                        lemma_pix_in_range(w, hgt, fb_prev.buffer@.len() as int, tx, ty);
                        assert(framebuffer.buffer@ == fb_prev.buffer@.update(idx, color));
                        if !(px == tx && py == ty) {
                            if pidx == idx {
                                lemma_pix_injective(w, px, py, tx, ty);
                            }
                            assert(framebuffer.buffer@[pidx] == fb_prev.buffer@[pidx]);
                        }
                    } else {
                        assert(framebuffer.buffer == fb_prev.buffer);
                        assert(!(px == tx && py == ty && lit));
                    }
                }
            }
            col += 1;
        }
        row += 1;
    }
    proof {
        let w = old(framebuffer).width as int;
        let hgt = old(framebuffer).height as int;
        assert forall|p: int|
            0 <= p < framebuffer.buffer@.len() implies framebuffer.buffer@[p] == old(
            framebuffer,
        ).buffer@[p] || framebuffer.buffer@[p] == color by {
            if w > 0 {
                let py = p / w;
                let px = p % w;
                lemma_mod_bound(p, w);
                lemma_div_pos_is_pos(p, w);
                lemma_multiply_divide_lt(p, w, hgt);
                lemma_fundamental_div_mod(p, w);
                vstd::arithmetic::mul::lemma_mul_is_commutative(w, py);
                assert(old(framebuffer).pix(px, py) == p);
                assert(framebuffer.buffer@[old(framebuffer).pix(px, py)] == framebuffer.buffer@[p]);
                assert(old(framebuffer).buffer@[old(framebuffer).pix(px, py)] == old(
                    framebuffer,
                ).buffer@[p]);
            } else {
                assert(w * hgt == 0) by (nonlinear_arith)
                    requires
                        w <= 0,
                        hgt >= 0,
                        w >= 0,
                ;
            }
        }
    }
}

/// The decimal digits of a number, most significant first.
pub open spec fn dec_digits(n: int) -> Seq<u8>
    decreases n,
{
    if n < 10 {
        seq![n as u8]
    } else {
        dec_digits(n / 10).push((n % 10) as u8)
    }
}

/// Splits a number into its decimal digits, most significant first.
pub fn decimal_digits(n: u32) -> (r: Vec<u8>)
    ensures
        r@ == dec_digits(n as int),
        r@.len() >= 1,
{
    let mut rev: Vec<u8> = Vec::new();
    rev.push((n % 10) as u8);
    let mut m: u32 = n / 10;
    while m > 0
        invariant
            rev@.len() >= 1,
            dec_digits(n as int) == (if m > 0 {
                dec_digits(m as int)
            } else {
                Seq::<u8>::empty()
            }) + rev@.reverse(),
        decreases m,
    {
        let ghost rev0 = rev@;
        rev.push((m % 10) as u8);
        proof {
            assert(rev@.reverse() =~= seq![(m % 10) as u8] + rev0.reverse());
            if m >= 10 {
                assert(dec_digits(m as int) == dec_digits(m as int / 10).push((m as int % 10) as u8));
                assert(dec_digits(m as int / 10) + rev@.reverse() =~= dec_digits(m as int)
                    + rev0.reverse());
            } else {
                assert(dec_digits(m as int) =~= seq![(m % 10) as u8]);
                assert(rev@.reverse() =~= dec_digits(m as int) + rev0.reverse());
            }
        }
        m = m / 10;
    }
    let mut r: Vec<u8> = Vec::new();
    let total: usize = rev.len();
    let mut i: usize = 0;
    while i < total
        invariant
            i <= total,
            total == rev@.len(),
            r@ == rev@.reverse().take(i as int),
        decreases total - i,
    {
        r.push(rev[total - 1 - i]);
        proof {
            assert(rev@.reverse()[i as int] == rev@[total - 1 - i]);
            assert(r@ =~= rev@.reverse().take(i as int + 1));
        }
        i += 1;
    }
    proof {
        assert(rev@.reverse().take(total as int) =~= rev@.reverse());
    }
    r
}

/// Every decimal digit is a single figure.
pub proof fn lemma_dec_digits_bounded(n: int)
    requires
        0 <= n,
    ensures
        forall|j: int| 0 <= j < dec_digits(n).len() ==> #[trigger] dec_digits(n)[j] <= 9,
    decreases n,
{
    if n >= 10 {
        lemma_dec_digits_bounded(n / 10);
        assert forall|j: int| 0 <= j < dec_digits(n).len() implies #[trigger] dec_digits(n)[j]
            <= 9 by {
            if j < dec_digits(n / 10).len() {
                assert(dec_digits(n)[j] == dec_digits(n / 10)[j]);
            }
        }
    }
}

/// Whether `(px, py)` falls in the counter's `i`-th digit box: a 5x5
/// square at `(10 + 6 * i, 10)`.
pub open spec fn fps_digit_box(i: int, px: int, py: int) -> bool {
    10 + 6 * i <= px < 15 + 6 * i && 10 <= py < 15
}

/// Whether the counter for value `fps` lights the screen pixel
/// `(px, py)`: some digit's box covers it and that digit's bitmap
/// lights it.
pub open spec fn fps_pixel(fps: int, px: int, py: int) -> bool {
    exists|i: int|
        0 <= i < dec_digits(fps).len() && #[trigger] fps_digit_box(i, px, py) && glyph_pixel(
            dec_digits(fps)[i] as int,
            py - 10,
            px - (10 + 6 * i),
        )
}

/// Draws the frame counter in the top-left corner, white, one 5x5
/// digit per six-pixel column: exactly the counter's lit pixels take
/// white, every other pixel keeps its color.
pub fn draw_fps(framebuffer: &mut Framebuffer, fps: u32)
    requires
        old(framebuffer).wf(),
    ensures
        final(framebuffer).wf(),
        old(framebuffer).same_frame(final(framebuffer)),
        final(framebuffer).buffer@.len() == old(framebuffer).buffer@.len(),
        forall|px: int, py: int|
            0 <= px < old(framebuffer).width && 0 <= py < old(framebuffer).height
                ==> final(framebuffer).buffer@[old(framebuffer).pix(px, py)] == (if fps_pixel(
                fps as int,
                px,
                py,
            ) {
                0xFFFFFF
            } else {
                old(framebuffer).buffer@[old(framebuffer).pix(px, py)]
            }),
        forall|p: int|
            0 <= p < final(framebuffer).buffer@.len() ==> final(framebuffer).buffer@[p] == old(
                framebuffer,
            ).buffer@[p] || final(framebuffer).buffer@[p] == 0xFFFFFF,
{
    let digits: Vec<u8> = decimal_digits(fps);
    proof {
        lemma_dec_digits_bounded(fps as int);
    }
    let mut i: usize = 0;
    while i < digits.len()
        invariant
            framebuffer.wf(),
            old(framebuffer).same_frame(framebuffer),
            framebuffer.buffer@.len() == old(framebuffer).buffer@.len(),
            i <= digits@.len(),
            digits@ == dec_digits(fps as int),
            forall|j: int| 0 <= j < digits@.len() ==> #[trigger] digits@[j] <= 9,
            forall|px: int, py: int|
                0 <= px < old(framebuffer).width && 0 <= py < old(framebuffer).height
                    ==> framebuffer.buffer@[old(framebuffer).pix(px, py)] == (if exists|j: int|
                    0 <= j < i && #[trigger] fps_digit_box(j, px, py) && glyph_pixel(
                        digits@[j] as int,
                        py - 10,
                        px - (10 + 6 * j),
                    ) {
                    0xFFFFFF
                } else {
                    old(framebuffer).buffer@[old(framebuffer).pix(px, py)]
                }),
        decreases digits.len() - i,
    {
        let xo128: u128 = 10u128 + (i as u128) * 6u128;
        if xo128 <= usize::MAX as u128 {
            let ghost fb_prev = *framebuffer;
            let xo: usize = #[verifier::truncate] (xo128 as usize);
            draw_digit(framebuffer, xo, 10, digits[i], 0xFFFFFF);
            proof {
                assert forall|px: int, py: int|
                    0 <= px < old(framebuffer).width && 0 <= py < old(framebuffer).height
                        implies framebuffer.buffer@[old(framebuffer).pix(px, py)] == (if exists|
                    j: int,
                |
                    0 <= j < i + 1 && #[trigger] fps_digit_box(j, px, py) && glyph_pixel(
                        digits@[j] as int,
                        py - 10,
                        px - (10 + 6 * j),
                    ) {
                    0xFFFFFF
                } else {
                    old(framebuffer).buffer@[old(framebuffer).pix(px, py)]
                }) by {
                    assert(fb_prev.width == old(framebuffer).width);
                    assert(fb_prev.pix(px, py) == old(framebuffer).pix(px, py));
                    assert(digits@[i as int] <= 9);
                    if xo <= px < xo + 5 && 10 <= py < 15 && glyph_pixel(
                        digits@[i as int] as int,
                        py - 10,
                        px - xo as int,
                    ) {
                        assert(fps_digit_box(i as int, px, py));
                        assert(framebuffer.buffer@[old(framebuffer).pix(px, py)] == 0xFFFFFF);
                    } else {
                        assert(framebuffer.buffer@[old(framebuffer).pix(px, py)]
                            == fb_prev.buffer@[old(framebuffer).pix(px, py)]);
                        assert forall|j: int|
                            0 <= j < i + 1 && #[trigger] fps_digit_box(j, px, py) && glyph_pixel(
                                digits@[j] as int,
                                py - 10,
                                px - (10 + 6 * j),
                            ) implies j < i by {
                            if j == i {
                                assert(10 + 6 * j == xo as int);
                            }
                        }
                    }
                }
            }
        } else {
            proof {
                assert forall|px: int, py: int|
                    0 <= px < old(framebuffer).width && 0 <= py < old(framebuffer).height
                        implies !fps_digit_box(i as int, px, py) by {
                    assert(px < old(framebuffer).width <= usize::MAX);
                    assert(10 + 6 * (i as int) > usize::MAX);
                }
                assert forall|px: int, py: int, j: int|
                    0 <= px < old(framebuffer).width && 0 <= py < old(framebuffer).height && 0 <= j
                        < i + 1 && #[trigger] fps_digit_box(j, px, py) implies j < i by {}
            }
        }
        i += 1;
    }
    proof {
        assert forall|px: int, py: int|
            0 <= px < old(framebuffer).width && 0 <= py < old(framebuffer).height
                implies framebuffer.buffer@[old(framebuffer).pix(px, py)] == (if fps_pixel(
            fps as int,
            px,
            py,
        ) {
            0xFFFFFF
        } else {
            old(framebuffer).buffer@[old(framebuffer).pix(px, py)]
        }) by {}
        let w = old(framebuffer).width as int;
        let hgt = old(framebuffer).height as int;
        assert forall|p: int|
            0 <= p < framebuffer.buffer@.len() implies framebuffer.buffer@[p] == old(
            framebuffer,
        ).buffer@[p] || framebuffer.buffer@[p] == 0xFFFFFF by {
            if w > 0 {
                let py = p / w;
                let px = p % w;
                lemma_mod_bound(p, w);
                lemma_div_pos_is_pos(p, w);
                lemma_multiply_divide_lt(p, w, hgt);
                lemma_fundamental_div_mod(p, w);
                vstd::arithmetic::mul::lemma_mul_is_commutative(w, py);
                assert(old(framebuffer).pix(px, py) == p);
                assert(framebuffer.buffer@[old(framebuffer).pix(px, py)] == framebuffer.buffer@[p]);
                assert(old(framebuffer).buffer@[old(framebuffer).pix(px, py)] == old(
                    framebuffer,
                ).buffer@[p]);
            } else {
                assert(w * hgt == 0) by (nonlinear_arith)
                    requires
                        w <= 0,
                        hgt >= 0,
                        w >= 0,
                ;
            }
        }
    }
}

/// The colors the minimap overlay may write: the three cell colors and
/// the player dot.
pub open spec fn minimap_palette(c: u32) -> bool {
    c == 0xFF0000 || c == 0x00FF00 || c == 0x0000FF || c == 0xFFDDD
}

/// Side length, in pixels, of one minimap cell at the given fixed-point
/// scale: a hundred coordinate units shrunk by the scale.
pub open spec fn minimap_block(scale_fp: int) -> int {
    (100 * scale_fp) / 65536
}

/// The minimap grid row that screen row `py` falls in (for a positive
/// block side).
pub open spec fn minimap_row(y_offset: int, block: int, py: int) -> int {
    (py - y_offset) / block
}

/// The minimap grid column that screen column `px` falls in.
pub open spec fn minimap_col(x_offset: int, block: int, px: int) -> int {
    (px - x_offset) / block
}

/// Whether some wall cell's minimap square covers the screen pixel
/// `(px, py)`.
pub open spec fn minimap_covers(
    g: Seq<Seq<Cell>>,
    x_offset: int,
    y_offset: int,
    block: int,
    px: int,
    py: int,
) -> bool {
    let row = minimap_row(y_offset, block, py);
    let col = minimap_col(x_offset, block, px);
    &&& block >= 1
    &&& x_offset <= px
    &&& y_offset <= py
    &&& row < g.len()
    &&& col < g[row].len()
    &&& g[row][col] != Cell::Empty
}

/// The color of the wall square covering the pixel (meaningful when
/// `minimap_covers` holds).
pub open spec fn minimap_color(
    g: Seq<Seq<Cell>>,
    x_offset: int,
    y_offset: int,
    block: int,
    px: int,
    py: int,
) -> u32 {
    cell_color(g[minimap_row(y_offset, block, py)][minimap_col(x_offset, block, px)])
}

/// Screen coordinate of the player dot along one axis: the offset plus
/// the scaled-down player coordinate, with negative coordinates held at
/// the offset.
pub open spec fn dot_coord(pos: int, offset: int, scale_fp: int) -> int {
    offset + (if pos >= 0 {
        (pos * scale_fp) / 0x1_0000_0000
    } else {
        0
    })
}

/// What the minimap overlay leaves at screen position `(px, py)` whose
/// previous color was `old_color`: the player dot wins, then the wall
/// squares, and every other pixel keeps its color.
pub open spec fn minimap_pixel(
    g: Seq<Seq<Cell>>,
    pl: Player,
    x_offset: int,
    y_offset: int,
    scale_fp: int,
    px: int,
    py: int,
    old_color: u32,
) -> u32 {
    let b = minimap_block(scale_fp);
    if px == dot_coord(pl.pos.x as int, x_offset, scale_fp) && py == dot_coord(
        pl.pos.y as int,
        y_offset,
        scale_fp,
    ) {
        0xFFDDD
    } else if minimap_covers(g, x_offset, y_offset, b, px, py) {
        minimap_color(g, x_offset, y_offset, b, px, py)
    } else {
        old_color
    }
}

/// A coordinate lies in the `q`-th block-sided span from `off` exactly
/// when it is past `off` and its block index is `q`.
proof fn lemma_block_span(off: int, b: int, q: int, p: int)
    requires
        b >= 1,
        0 <= q,
    ensures
        (off + q * b <= p < off + q * b + b) <==> (off <= p && (p - off) / b == q),
{
    assert(0 <= q * b) by (nonlinear_arith)
        requires
            0 <= q,
            1 <= b,
    ;
    if off + q * b <= p < off + q * b + b {
        lemma_fundamental_div_mod_converse_div(p - off, b, q, p - off - q * b);
    }
    if off <= p && (p - off) / b == q {
        lemma_fundamental_div_mod(p - off, b);
        lemma_mod_bound(p - off, b);
        vstd::arithmetic::mul::lemma_mul_is_commutative(b, q);
    }
}

/// Draws the top-down minimap overlay at `(x_offset, y_offset)`: each
/// wall cell as a square of side `100 * scale_fp / 65536` pixels at
/// `(x_offset + col * block, y_offset + row * block)`, clipped to the
/// screen; then the player as a single dot; then a sparse fan of
/// diagnostic rays cast without painting, which leave the surface
/// untouched. Every other pixel keeps its color.
pub fn render(
    framebuffer: &mut Framebuffer,
    maze: &Vec<Vec<Cell>>,
    player: &Player,
    x_offset: usize,
    y_offset: usize,
    scale_fp: i64,
    directions: &Vec<Vec2>,
    max_steps: u32,
)
    requires
        old(framebuffer).wf(),
        player.wf(),
        0 <= scale_fp <= 0x10_0000,
        forall|k: int|
            0 <= k < directions@.len() ==> -FP_SCALE <= (#[trigger] directions@[k]).x <= FP_SCALE
                && -FP_SCALE <= directions@[k].y <= FP_SCALE,
        max_steps <= MAX_STEPS_CAP,
    ensures
        final(framebuffer).wf(),
        old(framebuffer).same_frame(final(framebuffer)),
        final(framebuffer).buffer@.len() == old(framebuffer).buffer@.len(),
        forall|px: int, py: int|
            0 <= px < old(framebuffer).width && 0 <= py < old(framebuffer).height
                ==> final(framebuffer).buffer@[old(framebuffer).pix(px, py)] == minimap_pixel(
                grid_view(maze),
                *player,
                x_offset as int,
                y_offset as int,
                scale_fp as int,
                px,
                py,
                old(framebuffer).buffer@[old(framebuffer).pix(px, py)],
            ),
        forall|p: int|
            0 <= p < final(framebuffer).buffer@.len() ==> final(framebuffer).buffer@[p] == old(
                framebuffer,
            ).buffer@[p] || minimap_palette(final(framebuffer).buffer@[p]),
{
    let ghost g = grid_view(maze);
    let ghost xoi = x_offset as int;
    let ghost yoi = y_offset as int;
    let block: u64 = ((100i64 * scale_fp) as u64) / 65536;
    let ghost b = block as int;
    proof {
        assert(b == minimap_block(scale_fp as int));
    }
    let mut row: usize = 0;
    while row < maze.len()
        invariant
            framebuffer.wf(),
            old(framebuffer).same_frame(framebuffer),
            framebuffer.buffer@.len() == old(framebuffer).buffer@.len(),
            g == grid_view(maze),
            b == block as int,
            xoi == x_offset as int,
            yoi == y_offset as int,
            block <= 1600,
            row <= g.len(),
            g.len() == maze.len(),
            forall|px: int, py: int|
                #![trigger old(framebuffer).pix(px, py)]
                0 <= px < old(framebuffer).width && 0 <= py < old(framebuffer).height
                    ==> framebuffer.buffer@[old(framebuffer).pix(px, py)] == (if minimap_covers(
                    g,
                    xoi,
                    yoi,
                    b,
                    px,
                    py,
                ) && minimap_row(yoi, b, py) < row {
                    minimap_color(g, xoi, yoi, b, px, py)
                } else {
                    old(framebuffer).buffer@[old(framebuffer).pix(px, py)]
                }),
        decreases maze.len() - row,
    {
        let line: &Vec<Cell> = &maze[row];
        let mut col: usize = 0;
        while col < line.len()
            invariant
                framebuffer.wf(),
                old(framebuffer).same_frame(framebuffer),
                framebuffer.buffer@.len() == old(framebuffer).buffer@.len(),
                g == grid_view(maze),
                b == block as int,
                xoi == x_offset as int,
                yoi == y_offset as int,
                block <= 1600,
                row < g.len(),
                line@ == g[row as int],
                col <= line@.len(),
                forall|px: int, py: int|
                    #![trigger old(framebuffer).pix(px, py)]
                    0 <= px < old(framebuffer).width && 0 <= py < old(framebuffer).height
                        ==> framebuffer.buffer@[old(framebuffer).pix(px, py)] == (if minimap_covers(
                        g,
                        xoi,
                        yoi,
                        b,
                        px,
                        py,
                    ) && (minimap_row(yoi, b, py) < row || (minimap_row(yoi, b, py) == row
                        && minimap_col(xoi, b, px) < col)) {
                        minimap_color(g, xoi, yoi, b, px, py)
                    } else {
                        old(framebuffer).buffer@[old(framebuffer).pix(px, py)]
                    }),
            decreases line.len() - col,
        {
            proof {
                assert((col as u128) * (block as u128) <= 0xFFFF_FFFF_FFFF_FFFFu128 * 1600)
                    by (nonlinear_arith)
                    requires
                        col <= 0xFFFF_FFFF_FFFF_FFFFu128,
                        block <= 1600,
                ;
                assert((row as u128) * (block as u128) <= 0xFFFF_FFFF_FFFF_FFFFu128 * 1600)
                    by (nonlinear_arith)
                    requires
                        row <= 0xFFFF_FFFF_FFFF_FFFFu128,
                        block <= 1600,
                ;
            }
            let xo128: u128 = x_offset as u128 + (col as u128) * (block as u128);
            let yo128: u128 = y_offset as u128 + (row as u128) * (block as u128);
            let cellv: Cell = line[col];
            proof {
                assert(cellv == g[row as int][col as int]);
                assert(xo128 as int == xoi + (col as int) * b);
                assert(yo128 as int == yoi + (row as int) * b);
            }
            if xo128 <= usize::MAX as u128 && yo128 <= usize::MAX as u128 {
                let xop: usize = xo128 as usize;
                let yop: usize = yo128 as usize;
                let ghost fb_mid = *framebuffer;
                proof {
                    assert(forall|px: int, py: int|
                        #![trigger old(framebuffer).pix(px, py)]
                        0 <= px < old(framebuffer).width && 0 <= py < old(framebuffer).height
                            ==> fb_mid.buffer@[old(framebuffer).pix(px, py)] == (
                        if minimap_covers(g, xoi, yoi, b, px, py) && (minimap_row(yoi, b, py) < row
                            || (minimap_row(yoi, b, py) == row && minimap_col(xoi, b, px) < col)) {
                            minimap_color(g, xoi, yoi, b, px, py)
                        } else {
                            old(framebuffer).buffer@[old(framebuffer).pix(px, py)]
                        }));
                }
                draw_cell(framebuffer, xop, yop, block as usize, cellv);
                proof {
                    assert(fb_mid.width == old(framebuffer).width);
                    assert forall|px: int, py: int|
                        #![trigger old(framebuffer).pix(px, py)]
                        0 <= px < old(framebuffer).width && 0 <= py < old(framebuffer).height
                            implies framebuffer.buffer@[old(framebuffer).pix(px, py)] == (
                    if minimap_covers(g, xoi, yoi, b, px, py) && (minimap_row(yoi, b, py) < row || (
                    minimap_row(yoi, b, py) == row && minimap_col(xoi, b, px) < col + 1)) {
                        minimap_color(g, xoi, yoi, b, px, py)
                    } else {
                        old(framebuffer).buffer@[old(framebuffer).pix(px, py)]
                    }) by {
                        assert(fb_mid.pix(px, py) == old(framebuffer).pix(px, py));
                        assert((block as usize) as int == b);
                        assert(cellv == g[row as int][col as int]);
                        assert(fb_mid.buffer@[old(framebuffer).pix(px, py)] == (if minimap_covers(
                            g,
                            xoi,
                            yoi,
                            b,
                            px,
                            py,
                        ) && (minimap_row(yoi, b, py) < row || (minimap_row(yoi, b, py) == row
                            && minimap_col(xoi, b, px) < col)) {
                            minimap_color(g, xoi, yoi, b, px, py)
                        } else {
                            old(framebuffer).buffer@[old(framebuffer).pix(px, py)]
                        }));
                        assert(framebuffer.buffer@[fb_mid.pix(px, py)] == (if cellv != Cell::Empty
                            && xop <= px < xop + (block as usize) && yop <= py < yop + (
                        block as usize) {
                            cell_color(cellv)
                        } else {
                            fb_mid.buffer@[fb_mid.pix(px, py)]
                        }));
                        if b >= 1 {
                            lemma_block_span(xoi, b, col as int, px);
                            lemma_block_span(yoi, b, row as int, py);
                        }
                    }
                }
            } else {
                proof {
                    assert forall|px: int, py: int|
                        #![trigger old(framebuffer).pix(px, py)]
                        0 <= px < old(framebuffer).width && 0 <= py < old(framebuffer).height
                            implies framebuffer.buffer@[old(framebuffer).pix(px, py)] == (
                    if minimap_covers(g, xoi, yoi, b, px, py) && (minimap_row(yoi, b, py) < row || (
                    minimap_row(yoi, b, py) == row && minimap_col(xoi, b, px) < col + 1)) {
                        minimap_color(g, xoi, yoi, b, px, py)
                    } else {
                        old(framebuffer).buffer@[old(framebuffer).pix(px, py)]
                    }) by {
                        if minimap_covers(g, xoi, yoi, b, px, py) && minimap_row(yoi, b, py) == row
                            && minimap_col(xoi, b, px) == col {
                            lemma_block_span(xoi, b, col as int, px);
                            lemma_block_span(yoi, b, row as int, py);
                            assert(px >= xoi + (col as int) * b);
                            assert(py >= yoi + (row as int) * b);
                            assert(px < old(framebuffer).width <= usize::MAX);
                            assert(py < old(framebuffer).height <= usize::MAX);
                            assert(false);
                        }
                    }
                }
            }
            col += 1;
        }
        proof {
            assert forall|px: int, py: int|
                #![trigger old(framebuffer).pix(px, py)]
                0 <= px < old(framebuffer).width && 0 <= py < old(framebuffer).height
                    implies framebuffer.buffer@[old(framebuffer).pix(px, py)] == (
            if minimap_covers(g, xoi, yoi, b, px, py) && minimap_row(yoi, b, py) < row + 1 {
                minimap_color(g, xoi, yoi, b, px, py)
            } else {
                old(framebuffer).buffer@[old(framebuffer).pix(px, py)]
            }) by {}
        }
        row += 1;
    }
    proof {
        assert(forall|c: u128, s: u128|
            c <= 0x4_0000_0000_0000 && s <= 0x10_0000 ==> #[trigger] (c * s)
                <= 0x4_0000_0000_0000u128 * 0x10_0000) by (nonlinear_arith);
    }
    let sx128: u128 = if player.pos.x >= 0 {
        ((player.pos.x as u128) * (scale_fp as u128)) / 0x1_0000_0000
    } else {
        0
    };
    let sy128: u128 = if player.pos.y >= 0 {
        ((player.pos.y as u128) * (scale_fp as u128)) / 0x1_0000_0000
    } else {
        0
    };
    let px128: u128 = x_offset as u128 + sx128;
    let py128: u128 = y_offset as u128 + sy128;
    let ghost dot_x = dot_coord(player.pos.x as int, xoi, scale_fp as int);
    let ghost dot_y = dot_coord(player.pos.y as int, yoi, scale_fp as int);
    proof {
        assert(px128 as int == dot_x);
        assert(py128 as int == dot_y);
    }
    if px128 < framebuffer.width as u128 && py128 < framebuffer.height as u128 {
        let dx: usize = px128 as usize;
        let dy: usize = py128 as usize;
        let ghost fb_mid = *framebuffer;
        framebuffer.point(dx, dy, 0xFFDDD);
        proof {
            let w = old(framebuffer).width as int;
            let hgt = old(framebuffer).height as int;
            assert(fb_mid.width == old(framebuffer).width);
            let idx = old(framebuffer).pix(dx as int, dy as int);
            assert(fb_mid.pix(dx as int, dy as int) == idx);
            lemma_pix_in_range(w, hgt, fb_mid.buffer@.len() as int, dx as int, dy as int);
            assert(framebuffer.buffer@ == fb_mid.buffer@.update(idx, 0xFFDDD));
            assert forall|px: int, py: int|
                #![trigger old(framebuffer).pix(px, py)]
                0 <= px < old(framebuffer).width && 0 <= py < old(framebuffer).height
                    implies framebuffer.buffer@[old(framebuffer).pix(px, py)] == minimap_pixel(
                g,
                *player,
                xoi,
                yoi,
                scale_fp as int,
                px,
                py,
                old(framebuffer).buffer@[old(framebuffer).pix(px, py)],
            ) by {
                let pidx = old(framebuffer).pix(px, py);
                lemma_pix_in_range(w, hgt, fb_mid.buffer@.len() as int, px, py);
                assert(fb_mid.pix(px, py) == pidx);
                if px == dot_x && py == dot_y {
                    assert(pidx == idx);
                    assert(framebuffer.buffer@[idx] == 0xFFDDD);
                } else {
                    if pidx == idx {
                        lemma_pix_injective(w, px, py, dx as int, dy as int);
                    }
                    assert(pidx != idx);
                    assert(framebuffer.buffer@[pidx] == fb_mid.buffer@[pidx]);
                }
            }
        }
    } else {
        proof {
            assert forall|px: int, py: int|
                #![trigger old(framebuffer).pix(px, py)]
                0 <= px < old(framebuffer).width && 0 <= py < old(framebuffer).height
                    implies framebuffer.buffer@[old(framebuffer).pix(px, py)] == minimap_pixel(
                g,
                *player,
                xoi,
                yoi,
                scale_fp as int,
                px,
                py,
                old(framebuffer).buffer@[old(framebuffer).pix(px, py)],
            ) by {
                assert(!(px == dot_x && py == dot_y));
            }
        }
    }
    if 1 <= block {
        let mut k: usize = 0;
        while k < directions.len()
            invariant
                framebuffer.wf(),
                old(framebuffer).same_frame(framebuffer),
                framebuffer.buffer@.len() == old(framebuffer).buffer@.len(),
                player.wf(),
                g == grid_view(maze),
                xoi == x_offset as int,
                yoi == y_offset as int,
                1 <= block <= 1600,
                max_steps <= MAX_STEPS_CAP,
                forall|j: int|
                    0 <= j < directions@.len() ==> -FP_SCALE <= (#[trigger] directions@[j]).x
                        <= FP_SCALE && -FP_SCALE <= directions@[j].y <= FP_SCALE,
                forall|px: int, py: int|
                    #![trigger old(framebuffer).pix(px, py)]
                    0 <= px < old(framebuffer).width && 0 <= py < old(framebuffer).height
                        ==> framebuffer.buffer@[old(framebuffer).pix(px, py)] == minimap_pixel(
                        g,
                        *player,
                        xoi,
                        yoi,
                        scale_fp as int,
                        px,
                        py,
                        old(framebuffer).buffer@[old(framebuffer).pix(px, py)],
                    ),
            decreases directions.len() - k,
        {
            let dir: Vec2 = directions[k];
            let ghost fb_prev = *framebuffer;
            let _ = cast_ray(framebuffer, maze, player, dir.x, dir.y, block, false, max_steps);
            proof {
                assert(framebuffer.buffer == fb_prev.buffer);
            }
            k += 1;
        }
    }
    proof {
        let w = old(framebuffer).width as int;
        let hgt = old(framebuffer).height as int;
        assert forall|p: int|
            0 <= p < framebuffer.buffer@.len() implies framebuffer.buffer@[p] == old(
            framebuffer,
        ).buffer@[p] || minimap_palette(framebuffer.buffer@[p]) by {
            if w > 0 {
                let py = p / w;
                let px = p % w;
                lemma_mod_bound(p, w);
                lemma_div_pos_is_pos(p, w);
                lemma_multiply_divide_lt(p, w, hgt);
                lemma_fundamental_div_mod(p, w);
                vstd::arithmetic::mul::lemma_mul_is_commutative(w, py);
                assert(old(framebuffer).pix(px, py) == p);
                assert(framebuffer.buffer@[old(framebuffer).pix(px, py)] == framebuffer.buffer@[p]);
                assert(old(framebuffer).buffer@[old(framebuffer).pix(px, py)] == old(
                    framebuffer,
                ).buffer@[p]);
            } else {
                assert(w * hgt == 0) by (nonlinear_arith)
                    requires
                        w <= 0,
                        hgt >= 0,
                        w >= 0,
                ;
            }
        }
    }
}

/// The ray angle of screen column `idx` of `num_rays`: the heading
/// backed off by half the field of view, advanced by the column's even
/// share of it — rays sweep left to right across the field of view.
pub open spec fn column_angle(a: int, fov: int, idx: int, num_rays: int) -> int {
    crate::player::wrap_i64(a - fov / 2 + (fov * idx) / num_rays)
}

/// The per-column ray angles of a frame, in subunits of a radian.
/// Callers turn each angle into a unit direction vector and hand those
/// to the render pass.
pub fn column_angles(player: &Player, num_rays: usize) -> (r: Vec<i64>)
    requires
        player.wf(),
        1 <= num_rays <= 0x1_0000_0000,
    ensures
        r@.len() == num_rays,
        forall|k: int|
            0 <= k < num_rays ==> r@[k] == column_angle(
                player.a as int,
                player.fov as int,
                k,
                num_rays as int,
            ),
{
    let mut r: Vec<i64> = Vec::new();
    let fov2: i64 = ((player.fov as u64) / 2) as i64;
    let mut k: usize = 0;
    while k < num_rays
        invariant
            k <= num_rays,
            player.wf(),
            1 <= num_rays <= 0x1_0000_0000,
            fov2 == player.fov as int / 2,
            r@.len() == k,
            forall|j: int|
                0 <= j < k ==> r@[j] == column_angle(
                    player.a as int,
                    player.fov as int,
                    j,
                    num_rays as int,
                ),
        decreases num_rays - k,
    {
        proof {
            assert((player.fov as int) * (k as int) <= 0x10_0000i64 * 0x1_0000_0000i64)
                by (nonlinear_arith)
                requires
                    0 <= player.fov <= 0x10_0000,
                    0 <= k <= 0x1_0000_0000,
            ;
        }
        let sweep: u64 = ((player.fov as u64) * (k as u64)) / (num_rays as u64);
        let angle: i64 = crate::player::wrap_to_i64(
            player.a as i128 - fov2 as i128 + sweep as i128,
        );
        r.push(angle);
        k += 1;
    }
    r
}

} // verus!
