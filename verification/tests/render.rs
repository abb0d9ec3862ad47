use raycaster::Cell;
use raycaster::Framebuffer;
use raycaster::Player;
use raycaster::Texture;
use raycaster::Textures;
use raycaster::Vec2;
use raycaster::WallKind;
use raycaster::column_angles;
use raycaster::draw_cell;
use raycaster::draw_digit;
use raycaster::draw_fps;
use raycaster::render;
use raycaster::render3d;
use raycaster::render::decimal_digits;
use raycaster::render::glyph_row;
use raycaster::render::pack_color;
use raycaster::render::stake_height_px;

const FP: i64 = 65536;

fn solid_texture(color: u32) -> Texture {
    Texture::from_pixels(1, 1, vec![color]).expect("a single texel is a valid texture")
}

fn solid_textures() -> Textures {
    Textures {
        wall1: solid_texture(0xAA0000),
        wall2: solid_texture(0x00BB00),
        wall3: solid_texture(0x0000CC),
    }
}

#[test]
fn pack_color_shifts_channels() {
    assert_eq!(pack_color(0x12, 0x34, 0x56), 0x123456);
    assert_eq!(pack_color(0xFF, 0x00, 0xFF), 0xFF00FF);
}

#[test]
fn stake_height_is_inverse_in_distance() {
    // Half-height 450, projection plane 80: a wall 5 units out projects
    // to 450 * 80 / 5 = 7200 pixels, one 10 units out to 3600.
    assert_eq!(stake_height_px(450, 5 * FP as u64), 7200);
    assert_eq!(stake_height_px(450, 10 * FP as u64), 3600);
    let near = stake_height_px(450, 5 * FP as u64);
    let far = stake_height_px(450, 10 * FP as u64);
    assert!(near > far);
}

#[test]
fn stake_height_clamps_zero_distance() {
    // A ray that starts inside a wall reports distance zero; the
    // projection clamps it to one subunit instead of dividing by zero.
    assert_eq!(stake_height_px(450, 0), 450 * 80 * 65536);
}

#[test]
fn texture_rejects_wrong_pixel_count() {
    assert!(Texture::from_pixels(2, 2, vec![0; 3]).is_none());
    assert!(Texture::from_pixels(0, 1, vec![]).is_none());
    assert!(Texture::from_pixels(2, 2, vec![0; 4]).is_some());
}

#[test]
fn render3d_draws_a_centered_slice() {
    // One corridor row of unit cells: open floor up to a corner wall at
    // cell 45. From x = 0 the marcher strikes it at its ninth step,
    // 45 units out: slice height 4 * 80 / 45 = 7, so rows 1..7 of the
    // single column take the wall texture's color.
    let mut row: Vec<Cell> = vec![Cell::Empty; 45];
    row.push(Cell::Wall(WallKind::Corner));
    let maze = vec![row];
    let mut fb = Framebuffer::new(1, 9);
    let player = Player { pos: Vec2 { x: 0, y: 0 }, a: 0, fov: 0x8000, mouse_sensitivity: 300 };
    let directions = vec![Vec2 { x: FP, y: 0 }];
    render3d(&mut fb, &maze, &player, &solid_textures(), &directions, 1, 1000);
    assert_eq!(fb.buffer[0], 0);
    for y in 1..7 {
        assert_eq!(fb.buffer[y], 0xAA0000);
    }
    for y in 7..9 {
        assert_eq!(fb.buffer[y], 0);
    }
}

#[test]
fn render3d_skips_oversized_slices() {
    // The wall is a single step away: the projected slice dwarfs the
    // screen, so the column is skipped whole, not clamped.
    let maze = vec![vec![Cell::Empty, Cell::Wall(WallKind::Corner)]];
    let mut fb = Framebuffer::new(1, 9);
    let player = Player { pos: Vec2 { x: 0, y: 0 }, a: 0, fov: 0x8000, mouse_sensitivity: 300 };
    let directions = vec![Vec2 { x: FP, y: 0 }];
    render3d(&mut fb, &maze, &player, &solid_textures(), &directions, 5, 1000);
    for y in 0..9 {
        assert_eq!(fb.buffer[y], 0);
    }
}

#[test]
fn draw_cell_fills_its_square() {
    let mut fb = Framebuffer::new(8, 8);
    draw_cell(&mut fb, 2, 3, 2, Cell::Wall(WallKind::Corner));
    for x in 2..4 {
        for y in 3..5 {
            assert_eq!(fb.buffer[y * 8 + x], 0xFF0000);
        }
    }
    assert_eq!(fb.buffer[0], 0);
    assert_eq!(fb.buffer[3 * 8 + 1], 0);
}

#[test]
fn draw_cell_colors_follow_the_wall_kind() {
    let mut fb = Framebuffer::new(3, 1);
    draw_cell(&mut fb, 0, 0, 1, Cell::Wall(WallKind::Vertical));
    draw_cell(&mut fb, 1, 0, 1, Cell::Wall(WallKind::Horizontal));
    draw_cell(&mut fb, 2, 0, 1, Cell::Empty);
    assert_eq!(fb.buffer[0], 0x00FF00);
    assert_eq!(fb.buffer[1], 0x0000FF);
    assert_eq!(fb.buffer[2], 0);
}

#[test]
fn glyph_rows_match_the_font() {
    // Digit 1: rows 00100, 01100, 00100, 00100, 01110.
    assert_eq!(glyph_row(1, 0), 0b00100);
    assert_eq!(glyph_row(1, 1), 0b01100);
    assert_eq!(glyph_row(1, 4), 0b01110);
    // Digit 8: a ring over a ring.
    assert_eq!(glyph_row(8, 0), 0b01110);
    assert_eq!(glyph_row(8, 2), 0b01110);
}

#[test]
fn draw_digit_sets_glyph_pixels() {
    let mut fb = Framebuffer::new(10, 10);
    draw_digit(&mut fb, 1, 1, 7, 0xFFFFFF);
    // Digit 7's top row is 11111: the whole row lights up.
    for col in 0..5 {
        assert_eq!(fb.buffer[1 * 10 + 1 + col], 0xFFFFFF);
    }
    // Its second row is 00010: only the fourth column lights up.
    assert_eq!(fb.buffer[2 * 10 + 1 + 3], 0xFFFFFF);
    assert_eq!(fb.buffer[2 * 10 + 1 + 0], 0);
    // A value over nine draws nothing.
    let mut other = Framebuffer::new(10, 10);
    draw_digit(&mut other, 1, 1, 10, 0xFFFFFF);
    for p in 0..100 {
        assert_eq!(other.buffer[p], 0);
    }
}

#[test]
fn decimal_digits_most_significant_first() {
    assert_eq!(decimal_digits(0), vec![0]);
    assert_eq!(decimal_digits(7), vec![7]);
    assert_eq!(decimal_digits(907), vec![9, 0, 7]);
    assert_eq!(decimal_digits(u32::MAX), vec![4, 2, 9, 4, 9, 6, 7, 2, 9, 5]);
}

#[test]
fn draw_fps_writes_only_white() {
    let mut fb = Framebuffer::new(40, 20);
    fb.set_background_color(0x101010);
    fb.clear();
    draw_fps(&mut fb, 60);
    let mut changed = 0;
    for p in 0..fb.buffer.len() {
        if fb.buffer[p] != 0x101010 {
            assert_eq!(fb.buffer[p], 0xFFFFFF);
            changed += 1;
        }
    }
    assert!(changed > 0);
}

#[test]
fn render_minimap_writes_only_minimap_colors() {
    let lines: Vec<Vec<u8>> = vec![b"+-+".to_vec(), b"| |".to_vec(), b"+-+".to_vec()];
    let maze = raycaster::parse_maze(&lines).expect("well formed");
    let mut fb = Framebuffer::new(64, 64);
    let player = Player {
        pos: Vec2 { x: 15 * FP, y: 15 * FP },
        a: 0,
        fov: 0x8000,
        mouse_sensitivity: 300,
    };
    let directions = vec![Vec2 { x: FP, y: 0 }, Vec2 { x: 0, y: FP }];
    // Scale of one tenth: cells become 10-pixel squares.
    render(&mut fb, &maze, &player, 2, 2, FP / 10, &directions, 1000);
    let palette = [0xFF0000u32, 0x00FF00, 0x0000FF, 0xFFDDD, 0];
    let mut painted = 0;
    for p in 0..fb.buffer.len() {
        assert!(palette.contains(&fb.buffer[p]));
        if fb.buffer[p] != 0 {
            painted += 1;
        }
    }
    assert!(painted > 0);
    // The top-left corner cell fills [2, 12) squared with red.
    assert_eq!(fb.buffer[5 * 64 + 5], 0xFF0000);
    // The player dot lands at offset + 15/10 = (3, 3).
    assert_eq!(fb.buffer[3 * 64 + 3], 0xFFDDD);
}

#[test]
fn column_angles_sweep_the_field_of_view() {
    let player = Player { pos: Vec2 { x: 0, y: 0 }, a: 1000, fov: 800, mouse_sensitivity: 300 };
    let angles = column_angles(&player, 4);
    // heading - fov/2 + fov * i / 4 for i = 0..4.
    assert_eq!(angles, vec![600, 800, 1000, 1200]);
}
