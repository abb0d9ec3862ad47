//! A Wolfenstein-style raycaster: a 2D grid maze rendered one vertical
//! wall slice per screen column by marching rays across the grid, with a
//! collision test sharing the same grid indexing, fixed-point projection
//! math, and collision-gated player movement.

pub mod caster;
pub mod framebuffer;
pub mod grid;
pub mod player;
pub mod render;

pub use caster::Impact;
pub use caster::Intersect;
pub use caster::cast_ray;
pub use caster::check_collision;
pub use framebuffer::Framebuffer;
pub use grid::Cell;
pub use grid::WallKind;
pub use grid::parse_maze;
pub use player::Command;
pub use player::Player;
pub use player::Vec2;
pub use player::process_events;
pub use render::Texture;
pub use render::Textures;
pub use render::column_angles;
pub use render::draw_cell;
pub use render::draw_digit;
pub use render::draw_fps;
pub use render::render;
pub use render::render3d;
