//! A first-person grid-based raycasting renderer.
//!
//! Given a 2D character grid (the maze), a player pose and a set of wall
//! textures, the library produces a pseudo-3D perspective view by casting one
//! ray per screen column, walking each ray through the grid until it strikes a
//! wall cell, and projecting the hit distance into a vertical textured strip.
//! Sprites are composited against a per-column depth buffer, and a scaled
//! top-down minimap can be overlaid in a screen corner.
//!
//! All world geometry is carried in fixed-point integers: one world unit is
//! `FP_ONE` sub-units, and angles are tenths of a degree (a full turn is
//! `FULL_TURN`). Window handling, asset decoding, font rasterization and
//! audio stay outside the library; they exchange plain pixel and coordinate
//! values with it.

pub mod bmp;
pub mod fixmath;
pub mod framebuffer;
pub mod grid;
pub mod minimap;
pub mod player;
pub mod raycast;
pub mod render;
pub mod sprite;
pub mod texture;

pub use bmp::decode_bmp;
pub use bmp::export_bmp;
pub use framebuffer::Framebuffer;
pub use grid::parse_maze;
pub use player::InputState;
pub use player::Player;
pub use player::StepSound;
pub use player::process_events;
pub use player::Vec2Fp;
pub use raycast::Intersect;
pub use raycast::cast_ray;
pub use minimap::maze_to_minimap;
pub use minimap::minimap_function;
pub use minimap::walls_minimap;
pub use render::new_depth_buffer;
pub use render::render_walls;
pub use sprite::position_sprites;
pub use sprite::render_object;
pub use texture::Texture;
pub use texture::WallTextures;
pub use texture::texture_walls;
