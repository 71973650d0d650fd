//! A first-person raycasting renderer for a grid-based maze.
//!
//! The renderer walks rays through a rectangular occupancy grid, turns the
//! first wall hit of each screen column into a vertical textured slice,
//! composites distance-gated sprites, overlays a top-down minimap, and owns
//! a bounds-checked pixel surface that can be serialized as an uncompressed
//! bitmap.
//!
//! All geometry is carried in fixed-point integers so that every step of the
//! pipeline can be verified: positions in millionths of a grid cell,
//! direction components in thousandths, and angles in 1/65536 of a turn.
//! The windowing, input and image-decoding collaborators convert to and from
//! these units at the boundary.

pub mod bmp;
pub mod button;
pub mod font;
pub mod framebuffer;
pub mod grid;
pub mod player;
pub mod raycaster;
pub mod render;
pub mod sprite;
pub mod trig;
