//! Rasterization onto a flat pixel buffer: bounds-checked writes, the mapping
//! from coordinates to indices, integer line drawing, filled rectangles and
//! image copies.
//!
//! `canvas`, `segment`, `rect` and `picture` hold the mathematical models and
//! what is proved of them; `buffer` and `draw` hold the executable code, whose
//! contracts are stated over those models.

pub mod buffer;
pub mod canvas;
pub mod draw;
pub mod picture;
pub mod rect;
pub mod segment;
