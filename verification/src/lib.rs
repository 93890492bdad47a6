//! Glyph-atlas text meshing: a cache of rasterized glyphs packed into a
//! growable atlas image, an outline tessellator that fills cache misses,
//! a decoration run merger for underline/strikethrough, and a mesh builder
//! that turns per-glyph draw requests into sorted, UV-mapped buffers.
//!
//! All coordinates are integers: screen positions in subpixel units chosen
//! by the caller, atlas positions in pixels, and normalized texture
//! coordinates in 1/65536 units.

pub mod atlas;
pub mod decor;
pub mod mesh;
pub mod pipeline;
pub mod style;
pub mod tess;
