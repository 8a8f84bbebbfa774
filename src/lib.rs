//! A falling-glyph particle simulation with depth-aware rendering onto a
//! character grid.

mod chance;
pub mod geometry;
pub mod entity;
pub mod raster;
pub mod world;
