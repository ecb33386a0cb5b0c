//! Conway's Game of Life on a bounded grid, and its rendering into a pixel buffer.
pub mod grid;
pub mod render;
