//! Conway's Game of Life on a bounded grid, with the memory arena that backs it.

pub mod game;
pub mod arena;
