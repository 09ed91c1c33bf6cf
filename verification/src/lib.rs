//! Rule engine for the board game Quantik: a 4x4 grid, four shapes in two
//! colors, placement constrained by rows, columns and 2x2 blocks.

pub mod grid;
pub mod laws;
pub mod render;
