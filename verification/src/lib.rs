//! A single-player maze game on a small grid: a seeded board, a character that
//! collects the points of the cells it walks onto, and a fixed number of turns.

pub mod coord;
pub mod generator;
pub mod laws;
pub mod maze;
pub mod play;
pub mod render;
pub mod state;
