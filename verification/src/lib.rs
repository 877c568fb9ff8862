//! Conway's Game of Life on a toroidal grid, with run-length-encoded
//! pattern files and the state of an interactive editor.

pub mod grid;
pub mod text;
pub mod app;
pub mod patterns;
pub mod rle;
pub mod roundtrip;
pub mod rle_laws;
pub mod ui;
