//! Conway's Game of Life (rule B3/S23) on a fixed-size board, with an
//! incremental terminal renderer and the decisions of the drive loop.
//!
//! The board is modelled as a grid of booleans (`true` = alive); every
//! executable operation is specified against that model.

pub mod model;
pub mod game;
pub mod laws;
pub mod render;
pub mod drive;
