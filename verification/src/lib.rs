//! Rules of a grid puzzle cursor.
//!
//! A cursor, the selector, carries a cluster of cells of a square pattern over
//! a window. The crate holds the geometry of that pattern, the test whether the
//! cursor stands over pieces that were placed before, the quarter turn of the
//! cluster, and the decisions of one frame of the game: what a key press places,
//! turns or moves. Positions are whole pixels and angles whole degrees.
pub mod grid;
pub mod rotation;
pub mod selector;
pub mod control;
