//! Keyboard-driven screen-point selection.
//!
//! A fixed 26x26 grid is laid over a screen rectangle; every cell carries a
//! two-letter code (column letter, then row letter). The user types letters
//! into a small state machine; when the typed buffer names a valid cell, the
//! session resolves to the pixel coordinate at that cell's center.

pub mod grid;
pub mod render;
pub mod session;

use vstd::prelude::*;

verus! {

/// Number of rows and of columns in a full grid: one per letter of the
/// alphabet, so that every two-letter code names a cell.
pub const GRID_SIZE: usize = 26;

} // verus!
