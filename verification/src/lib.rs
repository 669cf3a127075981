//! A text-mode snake game: a frame-buffer writer with line scrolling and a
//! tick-driven, collision-aware game engine that renders through it.

use vstd::prelude::*;

pub mod fmt;
pub mod game;
pub mod vga_buffer;

verus! {

/// Number of character rows in the display grid.
pub const BUFFER_HEIGHT: usize = 25;
/// Number of character columns in the display grid.
pub const BUFFER_WIDTH: usize = 80;

/// One position in a display grid held as a flat, row-major sequence.
pub open spec fn grid_index(row: int, col: int) -> int {
    row * BUFFER_WIDTH + col
}

} // verus!
