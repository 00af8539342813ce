//! Logic core of a Snake game on a fixed 8x8 pixel grid.
//!
//! A host loop polls the buttons once per frame, hands the snapshot to
//! [`games::GameState::update`] and renders what [`games::GameState::display`]
//! returns.

use vstd::prelude::*;

pub mod games;
pub mod util;

verus! {

/// Number of columns of the display.
pub const DISPLAY_WIDTH: usize = 8;

/// Number of rows of the display.
pub const DISPLAY_HEIGHT: usize = 8;

/// Number of pixels of the display, and of tiles on a game board.
pub const NUM_PIXELS: usize = 64;

} // verus!
