//! Conversion between a linear pixel index and grid coordinates.

use vstd::prelude::*;
use crate::{DISPLAY_WIDTH, DISPLAY_HEIGHT, NUM_PIXELS};

verus! {

/// Whether `(x, y)` names a pixel of the display.
pub open spec fn valid_pos(pos: (int, int)) -> bool {
    0 <= pos.0 < DISPLAY_WIDTH && 0 <= pos.1 < DISPLAY_HEIGHT
}

/// Whether `idx` names a pixel of the display.
pub open spec fn valid_idx(idx: int) -> bool {
    0 <= idx < NUM_PIXELS
}

/// The linear index of the pixel in column `pos.0` of row `pos.1`.
pub open spec fn index_of(pos: (int, int)) -> int {
    pos.1 * DISPLAY_WIDTH + pos.0
}

/// The column and row of the pixel with linear index `idx`.
pub open spec fn position_of(idx: int) -> (int, int) {
    (idx % (DISPLAY_WIDTH as int), idx / (DISPLAY_WIDTH as int))
}

/// Linear index of a grid position given as `(column, row)`.
pub fn pos_to_idx(pos: (usize, usize)) -> (idx: usize)
    requires
        valid_pos((pos.0 as int, pos.1 as int)),
    ensures
        idx == index_of((pos.0 as int, pos.1 as int)),
        valid_idx(idx as int),
{
    (pos.1 * DISPLAY_WIDTH) + pos.0
}

/// Grid position `(column, row)` of a linear index.
pub fn idx_to_pos(idx: usize) -> (pos: (usize, usize))
    ensures
        (pos.0 as int, pos.1 as int) == position_of(idx as int),
        pos.0 < DISPLAY_WIDTH,
        valid_idx(idx as int) ==> valid_pos((pos.0 as int, pos.1 as int)),
{
    (idx % DISPLAY_WIDTH, idx / DISPLAY_WIDTH)
}

/// Every valid index is the index of its own position, and that position
/// lies on the display.
pub proof fn lemma_index_of_position(idx: int)
    requires
        valid_idx(idx),
    ensures
        valid_pos(position_of(idx)),
        index_of(position_of(idx)) == idx,
{
}

/// Every valid position is the position of its own index, and that index
/// lies on the display.
pub proof fn lemma_position_of_index(pos: (int, int))
    requires
        valid_pos(pos),
    ensures
        valid_idx(index_of(pos)),
        position_of(index_of(pos)) == pos,
{
}

} // verus!
