//! Neighbourhood of two equally sized blocks given by their corners.

use vstd::prelude::*;
use crate::anchor::abs;

verus! {

/// A block by its top-left corner and its size, both in grid cells.
#[derive(Clone, Copy, Debug)]
pub struct Block {
    pub top_left_corner: (i64, i64),
    pub normalised_block_size_x: i64,
    pub normalised_block_size_y: i64,
    pub grid_cell_size: i64,
}

impl Block {
    /// `other` lies directly beside this block (one block width across, same
    /// row) or directly above or below it (one block height, same column).
    pub open spec fn neighbours(&self, other: &Block) -> bool {
        let dx = abs(self.top_left_corner.0 - other.top_left_corner.0);
        let dy = abs(self.top_left_corner.1 - other.top_left_corner.1);
        (dx == self.normalised_block_size_x && dy == 0) || (dy == self.normalised_block_size_y
            && dx == 0)
    }

    pub fn is_neighbour(&self, other: &Block) -> (r: bool)
        ensures
            r == self.neighbours(other),
    {
        let dx = self.top_left_corner.0 as i128 - other.top_left_corner.0 as i128;
        let dy = self.top_left_corner.1 as i128 - other.top_left_corner.1 as i128;
        let x_distance = if dx < 0 {
            -dx
        } else {
            dx
        };
        let y_distance = if dy < 0 {
            -dy
        } else {
            dy
        };
        let horizontal_neighbour = x_distance == self.normalised_block_size_x as i128 && y_distance
            == 0;
        let vertical_neighbour = y_distance == self.normalised_block_size_y as i128 && x_distance
            == 0;
        horizontal_neighbour || vertical_neighbour
    }
}

} // verus!
