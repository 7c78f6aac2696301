use vstd::prelude::*;

verus! {

/// A unit square of the grid, addressed by its integer coordinates.
///
/// `x` runs along the world's X axis and `y` along the world's Z axis.
#[derive(Copy, Clone, Debug, PartialEq, Eq, Structural)]
pub struct GridCell {
    pub x: i32,
    pub y: i32,
}

impl GridCell {
    pub fn new(x: i32, y: i32) -> (cell: Self)
        ensures
            cell.x == x,
            cell.y == y,
    {
        Self { x, y }
    }
}

} // verus!
