use vstd::prelude::*;

verus! {

/// The axis along which a road segment runs.
///
/// A segment on `Z` runs north-south (along the grid's `y`), a segment on
/// `X` runs west-east (along the grid's `x`).
#[derive(Copy, Clone, PartialEq, Eq, Debug, Structural)]
pub enum GAxis {
    X,
    Z,
}

/// A compass direction on the grid.
///
/// As a heading (`unit_step`), north is towards larger `y` and west
/// towards larger `x`. As the name of a side of an area
/// (`GridArea::adjacent`), north is the side of larger `y` and west the
/// side of smaller `x`.
#[derive(Clone, Copy, PartialEq, Eq, Debug, Structural)]
pub enum GDir {
    North,
    South,
    West,
    East,
}

impl Default for GAxis {
    fn default() -> (axis: Self)
        ensures
            axis == GAxis::X,
    {
        GAxis::X
    }
}

impl GAxis {
    /// The direction in which end `end` of a segment on this axis points:
    /// end 0 is the northern or western one, end 1 the southern or eastern.
    pub open spec fn spec_end_direction(self, end: int) -> GDir {
        match self {
            GAxis::Z => if end == 0 { GDir::North } else { GDir::South },
            GAxis::X => if end == 0 { GDir::West } else { GDir::East },
        }
    }

    pub fn end_direction(&self, end: usize) -> (dir: GDir)
        requires
            end < 2,
        ensures
            dir == self.spec_end_direction(end as int),
            dir.spec_axis() == *self,
            dir.spec_binary_index() == end,
    {
        match self {
            GAxis::Z => if end == 0 { GDir::North } else { GDir::South },
            GAxis::X => if end == 0 { GDir::West } else { GDir::East },
        }
    }
}

impl GDir {
    pub open spec fn spec_inverse(self) -> GDir {
        match self {
            GDir::North => GDir::South,
            GDir::South => GDir::North,
            GDir::West => GDir::East,
            GDir::East => GDir::West,
        }
    }

    pub open spec fn spec_index(self) -> int {
        match self {
            GDir::North => 0,
            GDir::South => 1,
            GDir::West => 2,
            GDir::East => 3,
        }
    }

    pub open spec fn spec_binary_index(self) -> int {
        match self {
            GDir::North => 0,
            GDir::South => 1,
            GDir::West => 0,
            GDir::East => 1,
        }
    }

    pub open spec fn spec_axis(self) -> GAxis {
        match self {
            GDir::North => GAxis::Z,
            GDir::South => GAxis::Z,
            GDir::West => GAxis::X,
            GDir::East => GAxis::X,
        }
    }

    /// The direction with slot number `index`; the inverse of `spec_index`.
    pub open spec fn spec_from_index(index: int) -> GDir {
        if index == 0 {
            GDir::North
        } else if index == 1 {
            GDir::South
        } else if index == 2 {
            GDir::West
        } else {
            GDir::East
        }
    }

    /// The opposite direction.
    pub fn inverse(&self) -> (dir: GDir)
        ensures
            dir == self.spec_inverse(),
    {
        match *self {
            GDir::North => GDir::South,
            GDir::South => GDir::North,
            GDir::West => GDir::East,
            GDir::East => GDir::West,
        }
    }

    /// The slot of an intersection that faces this direction.
    pub fn index(&self) -> (index: usize)
        ensures
            index == self.spec_index(),
            index < 4,
    {
        match *self {
            GDir::North => 0,
            GDir::South => 1,
            GDir::West => 2,
            GDir::East => 3,
        }
    }

    /// The end of a road segment that points in this direction.
    pub fn binary_index(&self) -> (index: usize)
        ensures
            index == self.spec_binary_index(),
            index < 2,
    {
        match *self {
            GDir::North => 0,
            GDir::South => 1,
            GDir::West => 0,
            GDir::East => 1,
        }
    }

    /// The axis that this direction lies on.
    pub fn axis(&self) -> (axis: GAxis)
        ensures
            axis == self.spec_axis(),
    {
        match *self {
            GDir::North => GAxis::Z,
            GDir::South => GAxis::Z,
            GDir::West => GAxis::X,
            GDir::East => GAxis::X,
        }
    }

    /// The direction that belongs to an intersection slot.
    pub fn from_index(index: usize) -> (dir: GDir)
        requires
            index < 4,
        ensures
            dir == Self::spec_from_index(index as int),
            dir.spec_index() == index,
    {
        if index == 0 {
            GDir::North
        } else if index == 1 {
            GDir::South
        } else if index == 2 {
            GDir::West
        } else {
            GDir::East
        }
    }

    /// One step in this direction, as a change of the grid's `(x, y)`.
    pub fn unit_step(&self) -> (step: (i32, i32))
        ensures
            step == match *self {
                GDir::North => (0i32, 1i32),
                GDir::South => (0i32, -1i32),
                GDir::West => (1i32, 0i32),
                GDir::East => (-1i32, 0i32),
            },
    {
        match *self {
            GDir::North => (0, 1),
            GDir::South => (0, -1),
            GDir::West => (1, 0),
            GDir::East => (-1, 0),
        }
    }
}

} // verus!
