use crate::bounds::{clamp, spec_clamp};
use crate::grid::grid_area::GridArea;
use crate::grid::grid_cell::GridCell;
use vstd::prelude::*;

verus! {

/// The widest and the highest that the tool's area can get.
pub const MAX_TOOL_EXTENT: i32 = 0x10000;

/// The farthest from the origin that the tool follows the pointer.
pub const MAX_TOOL_REACH: i32 = 0x2000_0000;

/// A building is wanted over `area`.
#[derive(Debug, Clone, Copy, PartialEq, Eq, Structural)]
pub struct RequestBuilding {
    pub area: GridArea,
}

impl RequestBuilding {
    pub fn new(area: GridArea) -> (request: Self)
        ensures
            request == (RequestBuilding { area }),
    {
        Self { area }
    }
}

/// The cell under the pointer, as far as the tools follow it: each of its
/// coordinates is brought to within `MAX_TOOL_REACH` of the origin.
pub fn reach(cell: GridCell) -> (reached: GridCell)
    ensures
        reached.x == spec_clamp(cell.x as int, -MAX_TOOL_REACH as int, MAX_TOOL_REACH as int),
        reached.y == spec_clamp(cell.y as int, -MAX_TOOL_REACH as int, MAX_TOOL_REACH as int),
{
    GridCell::new(
        clamp(cell.x, -MAX_TOOL_REACH, MAX_TOOL_REACH),
        clamp(cell.y, -MAX_TOOL_REACH, MAX_TOOL_REACH),
    )
}

/// The tool that places buildings: an area of some width and height
/// around the cell under the pointer.
#[derive(Debug)]
pub struct BuildingTool {
    width: i32,
    height: i32,
    ground_cell: GridCell,
}

impl BuildingTool {
    pub closed spec fn width(&self) -> int {
        self.width as int
    }

    pub closed spec fn height(&self) -> int {
        self.height as int
    }

    pub closed spec fn ground_cell(&self) -> GridCell {
        self.ground_cell
    }

    /// The tool's extents and the place of the pointer are in range.
    pub closed spec fn wf(&self) -> bool {
        &&& 1 <= self.width <= MAX_TOOL_EXTENT
        &&& 1 <= self.height <= MAX_TOOL_EXTENT
        &&& -MAX_TOOL_REACH <= self.ground_cell.x <= MAX_TOOL_REACH
        &&& -MAX_TOOL_REACH <= self.ground_cell.y <= MAX_TOOL_REACH
    }

    /// A tool of one cell at the origin.
    pub fn new() -> (tool: Self)
        ensures
            tool.wf(),
            tool.width() == 1,
            tool.height() == 1,
            tool.ground_cell() == (GridCell { x: 0, y: 0 }),
    {
        Self { width: 1, height: 1, ground_cell: GridCell::new(0, 0) }
    }

    /// Moves the tool to the cell under the pointer.
    pub fn update_ground_position(&mut self, cell: GridCell)
        requires
            old(self).wf(),
        ensures
            final(self).wf(),
            final(self).width() == old(self).width(),
            final(self).height() == old(self).height(),
            final(self).ground_cell().x == spec_clamp(
                cell.x as int,
                -MAX_TOOL_REACH as int,
                MAX_TOOL_REACH as int,
            ),
            final(self).ground_cell().y == spec_clamp(
                cell.y as int,
                -MAX_TOOL_REACH as int,
                MAX_TOOL_REACH as int,
            ),
    {
        self.ground_cell = reach(cell);
    }

    /// Changes the extents of the tool by `widen` cells in width and by
    /// `heighten` cells in height; neither gets below one cell nor above
    /// `MAX_TOOL_EXTENT`.
    pub fn adjust_tool_size(&mut self, widen: i32, heighten: i32)
        requires
            old(self).wf(),
            -MAX_TOOL_EXTENT <= widen <= MAX_TOOL_EXTENT,
            -MAX_TOOL_EXTENT <= heighten <= MAX_TOOL_EXTENT,
        ensures
            final(self).wf(),
            final(self).ground_cell() == old(self).ground_cell(),
            final(self).width() == spec_clamp(
                old(self).width() + widen,
                1,
                MAX_TOOL_EXTENT as int,
            ),
            final(self).height() == spec_clamp(
                old(self).height() + heighten,
                1,
                MAX_TOOL_EXTENT as int,
            ),
    {
        self.width = clamp(self.width + widen, 1, MAX_TOOL_EXTENT);
        self.height = clamp(self.height + heighten, 1, MAX_TOOL_EXTENT);
    }

    /// The area that the tool covers.
    pub fn area(&self) -> (area: GridArea)
        requires
            self.wf(),
        ensures
            area.wf(),
            area.width() == self.width(),
            area.height() == self.height(),
            area.min.x == self.ground_cell().x - (self.width() - 1) / 2,
            area.min.y == self.ground_cell().y - (self.height() - 1) / 2,
    {
        GridArea::at(self.ground_cell, self.width, self.height)
    }

    /// The request that a click makes: a building over the tool's area.
    pub fn handle_tool_action(&self) -> (request: RequestBuilding)
        requires
            self.wf(),
        ensures
            request.area.wf(),
            request.area.width() == self.width(),
            request.area.height() == self.height(),
            request.area.min.x == self.ground_cell().x - (self.width() - 1) / 2,
            request.area.min.y == self.ground_cell().y - (self.height() - 1) / 2,
    {
        RequestBuilding::new(self.area())
    }
}

} // verus!
