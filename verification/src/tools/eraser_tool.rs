use crate::graph::graph_view::GraphView;
use crate::graph::road_graph::{NodeKind, RoadGraph};
use crate::grid::grid_area::{lemma_cell_count, GridArea};
use crate::grid::grid_cell::GridCell;
use crate::bounds::spec_clamp;
use crate::tools::building_tool::{BuildingTool, MAX_TOOL_EXTENT, MAX_TOOL_REACH};
use vstd::prelude::*;

verus! {

/// The tool that erases: a square-cornered area around the cell under
/// the pointer, which grows and shrinks in width and height alike.
#[derive(Debug)]
pub struct EraserTool {
    footprint: BuildingTool,
}

impl EraserTool {
    pub closed spec fn width(&self) -> int {
        self.footprint.width()
    }

    pub closed spec fn height(&self) -> int {
        self.footprint.height()
    }

    pub closed spec fn ground_cell(&self) -> GridCell {
        self.footprint.ground_cell()
    }

    pub closed spec fn wf(&self) -> bool {
        self.footprint.wf()
    }

    /// A tool of one cell at the origin.
    pub fn new() -> (tool: Self)
        ensures
            tool.wf(),
            tool.width() == 1,
            tool.height() == 1,
            tool.ground_cell() == (GridCell { x: 0, y: 0 }),
    {
        Self { footprint: BuildingTool::new() }
    }

    /// Moves the tool to the cell under the pointer.
    pub fn update_ground_position(&mut self, cell: GridCell)
        requires
            old(self).wf(),
        ensures
            final(self).wf(),
            final(self).width() == old(self).width(),
            final(self).height() == old(self).height(),
            final(self).ground_cell().x == spec_clamp(
                cell.x as int,
                -MAX_TOOL_REACH as int,
                MAX_TOOL_REACH as int,
            ),
            final(self).ground_cell().y == spec_clamp(
                cell.y as int,
                -MAX_TOOL_REACH as int,
                MAX_TOOL_REACH as int,
            ),
    {
        self.footprint.update_ground_position(cell);
    }

    /// Grows the tool by `grow` cells in width and in height; neither
    /// gets below one cell nor above `MAX_TOOL_EXTENT`.
    pub fn adjust_tool_size(&mut self, grow: i32)
        requires
            old(self).wf(),
            -MAX_TOOL_EXTENT <= grow <= MAX_TOOL_EXTENT,
        ensures
            final(self).wf(),
            final(self).ground_cell() == old(self).ground_cell(),
            final(self).width() == spec_clamp(old(self).width() + grow, 1, MAX_TOOL_EXTENT as int),
            final(self).height() == spec_clamp(
                old(self).height() + grow,
                1,
                MAX_TOOL_EXTENT as int,
            ),
    {
        self.footprint.adjust_tool_size(grow, grow);
    }

    /// The area that the tool covers.
    pub fn area(&self) -> (area: GridArea)
        requires
            self.wf(),
        ensures
            area.wf(),
            area.width() == self.width(),
            area.height() == self.height(),
            area.min.x == self.ground_cell().x - (self.width() - 1) / 2,
            area.min.y == self.ground_cell().y - (self.height() - 1) / 2,
    {
        self.footprint.area()
    }
}

/// A record that the eraser has swept over.
#[derive(Debug, Clone, Copy, PartialEq, Eq, Structural)]
pub enum Erased {
    Building(u64),
    Road(u64),
    Intersection(u64),
}

/// What the eraser finds in `cell`: the record that occupies it, by its
/// kind. A building is looked for first, then a segment, then an
/// intersection.
pub open spec fn erased_in(graph: GraphView, cell: GridCell) -> Option<Erased> {
    if !graph.grid.in_bounds(cell) {
        None
    } else {
        match graph.grid.occupant(cell) {
            Some(entity) => if graph.buildings.contains_key(entity) {
                Some(Erased::Building(entity))
            } else if graph.segments.contains_key(entity) {
                Some(Erased::Road(entity))
            } else if graph.intersections.contains_key(entity) {
                Some(Erased::Intersection(entity))
            } else {
                None
            },
            None => None,
        }
    }
}

/// What the eraser finds in `cells`, cell by cell: a record comes as
/// often as it has cells among them.
pub open spec fn erased_over(graph: GraphView, cells: Seq<GridCell>) -> Seq<Erased>
    decreases cells.len(),
{
    if cells.len() == 0 {
        Seq::empty()
    } else {
        let before = erased_over(graph, cells.drop_last());
        match erased_in(graph, cells.last()) {
            Some(erased) => before.push(erased),
            None => before,
        }
    }
}

/// The records that a sweep of the eraser over `area` destroys, cell by
/// cell in the order of the walk over the area.
pub fn handle_tool_action(graph: &RoadGraph, area: GridArea) -> (found: Vec<Erased>)
    requires
        graph.wf(),
        area.wf(),
    ensures
        found@ == erased_over(graph@, area.cells()),
{
    let mut found: Vec<Erased> = Vec::new();
    let mut walk = area.iter();
    proof {
        lemma_cell_count(area);
        assert(area.cells().take(0) =~= Seq::<GridCell>::empty());
    }
    loop
        invariant
            graph.wf(),
            area.wf(),
            walk.wf(),
            walk.area() == area,
            0 <= walk.position() <= area.cell_count(),
            area.cells().len() == area.cell_count(),
            found@ == erased_over(graph@, area.cells().take(walk.position())),
        ensures
            walk.position() == area.cell_count(),
        decreases area.cell_count() - walk.position(),
    {
        let ghost position = walk.position();
        match walk.next() {
            Some(cell) => {
                proof {
                    assert(area.cells().take(position + 1).drop_last() =~= area.cells().take(
                        position,
                    ));
                    assert(area.cells().take(position + 1).last() == cell);
                }
                match graph.grid().entity_at(cell) {
                    Ok(Some(entity)) => {
                        if graph.building(entity).is_some() {
                            found.push(Erased::Building(entity));
                        } else if graph.segment(entity).is_some() {
                            found.push(Erased::Road(entity));
                        } else if graph.intersection(entity).is_some() {
                            found.push(Erased::Intersection(entity));
                        }
                    },
                    Ok(None) => {},
                    Err(_) => {},
                }
            },
            None => {
                break ;
            },
        }
    }
    proof {
        assert(area.cells().take(area.cells().len() as int) =~= area.cells());
    }
    found
}

} // verus!
