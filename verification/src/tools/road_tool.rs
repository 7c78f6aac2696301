use crate::graph::graph_view::{lemma_area_ok_margin, GraphView};
use crate::graph::road_graph::RoadGraph;
use crate::graph::road_graph_events::OnRoadDestroyed;
use crate::grid::grid_area::GridArea;
use crate::grid::grid_cell::GridCell;
use crate::grid::orientation::{GAxis, GDir};
use crate::bounds::{clamp, spec_clamp};
use crate::tools::building_tool::{reach, MAX_TOOL_EXTENT, MAX_TOOL_REACH};
use crate::tools::road_events::{
    RequestIntersection, RequestRoad, RequestRoadBridge, RequestRoadExtend, RequestRoadSplit,
};
use crate::types::road_segment::SegmentView;
use vstd::prelude::*;

verus! {

/// What becomes of a segment that makes room for an intersection: the
/// piece on the side of the smaller coordinates and the piece on the
/// side of the larger, where there is one, and the end of the segment
/// itself.
#[derive(Debug, Clone, Copy, PartialEq, Eq, Structural)]
pub struct RoadSplit {
    pub before: Option<RequestRoad>,
    pub after: Option<RequestRoad>,
    pub destroyed: OnRoadDestroyed,
}

/// What becomes of segments that grow or grow together: the one segment
/// that takes their place, and the end of each of them.
#[derive(Debug, Clone, Copy, PartialEq, Eq, Structural)]
pub struct RoadMerge {
    pub road: RequestRoad,
    pub destroyed: OnRoadDestroyed,
    pub also_destroyed: Option<OnRoadDestroyed>,
}

/// The piece of a segment that lies before `split_area` along the axis
/// of the segment, if the segment starts before it.
pub open spec fn piece_before(segment: SegmentView, split_area: GridArea) -> Option<RequestRoad> {
    match segment.orientation {
        GAxis::Z => if segment.area.min.y < split_area.min.y {
            Some(
                RequestRoad {
                    area: GridArea {
                        min: segment.area.min,
                        max: GridCell { x: segment.area.max.x, y: (split_area.min.y - 1) as i32 },
                    },
                    orientation: GAxis::Z,
                },
            )
        } else {
            None
        },
        GAxis::X => if segment.area.min.x < split_area.min.x {
            Some(
                RequestRoad {
                    area: GridArea {
                        min: segment.area.min,
                        max: GridCell { x: (split_area.min.x - 1) as i32, y: segment.area.max.y },
                    },
                    orientation: GAxis::X,
                },
            )
        } else {
            None
        },
    }
}

/// The piece of a segment that lies after `split_area` along the axis of
/// the segment, if the segment ends after it.
pub open spec fn piece_after(segment: SegmentView, split_area: GridArea) -> Option<RequestRoad> {
    match segment.orientation {
        GAxis::Z => if segment.area.max.y > split_area.max.y {
            Some(
                RequestRoad {
                    area: GridArea {
                        min: GridCell { x: segment.area.min.x, y: (split_area.max.y + 1) as i32 },
                        max: segment.area.max,
                    },
                    orientation: GAxis::Z,
                },
            )
        } else {
            None
        },
        GAxis::X => if segment.area.max.x > split_area.max.x {
            Some(
                RequestRoad {
                    area: GridArea {
                        min: GridCell { x: (split_area.max.x + 1) as i32, y: segment.area.min.y },
                        max: segment.area.max,
                    },
                    orientation: GAxis::X,
                },
            )
        } else {
            None
        },
    }
}

/// What a request to split a segment leads to; nothing where the request
/// names no segment.
pub open spec fn spec_split(graph: GraphView, request: RequestRoadSplit) -> Option<RoadSplit> {
    if graph.segments.contains_key(request.entity) {
        Some(
            RoadSplit {
                before: piece_before(graph.segments[request.entity], request.split_area),
                after: piece_after(graph.segments[request.entity], request.split_area),
                destroyed: OnRoadDestroyed(request.entity),
            },
        )
    } else {
        None
    }
}

/// What a request to extend a segment leads to; nothing where the request
/// names no segment.
pub open spec fn spec_extend(graph: GraphView, request: RequestRoadExtend) -> Option<RoadMerge> {
    if graph.segments.contains_key(request.entity) {
        Some(
            RoadMerge {
                road: RequestRoad {
                    area: graph.segments[request.entity].area.spec_union(request.extension),
                    orientation: graph.segments[request.entity].orientation,
                },
                destroyed: OnRoadDestroyed(request.entity),
                also_destroyed: None,
            },
        )
    } else {
        None
    }
}

/// What a request to bridge two segments leads to; nothing unless the
/// request names two segments.
pub open spec fn spec_bridge(graph: GraphView, request: RequestRoadBridge) -> Option<RoadMerge> {
    if graph.segments.contains_key(request.first) && graph.segments.contains_key(request.second) {
        Some(
            RoadMerge {
                road: RequestRoad {
                    area: graph.segments[request.first].area.spec_union(
                        graph.segments[request.second].area,
                    ),
                    orientation: graph.segments[request.first].orientation,
                },
                destroyed: OnRoadDestroyed(request.first),
                also_destroyed: Some(OnRoadDestroyed(request.second)),
            },
        )
    } else {
        None
    }
}

/// Splits a segment around the area of an intersection: the segment goes,
/// and what is left of it before and after the area, along its axis,
/// comes back as up to two shorter segments.
pub fn split_road(request: &RequestRoadSplit, graph: &RoadGraph) -> (split: Option<RoadSplit>)
    ensures
        split == spec_split(graph@, *request),
{
    let segment = match graph.segment(request.entity) {
        Some(segment) => segment,
        None => {
            return None;
        },
    };
    let split_area = request.split_area;
    let mut before: Option<RequestRoad> = None;
    let mut after: Option<RequestRoad> = None;
    match segment.orientation {
        GAxis::Z => {
            if segment.area.min.y < split_area.min.y {
                let split_max = GridCell::new(
                    segment.area.max.x,
                    split_area.adjacent_bottom().min.y,
                );
                before = Some(
                    RequestRoad::new(GridArea::new(segment.area.min, split_max), GAxis::Z),
                );
            }
            if segment.area.max.y > split_area.max.y {
                let split_min = GridCell::new(segment.area.min.x, split_area.adjacent_top().max.y);
                after = Some(
                    RequestRoad::new(GridArea::new(split_min, segment.area.max), GAxis::Z),
                );
            }
        },
        GAxis::X => {
            if segment.area.min.x < split_area.min.x {
                let split_max = GridCell::new(
                    split_area.adjacent_left().min.x,
                    segment.area.max.y,
                );
                before = Some(
                    RequestRoad::new(GridArea::new(segment.area.min, split_max), GAxis::X),
                );
            }
            if segment.area.max.x > split_area.max.x {
                let split_min = GridCell::new(
                    split_area.adjacent_right().max.x,
                    segment.area.min.y,
                );
                after = Some(
                    RequestRoad::new(GridArea::new(split_min, segment.area.max), GAxis::X),
                );
            }
        },
    }
    Some(RoadSplit { before, after, destroyed: OnRoadDestroyed(request.entity) })
}

/// Extends a segment: the segment goes, and one over the smallest area
/// that holds it and the extension comes in its place.
pub fn extend_road(request: &RequestRoadExtend, graph: &RoadGraph) -> (merge: Option<RoadMerge>)
    ensures
        merge == spec_extend(graph@, *request),
{
    match graph.segment(request.entity) {
        Some(segment) => {
            let extended_area = segment.area.union(request.extension);
            Some(
                RoadMerge {
                    road: RequestRoad::new(extended_area, segment.orientation),
                    destroyed: OnRoadDestroyed(request.entity),
                    also_destroyed: None,
                },
            )
        },
        None => None,
    }
}

/// Bridges two segments: both go, and one over the smallest area that
/// holds both comes in their place, along the axis of the first.
pub fn bridge_road(request: &RequestRoadBridge, graph: &RoadGraph) -> (merge: Option<RoadMerge>)
    ensures
        merge == spec_bridge(graph@, *request),
{
    match graph.segment(request.first) {
        Some(first_segment) => {
            match graph.segment(request.second) {
                Some(second_segment) => {
                    let extended_area = first_segment.area.union(second_segment.area);
                    Some(
                        RoadMerge {
                            road: RequestRoad::new(extended_area, first_segment.orientation),
                            destroyed: OnRoadDestroyed(request.first),
                            also_destroyed: Some(OnRoadDestroyed(request.second)),
                        },
                    )
                },
                None => None,
            }
        },
        None => None,
    }
}

/// Splits each segment that a request names, in the order of the
/// requests.
pub fn split_roads(events: &Vec<RequestRoadSplit>, graph: &RoadGraph) -> (splits: Vec<
    Option<RoadSplit>,
>)
    ensures
        splits@.len() == events@.len(),
        forall|i: int|
            0 <= i < events@.len() ==> #[trigger] splits@[i] == spec_split(graph@, events@[i]),
{
    let mut splits: Vec<Option<RoadSplit>> = Vec::new();
    let mut i: usize = 0;
    while i < events.len()
        invariant
            i <= events@.len(),
            splits@.len() == i,
            forall|j: int| 0 <= j < i ==> #[trigger] splits@[j] == spec_split(graph@, events@[j]),
        decreases events@.len() - i,
    {
        splits.push(split_road(&events[i], graph));
        i = i + 1;
    }
    splits
}

/// Extends each segment that a request names, in the order of the
/// requests.
pub fn extend_roads(events: &Vec<RequestRoadExtend>, graph: &RoadGraph) -> (merges: Vec<
    Option<RoadMerge>,
>)
    ensures
        merges@.len() == events@.len(),
        forall|i: int|
            0 <= i < events@.len() ==> #[trigger] merges@[i] == spec_extend(graph@, events@[i]),
{
    let mut merges: Vec<Option<RoadMerge>> = Vec::new();
    let mut i: usize = 0;
    while i < events.len()
        invariant
            i <= events@.len(),
            merges@.len() == i,
            forall|j: int| 0 <= j < i ==> #[trigger] merges@[j] == spec_extend(graph@, events@[j]),
        decreases events@.len() - i,
    {
        merges.push(extend_road(&events[i], graph));
        i = i + 1;
    }
    merges
}

/// Bridges each pair of segments that a request names, in the order of
/// the requests.
pub fn bridge_roads(events: &Vec<RequestRoadBridge>, graph: &RoadGraph) -> (merges: Vec<
    Option<RoadMerge>,
>)
    ensures
        merges@.len() == events@.len(),
        forall|i: int|
            0 <= i < events@.len() ==> #[trigger] merges@[i] == spec_bridge(graph@, events@[i]),
{
    let mut merges: Vec<Option<RoadMerge>> = Vec::new();
    let mut i: usize = 0;
    while i < events.len()
        invariant
            i <= events@.len(),
            merges@.len() == i,
            forall|j: int| 0 <= j < i ==> #[trigger] merges@[j] == spec_bridge(graph@, events@[j]),
        decreases events@.len() - i,
    {
        merges.push(bridge_road(&events[i], graph));
        i = i + 1;
    }
    merges
}

/// A segment that is split around an area inside it leaves pieces of at
/// least one cell that lie inside the segment, clear of the area and
/// clear of each other, and together with the area's stretch along the
/// axis they make up the segment.
pub proof fn lemma_split_pieces(segment: SegmentView, split_area: GridArea)
    requires
        segment.area.wf(),
        split_area.wf(),
        split_area.within(segment.area),
    ensures
        match piece_before(segment, split_area) {
            Some(piece) => piece.area.wf() && piece.area.within(segment.area)
                && piece.area.disjoint(split_area) && piece.orientation == segment.orientation,
            None => true,
        },
        match piece_after(segment, split_area) {
            Some(piece) => piece.area.wf() && piece.area.within(segment.area)
                && piece.area.disjoint(split_area) && piece.orientation == segment.orientation,
            None => true,
        },
        match (piece_before(segment, split_area), piece_after(segment, split_area)) {
            (Some(first), Some(second)) => first.area.disjoint(second.area),
            _ => true,
        },
        segment.spec_drive_length() == (match piece_before(segment, split_area) {
            Some(piece) => (SegmentView { area: piece.area, ..segment }).spec_drive_length(),
            None => 0,
        }) + (match piece_after(segment, split_area) {
            Some(piece) => (SegmentView { area: piece.area, ..segment }).spec_drive_length(),
            None => 0,
        }) + (SegmentView { area: split_area, ..segment }).spec_drive_length(),
{
}

/// What the road tool finds against one end of a drag.
#[derive(Debug, Clone, Copy, PartialEq, Eq, Structural)]
pub enum Attachment {
    /// Nothing to attach to.
    Free,
    /// A segment across the drag: it is split, and an intersection over
    /// `area` joins it to the new segment.
    Cross { road: u64, area: GridArea },
    /// A segment along the drag and as wide as the tool: it grows.
    Extend { road: u64 },
}

/// The segment that a drag leads to.
#[derive(Debug, Clone, Copy, PartialEq, Eq, Structural)]
pub enum Build {
    /// The drag was over no valid paint area.
    Nothing,
    /// A new segment over the dragged area.
    Road(RequestRoad),
    /// The segment at one end grows over the dragged area.
    Extend(RequestRoadExtend),
    /// The segments at both ends grow together.
    Bridge(RequestRoadBridge),
}

/// What the end of a drag leads to: what was found against the start and
/// against the end of the drag, and the segment to build.
#[derive(Debug, Clone, Copy, PartialEq, Eq, Structural)]
pub struct DragOutcome {
    pub start: Attachment,
    pub end: Attachment,
    pub build: Build,
}

impl Attachment {
    /// The request to split the segment across the drag, if there is one.
    pub fn split_request(&self) -> (request: Option<RequestRoadSplit>)
        ensures
            request == match *self {
                Attachment::Cross { road, area } => Some(
                    RequestRoadSplit { entity: road, split_area: area },
                ),
                _ => None,
            },
    {
        match *self {
            Attachment::Cross { road, area } => Some(RequestRoadSplit::new(road, area)),
            _ => None,
        }
    }

    /// The request for the intersection with the segment across the drag,
    /// if there is one.
    pub fn intersection_request(&self) -> (request: Option<RequestIntersection>)
        ensures
            request == match *self {
                Attachment::Cross { road, area } => Some(RequestIntersection { area }),
                _ => None,
            },
    {
        match *self {
            Attachment::Cross { road: _, area } => Some(RequestIntersection::new(area)),
            _ => None,
        }
    }
}

/// What stands against one end of a drag: the one entity that occupies
/// the whole of `attach_area`, if it is a segment. A segment along
/// another axis than the tool's crosses the drag; one along the same
/// axis and as wide as the tool is extended; any other is left alone.
pub open spec fn spec_attachment(
    graph: GraphView,
    attach_area: GridArea,
    drag_area: GridArea,
    orientation: GAxis,
    width: int,
) -> Attachment {
    match graph.grid.single_entity(attach_area) {
        Some(adjacent) => if graph.segments.contains_key(adjacent) {
            let segment = graph.segments[adjacent];
            if segment.orientation != orientation {
                Attachment::Cross {
                    road: adjacent,
                    area: segment.spec_intersection_area(drag_area),
                }
            } else if segment.spec_drive_width() == width {
                Attachment::Extend { road: adjacent }
            } else {
                Attachment::Free
            }
        } else {
            Attachment::Free
        },
        None => Attachment::Free,
    }
}

/// The segment to build for a drag over a valid paint area: a new one
/// where neither end extends a segment, a bridge where both do, and an
/// extension of the one segment otherwise.
pub open spec fn spec_build(
    start: Attachment,
    end: Attachment,
    drag_area: GridArea,
    orientation: GAxis,
) -> Build {
    match (start, end) {
        (Attachment::Extend { road: first }, Attachment::Extend { road: second }) => Build::Bridge(
            RequestRoadBridge { first, second },
        ),
        (Attachment::Extend { road }, _) => Build::Extend(
            RequestRoadExtend { entity: road, extension: drag_area },
        ),
        (_, Attachment::Extend { road }) => Build::Extend(
            RequestRoadExtend { entity: road, extension: drag_area },
        ),
        _ => Build::Road(RequestRoad { area: drag_area, orientation }),
    }
}

/// What the end of a drag over `drag_area` leads to.
pub open spec fn spec_drag_outcome(
    graph: GraphView,
    drag_area: GridArea,
    start_attach: GridArea,
    end_attach: GridArea,
    orientation: GAxis,
    width: int,
) -> DragOutcome {
    if drag_area.wf() && graph.grid.valid_paint_area(drag_area) {
        let start = spec_attachment(graph, start_attach, drag_area, orientation, width);
        let end = spec_attachment(graph, end_attach, drag_area, orientation, width);
        DragOutcome { start, end, build: spec_build(start, end, drag_area, orientation) }
    } else {
        DragOutcome { start: Attachment::Free, end: Attachment::Free, build: Build::Nothing }
    }
}

/// What stands against one end of a drag.
pub fn attachment(
    graph: &RoadGraph,
    attach_area: GridArea,
    drag_area: GridArea,
    orientation: GAxis,
    width: i32,
) -> (found: Attachment)
    requires
        graph.wf(),
        attach_area.wf(),
    ensures
        found == spec_attachment(graph@, attach_area, drag_area, orientation, width as int),
{
    proof {
        graph.lemma_wf_view();
    }
    match graph.grid().single_entity_in_area(attach_area) {
        Some(adjacent_entity) => {
            match graph.segment(adjacent_entity) {
                Some(adj) => {
                    proof {
                        lemma_area_ok_margin(graph@, adj.area);
                    }
                    if adj.orientation != orientation {
                        let intersection_area = adj.get_intersection_area(drag_area);
                        Attachment::Cross { road: adjacent_entity, area: intersection_area }
                    } else if adj.drive_width() == width {
                        Attachment::Extend { road: adjacent_entity }
                    } else {
                        Attachment::Free
                    }
                },
                None => Attachment::Free,
            }
        },
        None => Attachment::Free,
    }
}

/// The road tool: a strip as wide as the tool around the cell under the
/// pointer and, during a drag, from where the drag started to there,
/// straight along the tool's axis.
#[derive(Debug)]
pub struct RoadTool {
    width: i32,
    ground_cell: GridCell,
    drag_start_cell: GridCell,
    dragging: bool,
    drag_area: GridArea,
    orientation: GAxis,
}

/// What a road tool is to its users.
pub struct RoadToolView {
    pub width: int,
    pub ground_cell: GridCell,
    pub drag_start_cell: GridCell,
    pub dragging: bool,
    pub drag_area: GridArea,
    pub orientation: GAxis,
}

/// The area of `width` by `height` cells around `cell`: the cell is the
/// middle one of an odd extent, and an even extent reaches one cell
/// further towards the larger coordinates.
pub open spec fn spec_area_at(cell: GridCell, width: int, height: int) -> GridArea {
    GridArea {
        min: GridCell {
            x: (cell.x - (width - 1) / 2) as i32,
            y: (cell.y - (height - 1) / 2) as i32,
        },
        max: GridCell { x: (cell.x + width / 2) as i32, y: (cell.y + height / 2) as i32 },
    }
}

impl RoadToolView {
    /// The strip across the axis around `cell`.
    pub open spec fn strip_at(self, cell: GridCell) -> GridArea {
        match self.orientation {
            GAxis::Z => spec_area_at(cell, self.width, 1),
            GAxis::X => spec_area_at(cell, 1, self.width),
        }
    }

    pub open spec fn hover_area(self) -> GridArea {
        self.strip_at(self.ground_cell)
    }

    pub open spec fn drag_start_area(self) -> GridArea {
        self.strip_at(self.drag_start_cell)
    }

    /// The strip where the drag ends: level with the pointer along the
    /// axis, in line with the start of the drag across it.
    pub open spec fn drag_end_area(self) -> GridArea {
        match self.orientation {
            GAxis::Z => self.strip_at(
                GridCell { x: self.drag_start_cell.x, y: self.ground_cell.y },
            ),
            GAxis::X => self.strip_at(
                GridCell { x: self.ground_cell.x, y: self.drag_start_cell.y },
            ),
        }
    }

    /// The area under the tool: the hovered strip, or during a drag
    /// everything from the start of the drag to its end.
    pub open spec fn area(self) -> GridArea {
        if self.dragging {
            self.drag_start_area().spec_union(self.drag_end_area())
        } else {
            self.hover_area()
        }
    }

    /// Whether the drag runs towards the larger coordinates.
    pub open spec fn drags_forward(self) -> bool {
        match self.orientation {
            GAxis::Z => self.drag_end_area().max.y >= self.drag_start_area().max.y,
            GAxis::X => self.drag_end_area().max.x >= self.drag_start_area().max.x,
        }
    }

    /// The strip behind the start of the drag.
    pub open spec fn drag_start_attach_area(self) -> GridArea {
        self.drag_start_area().spec_adjacent(
            match self.orientation {
                GAxis::Z => if self.drags_forward() {
                    GDir::South
                } else {
                    GDir::North
                },
                GAxis::X => if self.drags_forward() {
                    GDir::West
                } else {
                    GDir::East
                },
            },
        )
    }

    /// The strip beyond the end of the drag.
    pub open spec fn drag_end_attach_area(self) -> GridArea {
        self.drag_end_area().spec_adjacent(
            match self.orientation {
                GAxis::Z => if self.drags_forward() {
                    GDir::North
                } else {
                    GDir::South
                },
                GAxis::X => if self.drags_forward() {
                    GDir::East
                } else {
                    GDir::West
                },
            },
        )
    }

    pub open spec fn wf(self) -> bool {
        &&& 2 <= self.width <= MAX_TOOL_EXTENT
        &&& -MAX_TOOL_REACH <= self.ground_cell.x <= MAX_TOOL_REACH
        &&& -MAX_TOOL_REACH <= self.ground_cell.y <= MAX_TOOL_REACH
        &&& -MAX_TOOL_REACH <= self.drag_start_cell.x <= MAX_TOOL_REACH
        &&& -MAX_TOOL_REACH <= self.drag_start_cell.y <= MAX_TOOL_REACH
    }
}

impl View for RoadTool {
    type V = RoadToolView;

    closed spec fn view(&self) -> RoadToolView {
        RoadToolView {
            width: self.width as int,
            ground_cell: self.ground_cell,
            drag_start_cell: self.drag_start_cell,
            dragging: self.dragging,
            drag_area: self.drag_area,
            orientation: self.orientation,
        }
    }
}

impl RoadTool {
    /// A tool two cells wide at the origin, along `Z`, not dragging.
    pub fn new() -> (tool: Self)
        ensures
            tool@.wf(),
            tool@.width == 2,
            tool@.ground_cell == (GridCell { x: 0, y: 0 }),
            tool@.drag_start_cell == (GridCell { x: 0, y: 0 }),
            !tool@.dragging,
            tool@.orientation == GAxis::Z,
            !tool@.drag_area.wf(),
    {
        Self {
            width: 2,
            ground_cell: GridCell::new(0, 0),
            drag_start_cell: GridCell::new(0, 0),
            dragging: false,
            drag_area: GridArea::new(GridCell::new(1, 1), GridCell::new(0, 0)),
            orientation: GAxis::Z,
        }
    }

    fn strip_at(&self, cell: GridCell) -> (area: GridArea)
        requires
            self@.wf(),
            -MAX_TOOL_REACH <= cell.x <= MAX_TOOL_REACH,
            -MAX_TOOL_REACH <= cell.y <= MAX_TOOL_REACH,
        ensures
            area == self@.strip_at(cell),
            area.wf(),
            area.has_margin(),
    {
        match self.orientation {
            GAxis::Z => GridArea::at(cell, self.width, 1),
            GAxis::X => GridArea::at(cell, 1, self.width),
        }
    }

    /// The strip under the pointer.
    pub fn hover_area(&self) -> (area: GridArea)
        requires
            self@.wf(),
        ensures
            area == self@.hover_area(),
            area.wf(),
    {
        self.strip_at(self.ground_cell)
    }

    /// The strip where the drag started.
    pub fn drag_start_area(&self) -> (area: GridArea)
        requires
            self@.wf(),
        ensures
            area == self@.drag_start_area(),
            area.wf(),
            area.has_margin(),
    {
        self.strip_at(self.drag_start_cell)
    }

    /// The strip where the drag ends.
    pub fn drag_end_area(&self) -> (area: GridArea)
        requires
            self@.wf(),
        ensures
            area == self@.drag_end_area(),
            area.wf(),
            area.has_margin(),
    {
        match self.orientation {
            GAxis::Z => self.strip_at(GridCell::new(self.drag_start_cell.x, self.ground_cell.y)),
            GAxis::X => self.strip_at(GridCell::new(self.ground_cell.x, self.drag_start_cell.y)),
        }
    }

    /// The area under the tool.
    pub fn area(&self) -> (area: GridArea)
        requires
            self@.wf(),
        ensures
            area == self@.area(),
            area.wf(),
    {
        if self.dragging {
            self.drag_start_area().union(self.drag_end_area())
        } else {
            self.hover_area()
        }
    }

    /// The strip behind the start of the drag.
    pub fn drag_start_attach_area(&self) -> (area: GridArea)
        requires
            self@.wf(),
        ensures
            area == self@.drag_start_attach_area(),
            area.wf(),
    {
        let start = self.drag_start_area();
        let end = self.drag_end_area();
        match self.orientation {
            GAxis::Z => {
                if end.max.y >= start.max.y {
                    start.adjacent_bottom()
                } else {
                    start.adjacent_top()
                }
            },
            GAxis::X => {
                if end.max.x >= start.max.x {
                    start.adjacent_left()
                } else {
                    start.adjacent_right()
                }
            },
        }
    }

    /// The strip beyond the end of the drag.
    pub fn drag_end_attach_area(&self) -> (area: GridArea)
        requires
            self@.wf(),
        ensures
            area == self@.drag_end_attach_area(),
            area.wf(),
    {
        let start = self.drag_start_area();
        let end = self.drag_end_area();
        match self.orientation {
            GAxis::Z => {
                if end.max.y >= start.max.y {
                    end.adjacent_top()
                } else {
                    end.adjacent_bottom()
                }
            },
            GAxis::X => {
                if end.max.x >= start.max.x {
                    end.adjacent_right()
                } else {
                    end.adjacent_left()
                }
            },
        }
    }

    /// Moves the tool to the cell under the pointer, as far as the tools
    /// follow it. During a drag the dragged area follows.
    pub fn update_ground_position(&mut self, cell: GridCell)
        requires
            old(self)@.wf(),
        ensures
            final(self)@.wf(),
            final(self)@.ground_cell.x == spec_clamp(
                cell.x as int,
                -MAX_TOOL_REACH as int,
                MAX_TOOL_REACH as int,
            ),
            final(self)@.ground_cell.y == spec_clamp(
                cell.y as int,
                -MAX_TOOL_REACH as int,
                MAX_TOOL_REACH as int,
            ),
            final(self)@.drag_area == if old(self)@.dragging {
                final(self)@.area()
            } else {
                old(self)@.drag_area
            },
            final(self)@ == (RoadToolView {
                ground_cell: final(self)@.ground_cell,
                drag_area: final(self)@.drag_area,
                ..old(self)@
            }),
    {
        self.ground_cell = reach(cell);
        let area = self.area();
        if self.dragging {
            self.drag_area = area;
        }
    }

    /// Makes the tool two cells wider, two cells narrower, or both; it
    /// gets no narrower than two cells and no wider than
    /// `MAX_TOOL_EXTENT`.
    pub fn adjust_tool_size(&mut self, widen: bool, narrow: bool)
        requires
            old(self)@.wf(),
        ensures
            final(self)@.wf(),
            final(self)@ == (RoadToolView {
                width: spec_clamp(
                    old(self)@.width + (if widen {
                        2int
                    } else {
                        0int
                    }) - (if narrow {
                        2int
                    } else {
                        0int
                    }),
                    2,
                    MAX_TOOL_EXTENT as int,
                ),
                ..old(self)@
            }),
    {
        let mut width = self.width;
        if widen {
            width = width + 2;
        }
        if narrow {
            width = width - 2;
        }
        self.width = clamp(width, 2, MAX_TOOL_EXTENT);
    }

    /// Turns the tool onto the other axis.
    pub fn change_orientation(&mut self)
        requires
            old(self)@.wf(),
        ensures
            final(self)@.wf(),
            final(self)@ == (RoadToolView {
                orientation: match old(self)@.orientation {
                    GAxis::X => GAxis::Z,
                    GAxis::Z => GAxis::X,
                },
                ..old(self)@
            }),
    {
        self.orientation = match self.orientation {
            GAxis::X => GAxis::Z,
            GAxis::Z => GAxis::X,
        };
    }

    /// Gives the drag up.
    pub fn cancel(&mut self)
        ensures
            final(self)@ == (RoadToolView { dragging: false, ..old(self)@ }),
    {
        self.dragging = false;
    }

    /// A click: it starts a drag at the cell under the pointer, or ends
    /// the drag that is under way. The result is what the end of the drag
    /// leads to, and `None` for a click that starts one.
    pub fn handle_action(&mut self, graph: &RoadGraph) -> (outcome: Option<DragOutcome>)
        requires
            old(self)@.wf(),
            graph.wf(),
        ensures
            final(self)@.wf(),
            !old(self)@.dragging ==> outcome is None && final(self)@ == (RoadToolView {
                dragging: true,
                drag_start_cell: old(self)@.ground_cell,
                ..old(self)@
            }),
            old(self)@.dragging ==> outcome == Some(
                spec_drag_outcome(
                    graph@,
                    old(self)@.drag_area,
                    old(self)@.drag_start_attach_area(),
                    old(self)@.drag_end_attach_area(),
                    old(self)@.orientation,
                    old(self)@.width,
                ),
            ) && final(self)@ == (RoadToolView { dragging: false, ..old(self)@ }),
    {
        if !self.dragging {
            self.dragging = true;
            self.drag_start_cell = self.ground_cell;
            None
        } else {
            Some(self.handle_end_drag(graph))
        }
    }

    /// The end of a drag: over a valid paint area it leads to a new
    /// segment, or to the growth of the segments that it attaches to, and
    /// to a split and an intersection for each segment that it crosses.
    pub fn handle_end_drag(&mut self, graph: &RoadGraph) -> (outcome: DragOutcome)
        requires
            old(self)@.wf(),
            graph.wf(),
        ensures
            outcome == spec_drag_outcome(
                graph@,
                old(self)@.drag_area,
                old(self)@.drag_start_attach_area(),
                old(self)@.drag_end_attach_area(),
                old(self)@.orientation,
                old(self)@.width,
            ),
            final(self)@ == (RoadToolView { dragging: false, ..old(self)@ }),
    {
        let drag_area = self.drag_area;
        let mut outcome = DragOutcome {
            start: Attachment::Free,
            end: Attachment::Free,
            build: Build::Nothing,
        };
        let shaped = drag_area.min.x <= drag_area.max.x && drag_area.min.y <= drag_area.max.y;
        if shaped && graph.grid().is_valid_paint_area(drag_area) {
            let start = attachment(
                graph,
                self.drag_start_attach_area(),
                drag_area,
                self.orientation,
                self.width,
            );
            let end = attachment(
                graph,
                self.drag_end_attach_area(),
                drag_area,
                self.orientation,
                self.width,
            );
            let build = match (start, end) {
                (
                    Attachment::Extend { road: first },
                    Attachment::Extend { road: second },
                ) => Build::Bridge(RequestRoadBridge::new(first, second)),
                (Attachment::Extend { road }, _) => Build::Extend(
                    RequestRoadExtend::new(road, drag_area),
                ),
                (_, Attachment::Extend { road }) => Build::Extend(
                    RequestRoadExtend::new(road, drag_area),
                ),
                _ => Build::Road(RequestRoad::new(drag_area, self.orientation)),
            };
            outcome = DragOutcome { start, end, build };
        }
        self.dragging = false;
        outcome
    }
}

} // verus!
