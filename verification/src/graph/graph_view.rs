use crate::grid::grid::{GridView, MAX_GRID_RADIUS};
use crate::grid::grid_area::GridArea;
use crate::grid::grid_cell::GridCell;
use crate::grid::orientation::{GAxis, GDir};
use crate::types::building::BuildingView;
use crate::types::intersection::IntersectionView;
use crate::types::road_segment::SegmentView;
use vstd::prelude::*;

verus! {

/// The slot of an intersection that a segment on `axis` takes with its
/// end `end`: the slot of the side that faces the segment.
pub open spec fn end_slot(axis: GAxis, end: int) -> int {
    axis.spec_end_direction(end).spec_inverse().spec_index()
}

/// The end with which a segment lies against the side `slot` of an
/// intersection.
pub open spec fn slot_end(slot: int) -> int {
    GDir::spec_from_index(slot).spec_inverse().spec_binary_index()
}

/// `other` has a cell in the strip that lies against the side `dir` of
/// `area`.
pub open spec fn touching(area: GridArea, dir: GDir, other: GridArea) -> bool {
    !area.spec_adjacent(dir).disjoint(other)
}

/// What the road network is to its users: the grid, and the segments,
/// intersections and buildings by their handles.
pub struct GraphView {
    pub grid: GridView,
    pub segments: Map<u64, SegmentView>,
    pub intersections: Map<u64, IntersectionView>,
    pub buildings: Map<u64, BuildingView>,
}

impl GraphView {
    pub open spec fn is_record(self, entity: u64) -> bool {
        self.segments.contains_key(entity) || self.intersections.contains_key(entity)
            || self.buildings.contains_key(entity)
    }

    /// The area of the record `entity`.
    pub open spec fn area_of(self, entity: u64) -> GridArea {
        if self.segments.contains_key(entity) {
            self.segments[entity].area
        } else if self.intersections.contains_key(entity) {
            self.intersections[entity].area
        } else {
            self.buildings[entity].area
        }
    }

    /// The record `entity` occupies every cell of its area.
    pub open spec fn placed(self, entity: u64) -> bool {
        self.grid.uniform(self.area_of(entity), entity)
    }

    /// An area of at least one cell that lies inside the grid.
    pub open spec fn area_ok(self, area: GridArea) -> bool {
        area.wf() && self.grid.in_bounds(area.min) && self.grid.in_bounds(area.max)
    }

    /// No handle names two records.
    pub open spec fn kinds_disjoint(self) -> bool {
        forall|entity: u64|
            #![trigger self.segments.contains_key(entity)]
            #![trigger self.intersections.contains_key(entity)]
            #![trigger self.buildings.contains_key(entity)]
            {
                &&& !(self.segments.contains_key(entity) && self.intersections.contains_key(
                    entity,
                ))
                &&& !(self.segments.contains_key(entity) && self.buildings.contains_key(entity))
                &&& !(self.intersections.contains_key(entity) && self.buildings.contains_key(
                    entity,
                ))
            }
    }

    /// A segment has two ends, an intersection four slots, and every
    /// record an area inside the grid.
    pub open spec fn records_shaped(self) -> bool {
        &&& forall|entity: u64| #[trigger]
            self.segments.contains_key(entity) ==> self.segments[entity].ends.len() == 2
                && self.area_ok(self.segments[entity].area)
        &&& forall|entity: u64| #[trigger]
            self.intersections.contains_key(entity) ==> self.intersections[entity].roads.len()
                == 4 && self.area_ok(self.intersections[entity].area)
        &&& forall|entity: u64| #[trigger]
            self.buildings.contains_key(entity) ==> self.area_ok(self.buildings[entity].area)
    }

    /// The record `entity` occupies its whole area or no cell at all.
    pub open spec fn all_or_nothing(self, entity: u64) -> bool {
        self.placed(entity) || !self.grid.holds(entity)
    }

    /// Whatever occupies a cell is a record whose area holds the cell,
    /// and a record occupies its whole area or nothing.
    pub open spec fn occupancy_ok(self) -> bool {
        &&& forall|cell: GridCell| #[trigger]
            self.grid.occupied.contains_key(cell) ==> self.is_record(self.grid.occupied[cell])
                && self.area_of(self.grid.occupied[cell]).contains(cell)
        &&& forall|entity: u64| self.is_record(entity) ==> #[trigger] self.all_or_nothing(entity)
    }

    /// What end `end` of the segment `road` points to is an intersection
    /// that lies against that end and holds the segment in the slot that
    /// faces it; both occupy their areas.
    pub open spec fn end_ok(self, road: u64, end: int) -> bool {
        match self.segments[road].ends[end] {
            Some(node) => {
                &&& self.intersections.contains_key(node)
                &&& self.intersections[node].roads[end_slot(
                    self.segments[road].orientation,
                    end,
                )] == Some(road)
                &&& touching(
                    self.segments[road].area,
                    self.segments[road].orientation.spec_end_direction(end),
                    self.intersections[node].area,
                )
                &&& self.placed(road)
                &&& self.placed(node)
            },
            None => true,
        }
    }

    /// What slot `slot` of the intersection `node` holds is a segment
    /// along the axis of that side, whose end towards the intersection
    /// points to it.
    pub open spec fn slot_ok(self, node: u64, slot: int) -> bool {
        match self.intersections[node].roads[slot] {
            Some(road) => {
                &&& self.segments.contains_key(road)
                &&& self.segments[road].orientation == GDir::spec_from_index(slot).spec_axis()
                &&& self.segments[road].ends[slot_end(slot)] == Some(node)
            },
            None => true,
        }
    }

    /// Segments and intersections point to each other.
    pub open spec fn ends_linked(self) -> bool {
        &&& forall|road: u64, end: int|
            self.segments.contains_key(road) && 0 <= end < 2 ==> #[trigger] self.end_ok(
                road,
                end,
            )
        &&& forall|node: u64, slot: int|
            self.intersections.contains_key(node) && 0 <= slot < 4 ==> #[trigger] self.slot_ok(
                node,
                slot,
            )
    }

    /// Segments and buildings point to each other.
    pub open spec fn dests_linked(self) -> bool {
        &&& forall|road: u64, building: u64|
            self.segments.contains_key(road) && #[trigger] self.segments[road].dests.contains(
                building,
            ) ==> self.buildings.contains_key(building) && self.buildings[building].roads.contains(
                road,
            )
        &&& forall|building: u64, road: u64|
            self.buildings.contains_key(building)
                && #[trigger] self.buildings[building].roads.contains(road)
                ==> self.segments.contains_key(road) && self.segments[road].dests.contains(
                building,
            )
    }

    /// The network is consistent.
    pub open spec fn wf(self) -> bool {
        &&& self.grid.wf()
        &&& self.grid.radius <= MAX_GRID_RADIUS
        &&& self.kinds_disjoint()
        &&& self.records_shaped()
        &&& self.occupancy_ok()
        &&& self.ends_linked()
        &&& self.dests_linked()
    }

    /// The two records are joined by a link: a building and a segment
    /// along it, or a segment and an intersection at one of its ends.
    pub open spec fn adjacent(self, from: u64, to: u64) -> bool {
        ||| self.buildings.contains_key(from) && self.buildings[from].roads.contains(to)
        ||| self.segments.contains_key(from) && self.segments[from].dests.contains(to)
        ||| self.segments.contains_key(from) && exists|end: int|
            0 <= end < self.segments[from].ends.len() && #[trigger] self.segments[from].ends[end]
                == Some(to)
        ||| self.intersections.contains_key(from) && exists|slot: int|
            0 <= slot < self.intersections[from].roads.len()
                && #[trigger] self.intersections[from].roads[slot] == Some(to)
    }
}

/// Two records that occupy their areas and are not the same have areas
/// that share no cell.
pub proof fn lemma_placed_disjoint(graph: GraphView, first: u64, second: u64)
    requires
        graph.placed(first),
        graph.placed(second),
        first != second,
        graph.area_of(first).wf(),
        graph.area_of(second).wf(),
    ensures
        graph.area_of(first).disjoint(graph.area_of(second)),
{
    let a = graph.area_of(first);
    let b = graph.area_of(second);
    if !a.disjoint(b) {
        let cell = GridCell {
            x: if a.min.x >= b.min.x { a.min.x } else { b.min.x },
            y: if a.min.y >= b.min.y { a.min.y } else { b.min.y },
        };
        assert(a.contains(cell));
        assert(b.contains(cell));
    }
}

/// A strip against a side of `area` that one entity occupies lies
/// inside the area of that entity, which therefore touches that side.
pub proof fn lemma_uniform_strip_touches(graph: GraphView, area: GridArea, dir: GDir, entity: u64)
    requires
        graph.wf(),
        graph.area_ok(area),
        graph.grid.uniform(area.spec_adjacent(dir), entity),
    ensures
        graph.is_record(entity),
        graph.placed(entity),
        area.spec_adjacent(dir).within(graph.area_of(entity)),
        touching(area, dir, graph.area_of(entity)),
{
    let strip = area.spec_adjacent(dir);
    assert(strip.contains(strip.min));
    assert(strip.contains(strip.max));
    assert(graph.grid.occupant(strip.min) == Some(entity));
    assert(graph.grid.occupant(strip.max) == Some(entity));
    assert(graph.grid.occupied.contains_key(strip.min));
    assert(graph.grid.occupied.contains_key(strip.max));
    assert(graph.all_or_nothing(entity));
    assert(graph.grid.holds(entity));
}

/// An area that touches two opposite sides of another shares a cell
/// with it.
pub proof fn lemma_opposite_touch_overlaps(area: GridArea, dir: GDir, other: GridArea)
    requires
        area.wf(),
        area.has_margin(),
        other.wf(),
        touching(area, dir, other),
        touching(area, dir.spec_inverse(), other),
    ensures
        !area.disjoint(other),
{
}

/// Where the strip against the side `dir` of `node` lies inside `road`
/// and the two share no cell, `node` touches the opposite side of
/// `road`.
pub proof fn lemma_covered_strip_touches_back(node: GridArea, dir: GDir, road: GridArea)
    requires
        node.wf(),
        node.has_margin(),
        road.wf(),
        road.has_margin(),
        node.spec_adjacent(dir).within(road),
        node.disjoint(road),
    ensures
        touching(road, dir.spec_inverse(), node),
{
}

/// A valid grid's areas have room for the strips around them.
pub proof fn lemma_area_ok_margin(graph: GraphView, area: GridArea)
    requires
        graph.grid.wf(),
        graph.grid.radius <= MAX_GRID_RADIUS,
        graph.area_ok(area),
    ensures
        area.has_margin(),
        area.width() <= i32::MAX,
        area.height() <= i32::MAX,
        forall|cell: GridCell| area.contains(cell) ==> graph.grid.in_bounds(cell),
{
}

/// In a consistent network the intersection at an end of a segment
/// holds the segment in exactly one slot: the slot of the side that
/// faces the segment.
pub proof fn lemma_end_symmetry(graph: GraphView, road: u64, end: int)
    requires
        graph.wf(),
        graph.segments.contains_key(road),
        0 <= end < 2,
        graph.segments[road].ends[end] is Some,
    ensures
        graph.intersections.contains_key(graph.segments[road].ends[end].unwrap()),
        forall|slot: int|
            0 <= slot < 4 ==> (graph.intersections[graph.segments[road].ends[end].unwrap()].roads[slot]
                == Some(road) <==> slot == end_slot(graph.segments[road].orientation, end)),
{
    let node = graph.segments[road].ends[end].unwrap();
    let segment = graph.segments[road];
    assert(graph.end_ok(road, end));
    assert forall|slot: int| 0 <= slot < 4 && graph.intersections[node].roads[slot] == Some(
        road,
    ) implies slot == end_slot(segment.orientation, end) by {
        if slot != end_slot(segment.orientation, end) {
            assert(graph.slot_ok(node, slot));
            assert(slot_end(slot) == 1 - end);
            assert(graph.end_ok(road, 1 - end));
            let dir = segment.orientation.spec_end_direction(end);
            assert(segment.orientation.spec_end_direction(1 - end) == dir.spec_inverse());
            lemma_area_ok_margin(graph, segment.area);
            lemma_opposite_touch_overlaps(segment.area, dir, graph.intersections[node].area);
            assert(graph.area_of(road) == segment.area);
            assert(graph.area_of(node) == graph.intersections[node].area);
            lemma_placed_disjoint(graph, road, node);
        }
    }
}

impl GraphView {
    /// A network on an empty grid of the given radius, without records.
    pub open spec fn empty(radius: int) -> GraphView {
        GraphView {
            grid: GridView { radius, occupied: Map::empty() },
            segments: Map::empty(),
            intersections: Map::empty(),
            buildings: Map::empty(),
        }
    }

    /// Whether a record for `entity` may be made on `area`: the area is
    /// a valid paint area and the handle is free.
    pub open spec fn can_spawn(self, entity: u64, area: GridArea) -> bool {
        area.wf() && self.grid.valid_paint_area(area) && !self.is_record(entity)
    }

    /// The network after a new segment has taken `area`.
    pub open spec fn with_segment(self, entity: u64, area: GridArea, axis: GAxis) -> GraphView {
        GraphView {
            grid: self.grid.mark(area, entity),
            segments: self.segments.insert(entity, SegmentView::fresh(area, axis)),
            ..self
        }
    }

    /// The network after a new intersection has taken `area`.
    pub open spec fn with_intersection(self, entity: u64, area: GridArea) -> GraphView {
        GraphView {
            grid: self.grid.mark(area, entity),
            intersections: self.intersections.insert(entity, IntersectionView::fresh(area)),
            ..self
        }
    }

    /// The network after a new building has taken `area`.
    pub open spec fn with_building(self, entity: u64, area: GridArea) -> GraphView {
        GraphView {
            grid: self.grid.mark(area, entity),
            buildings: self.buildings.insert(entity, BuildingView::fresh(area)),
            ..self
        }
    }
}

/// An empty network is consistent.
pub proof fn lemma_empty_wf(radius: int)
    requires
        0 <= radius <= MAX_GRID_RADIUS,
    ensures
        GraphView::empty(radius).wf(),
{
}

/// What marking a free area does to the records that are there: each
/// keeps the cells it had.
proof fn lemma_mark_keeps_occupancy(graph: GraphView, after: GraphView, entity: u64, area: GridArea)
    requires
        graph.wf(),
        graph.can_spawn(entity, area),
        after.grid == graph.grid.mark(area, entity),
        after.is_record(entity),
        after.area_of(entity) == area,
        forall|other: u64|
            other != entity ==> after.is_record(other) == graph.is_record(other)
                && after.area_of(other) == graph.area_of(other),
    ensures
        after.grid.wf(),
        after.occupancy_ok(),
        forall|other: u64|
            other != entity && graph.placed(other) ==> #[trigger] after.placed(other),
{
    crate::grid::grid::lemma_mark_occupies(graph.grid, area, entity);
    assert forall|other: u64| other != entity && graph.placed(other) implies #[trigger] after.placed(
        other,
    ) by {
        assert forall|cell: GridCell| #[trigger] graph.area_of(other).contains(cell) implies after.grid.occupant(
            cell,
        ) == Some(other) by {
            assert(graph.grid.occupant(cell) == Some(other));
            if area.contains(cell) {
                assert(graph.grid.occupant(cell) is None);
            }
        }
    }
    assert forall|cell: GridCell| #[trigger]
        after.grid.occupied.contains_key(cell) implies after.is_record(after.grid.occupied[cell])
        && after.area_of(after.grid.occupied[cell]).contains(cell) by {
        if area.contains(cell) {
        } else {
            assert(graph.grid.occupied.contains_key(cell));
            let holder = graph.grid.occupied[cell];
            assert(graph.grid.occupant(cell) == Some(holder));
            assert(graph.grid.holds(holder));
        }
    }
    assert forall|other: u64| after.is_record(other) implies #[trigger] after.all_or_nothing(
        other,
    ) by {
        if other == entity {
            assert(after.placed(entity));
        } else {
            assert(graph.all_or_nothing(other));
            if graph.placed(other) {
                assert(after.placed(other));
            } else {
                assert forall|cell: GridCell| #[trigger] after.grid.occupant(cell) != Some(
                    other,
                ) by {
                    if !area.contains(cell) {
                        assert(graph.grid.occupant(cell) != Some(other));
                    }
                }
            }
        }
    }
}

/// A new segment on a valid paint area keeps the network consistent.
pub proof fn lemma_with_segment_wf(graph: GraphView, entity: u64, area: GridArea, axis: GAxis)
    requires
        graph.wf(),
        graph.can_spawn(entity, area),
    ensures
        graph.with_segment(entity, area, axis).wf(),
{
    let after = graph.with_segment(entity, area, axis);
    assert(area.contains(area.min) && area.contains(area.max));
    lemma_mark_keeps_occupancy(graph, after, entity, area);
    assert forall|road: u64, end: int|
        after.segments.contains_key(road) && 0 <= end < 2 implies #[trigger] after.end_ok(
        road,
        end,
    ) by {
        if road != entity {
            assert(graph.end_ok(road, end));
        }
    }
    assert forall|node: u64, slot: int|
        after.intersections.contains_key(node) && 0 <= slot < 4 implies #[trigger] after.slot_ok(
        node,
        slot,
    ) by {
        assert(graph.slot_ok(node, slot));
    }
}

/// A new intersection on a valid paint area keeps the network
/// consistent.
pub proof fn lemma_with_intersection_wf(graph: GraphView, entity: u64, area: GridArea)
    requires
        graph.wf(),
        graph.can_spawn(entity, area),
    ensures
        graph.with_intersection(entity, area).wf(),
{
    let after = graph.with_intersection(entity, area);
    assert(area.contains(area.min) && area.contains(area.max));
    lemma_mark_keeps_occupancy(graph, after, entity, area);
    assert forall|road: u64, end: int|
        after.segments.contains_key(road) && 0 <= end < 2 implies #[trigger] after.end_ok(
        road,
        end,
    ) by {
        assert(graph.end_ok(road, end));
    }
    assert forall|node: u64, slot: int|
        after.intersections.contains_key(node) && 0 <= slot < 4 implies #[trigger] after.slot_ok(
        node,
        slot,
    ) by {
        if node != entity {
            assert(graph.slot_ok(node, slot));
        }
    }
}

/// A new building on a valid paint area keeps the network consistent.
pub proof fn lemma_with_building_wf(graph: GraphView, entity: u64, area: GridArea)
    requires
        graph.wf(),
        graph.can_spawn(entity, area),
    ensures
        graph.with_building(entity, area).wf(),
{
    let after = graph.with_building(entity, area);
    assert(area.contains(area.min) && area.contains(area.max));
    lemma_mark_keeps_occupancy(graph, after, entity, area);
    assert forall|road: u64, end: int|
        after.segments.contains_key(road) && 0 <= end < 2 implies #[trigger] after.end_ok(
        road,
        end,
    ) by {
        assert(graph.end_ok(road, end));
    }
    assert forall|node: u64, slot: int|
        after.intersections.contains_key(node) && 0 <= slot < 4 implies #[trigger] after.slot_ok(
        node,
        slot,
    ) by {
        assert(graph.slot_ok(node, slot));
    }
}

impl GraphView {
    /// Whether end `end` of the segment `road` may be joined to the
    /// intersection `node`: both occupy their areas and the
    /// intersection lies against that end.
    pub open spec fn can_join(self, road: u64, end: int, node: u64) -> bool {
        &&& self.segments.contains_key(road)
        &&& self.intersections.contains_key(node)
        &&& 0 <= end < 2
        &&& self.placed(road)
        &&& self.placed(node)
        &&& touching(
            self.segments[road].area,
            self.segments[road].orientation.spec_end_direction(end),
            self.intersections[node].area,
        )
    }

    /// The network after end `end` of the segment `road` and the facing
    /// slot of the intersection `node` have been pointed at each other.
    /// A segment that held the slot before loses its end there, and an
    /// intersection that the end pointed to before loses the segment
    /// from that slot: no link is left with one side only.
    pub open spec fn join(self, road: u64, end: int, node: u64) -> GraphView {
        let slot = end_slot(self.segments[road].orientation, end);
        let released = match self.intersections[node].roads[slot] {
            Some(other) => if other != road && self.segments.contains_key(other) {
                self.segments.insert(other, self.segments[other].with_end(end, None))
            } else {
                self.segments
            },
            None => self.segments,
        };
        let vacated = match self.segments[road].ends[end] {
            Some(other) => if other != node && self.intersections.contains_key(other) {
                self.intersections.insert(other, self.intersections[other].with_slot(slot, None))
            } else {
                self.intersections
            },
            None => self.intersections,
        };
        GraphView {
            segments: released.insert(road, self.segments[road].with_end(end, Some(node))),
            intersections: vacated.insert(
                node,
                self.intersections[node].with_slot(slot, Some(road)),
            ),
            ..self
        }
    }
}

/// Joining an end of a segment to an intersection that lies against it
/// keeps the network consistent, and afterwards the two point at each
/// other.
pub proof fn lemma_join_wf(graph: GraphView, road: u64, end: int, node: u64)
    requires
        graph.wf(),
        graph.can_join(road, end, node),
    ensures
        graph.join(road, end, node).wf(),
        graph.join(road, end, node).segments[road].ends[end] == Some(node),
        graph.join(road, end, node).intersections[node].roads[end_slot(
            graph.segments[road].orientation,
            end,
        )] == Some(road),
        graph.join(road, end, node).segments.dom() == graph.segments.dom(),
        graph.join(road, end, node).intersections.dom() == graph.intersections.dom(),
{
    let after = graph.join(road, end, node);
    let axis = graph.segments[road].orientation;
    let slot = end_slot(axis, end);
    assert(graph.end_ok(road, end));
    assert(graph.end_ok(road, 1 - end));
    assert(graph.slot_ok(node, slot));
    assert(after.segments.dom() =~= graph.segments.dom());
    assert(after.intersections.dom() =~= graph.intersections.dom());
    assert forall|entity: u64| after.is_record(entity) == graph.is_record(entity)
        && after.area_of(entity) == graph.area_of(entity) by {}
    assert forall|entity: u64| #[trigger] after.placed(entity) == graph.placed(entity) by {}
    assert(after.occupancy_ok()) by {
        assert forall|entity: u64| after.is_record(entity) implies #[trigger] after.all_or_nothing(
            entity,
        ) by {
            assert(graph.all_or_nothing(entity));
        }
    }
    assert forall|other: u64, i: int|
        after.segments.contains_key(other) && 0 <= i < 2 implies #[trigger] after.end_ok(
        other,
        i,
    ) by {
        assert(graph.end_ok(other, i));
        assert(graph.end_ok(other, 1 - i));
        match after.segments[other].ends[i] {
            Some(target) => {
                assert(graph.slot_ok(target, end_slot(graph.segments[other].orientation, i)));
            },
            None => {},
        }
    }
    assert forall|other: u64, k: int|
        after.intersections.contains_key(other) && 0 <= k < 4 implies #[trigger] after.slot_ok(
        other,
        k,
    ) by {
        assert(graph.slot_ok(other, k));
        match after.intersections[other].roads[k] {
            Some(target) => {
                assert(graph.end_ok(target, slot_end(k)));
            },
            None => {},
        }
    }
}

impl GraphView {
    /// The buildings that occupy a cell of `strip`.
    pub open spec fn strip_buildings(self, strip: GridArea) -> Set<u64> {
        Set::new(
            |building: u64|
                self.buildings.contains_key(building) && exists|cell: GridCell|
                    strip.contains(cell) && #[trigger] self.grid.occupant(cell) == Some(building),
        )
    }

    /// The buildings that occupy a cell of one of the four strips around
    /// `area`.
    pub open spec fn ring_buildings(self, area: GridArea) -> Set<u64> {
        self.strip_buildings(area.spec_adjacent(GDir::North)).union(
            self.strip_buildings(area.spec_adjacent(GDir::South)),
        ).union(self.strip_buildings(area.spec_adjacent(GDir::West))).union(
            self.strip_buildings(area.spec_adjacent(GDir::East)),
        )
    }

    /// The network after the segment `road` and each building of `found`
    /// have been pointed at each other.
    pub open spec fn with_dests(self, road: u64, found: Set<u64>) -> GraphView {
        GraphView {
            segments: self.segments.insert(road, self.segments[road].with_dests(found)),
            buildings: Map::new(
                |building: u64| self.buildings.contains_key(building),
                |building: u64|
                    if found.contains(building) {
                        self.buildings[building].with_road(road)
                    } else {
                        self.buildings[building]
                    },
            ),
            ..self
        }
    }

    /// The network after end `end` of the segment `road` has been joined
    /// to the intersection that occupies the whole strip against that
    /// end, if there is one.
    pub open spec fn link_road_end(self, road: u64, end: int) -> GraphView {
        let segment = self.segments[road];
        let strip = segment.area.spec_adjacent(segment.orientation.spec_end_direction(end));
        match self.grid.single_entity(strip) {
            Some(node) => if self.intersections.contains_key(node) {
                self.join(road, end, node)
            } else {
                self
            },
            None => self,
        }
    }

    /// The network after the segment `road` has been linked to what
    /// stands around it: at each of its two ends to the intersection
    /// that occupies the whole strip against that end, and to every
    /// building that occupies a cell of the strips around it. Nothing
    /// changes unless `road` is a segment that occupies its area.
    pub open spec fn link_road(self, road: u64) -> GraphView {
        if self.segments.contains_key(road) && self.placed(road) {
            self.link_road_end(road, 0).link_road_end(road, 1).with_dests(
                road,
                self.ring_buildings(self.segments[road].area),
            )
        } else {
            self
        }
    }
}

/// Pointing a segment and some buildings at each other keeps the
/// network consistent.
pub proof fn lemma_with_dests_wf(graph: GraphView, road: u64, found: Set<u64>)
    requires
        graph.wf(),
        graph.segments.contains_key(road),
        forall|building: u64| found.contains(building) ==> graph.buildings.contains_key(building),
    ensures
        graph.with_dests(road, found).wf(),
{
    let after = graph.with_dests(road, found);
    assert(after.segments.dom() =~= graph.segments.dom());
    assert(after.buildings.dom() =~= graph.buildings.dom());
    assert forall|entity: u64| after.is_record(entity) == graph.is_record(entity) && (
    graph.is_record(entity) ==> after.area_of(entity) == graph.area_of(entity)) by {
        if graph.buildings.contains_key(entity) {
            assert(after.buildings.contains_key(entity));
        }
    }
    assert forall|entity: u64| graph.is_record(entity) implies #[trigger] after.placed(entity)
        == graph.placed(entity) by {}
    assert(after.occupancy_ok()) by {
        assert forall|entity: u64| after.is_record(entity) implies #[trigger] after.all_or_nothing(
            entity,
        ) by {
            assert(graph.all_or_nothing(entity));
        }
    }
    assert forall|other: u64, i: int|
        after.segments.contains_key(other) && 0 <= i < 2 implies #[trigger] after.end_ok(
        other,
        i,
    ) by {
        assert(graph.end_ok(other, i));
    }
    assert forall|other: u64, k: int|
        after.intersections.contains_key(other) && 0 <= k < 4 implies #[trigger] after.slot_ok(
        other,
        k,
    ) by {
        assert(graph.slot_ok(other, k));
    }
}

/// Joining an end of a segment that occupies its area to the
/// intersection that occupies the strip against it keeps the network
/// consistent.
pub proof fn lemma_link_road_end_wf(graph: GraphView, road: u64, end: int)
    requires
        graph.wf(),
        graph.segments.contains_key(road),
        graph.placed(road),
        0 <= end < 2,
    ensures
        graph.link_road_end(road, end).wf(),
        graph.link_road_end(road, end).grid == graph.grid,
        graph.link_road_end(road, end).buildings == graph.buildings,
        graph.link_road_end(road, end).segments.dom() == graph.segments.dom(),
        graph.link_road_end(road, end).segments[road].area == graph.segments[road].area,
        graph.link_road_end(road, end).segments[road].orientation
            == graph.segments[road].orientation,
        graph.link_road_end(road, end).placed(road),
{
    let segment = graph.segments[road];
    let dir = segment.orientation.spec_end_direction(end);
    let strip = segment.area.spec_adjacent(dir);
    match graph.grid.single_entity(strip) {
        Some(node) => {
            if graph.intersections.contains_key(node) {
                lemma_uniform_strip_touches(graph, segment.area, dir, node);
                lemma_join_wf(graph, road, end, node);
            }
        },
        None => {},
    }
}

/// Linking a segment to what stands around it keeps the network
/// consistent.
pub proof fn lemma_link_road_wf(graph: GraphView, road: u64)
    requires
        graph.wf(),
    ensures
        graph.link_road(road).wf(),
{
    if graph.segments.contains_key(road) && graph.placed(road) {
        lemma_link_road_end_wf(graph, road, 0);
        let first = graph.link_road_end(road, 0);
        lemma_link_road_end_wf(first, road, 1);
        let second = first.link_road_end(road, 1);
        lemma_with_dests_wf(second, road, graph.ring_buildings(graph.segments[road].area));
    }
}

impl GraphView {
    /// The network after the side `slot` of the intersection `node` has
    /// been joined to the segment that occupies the whole strip against
    /// that side, if there is one and it runs along the axis of that
    /// side.
    pub open spec fn link_intersection_side(self, node: u64, slot: int) -> GraphView {
        let dir = GDir::spec_from_index(slot);
        let strip = self.intersections[node].area.spec_adjacent(dir);
        match self.grid.single_entity(strip) {
            Some(road) => if self.segments.contains_key(road) && self.segments[road].orientation
                == dir.spec_axis() {
                self.join(road, slot_end(slot), node)
            } else {
                self
            },
            None => self,
        }
    }

    /// The network after the intersection `node` has been linked, on
    /// each of its four sides, to the segment that occupies the whole
    /// strip against that side and ends there. Nothing changes unless
    /// `node` is an intersection that occupies its area.
    pub open spec fn link_intersection(self, node: u64) -> GraphView {
        if self.intersections.contains_key(node) && self.placed(node) {
            self.link_intersection_side(node, 0).link_intersection_side(
                node,
                1,
            ).link_intersection_side(node, 2).link_intersection_side(node, 3)
        } else {
            self
        }
    }

    /// The network after the building `building` has been linked to the
    /// segment that occupies the whole strip against its side `slot`, if
    /// there is one.
    pub open spec fn link_building_side(self, building: u64, slot: int) -> GraphView {
        let strip = self.buildings[building].area.spec_adjacent(GDir::spec_from_index(slot));
        match self.grid.single_entity(strip) {
            Some(road) => if self.segments.contains_key(road) {
                self.with_dests(road, set![building])
            } else {
                self
            },
            None => self,
        }
    }

    /// The network after the building `building` has been linked, on
    /// each of its four sides, to the segment that occupies the whole
    /// strip against that side. Nothing changes unless `building` is a
    /// building that occupies its area.
    pub open spec fn link_building(self, building: u64) -> GraphView {
        if self.buildings.contains_key(building) && self.placed(building) {
            self.link_building_side(building, 0).link_building_side(
                building,
                1,
            ).link_building_side(building, 2).link_building_side(building, 3)
        } else {
            self
        }
    }

    /// The network after the segment `road` has been taken out of every
    /// place that names it, and has lost its own links.
    pub open spec fn unlink_road(self, road: u64) -> GraphView {
        if self.segments.contains_key(road) {
            GraphView {
                segments: self.segments.insert(road, self.segments[road].unlinked()),
                intersections: Map::new(
                    |node: u64| self.intersections.contains_key(node),
                    |node: u64| self.intersections[node].without_road(road),
                ),
                buildings: Map::new(
                    |building: u64| self.buildings.contains_key(building),
                    |building: u64| self.buildings[building].without_road(road),
                ),
                ..self
            }
        } else {
            self
        }
    }

    /// The network after the intersection `node` has been taken out of
    /// every place that names it, and has lost its own links.
    pub open spec fn unlink_intersection(self, node: u64) -> GraphView {
        if self.intersections.contains_key(node) {
            GraphView {
                segments: Map::new(
                    |road: u64| self.segments.contains_key(road),
                    |road: u64| self.segments[road].without_node(node),
                ),
                intersections: self.intersections.insert(
                    node,
                    self.intersections[node].unlinked(),
                ),
                ..self
            }
        } else {
            self
        }
    }

    /// The network after the building `building` has been taken out of
    /// every place that names it, and has lost its own links.
    pub open spec fn unlink_building(self, building: u64) -> GraphView {
        if self.buildings.contains_key(building) {
            GraphView {
                segments: Map::new(
                    |road: u64| self.segments.contains_key(road),
                    |road: u64| self.segments[road].without_dest(building),
                ),
                buildings: self.buildings.insert(building, self.buildings[building].unlinked()),
                ..self
            }
        } else {
            self
        }
    }

    /// The network after `entity`, of whatever kind, has been taken out
    /// of every place that names it.
    pub open spec fn unlink(self, entity: u64) -> GraphView {
        self.unlink_road(entity).unlink_intersection(entity).unlink_building(entity)
    }

    /// The network after `entity` has been unlinked and has left the
    /// grid. Its record stays.
    pub open spec fn soft_destroy(self, entity: u64) -> GraphView {
        GraphView { grid: self.grid.erase(entity), ..self.unlink(entity) }
    }

    /// The network after `entity` has been unlinked, has left the grid
    /// and has lost its record.
    pub open spec fn hard_destroy(self, entity: u64) -> GraphView {
        let soft = self.soft_destroy(entity);
        GraphView {
            segments: soft.segments.remove(entity),
            intersections: soft.intersections.remove(entity),
            buildings: soft.buildings.remove(entity),
            ..soft
        }
    }

    /// The vehicles that observe the record `entity`; none where there is
    /// no such record.
    pub open spec fn observers_of(self, entity: u64) -> Set<u64> {
        if self.segments.contains_key(entity) {
            self.segments[entity].observers
        } else if self.buildings.contains_key(entity) {
            self.buildings[entity].observers
        } else if self.intersections.contains_key(entity) {
            self.intersections[entity].observers
        } else {
            Set::empty()
        }
    }

    /// The network after `vehicle` has become an observer of the record
    /// `entity`. Nothing changes where there is no such record.
    pub open spec fn with_observer(self, entity: u64, vehicle: u64) -> GraphView {
        if self.segments.contains_key(entity) {
            GraphView {
                segments: self.segments.insert(
                    entity,
                    self.segments[entity].with_observer(vehicle),
                ),
                ..self
            }
        } else if self.buildings.contains_key(entity) {
            GraphView {
                buildings: self.buildings.insert(
                    entity,
                    self.buildings[entity].with_observer(vehicle),
                ),
                ..self
            }
        } else if self.intersections.contains_key(entity) {
            GraphView {
                intersections: self.intersections.insert(
                    entity,
                    self.intersections[entity].with_observer(vehicle),
                ),
                ..self
            }
        } else {
            self
        }
    }

    /// A network that differs from `self` at most in links and
    /// observers: the same grid, the same records with the same areas
    /// and axes.
    pub open spec fn same_places(self, other: GraphView) -> bool {
        &&& self.grid == other.grid
        &&& self.segments.dom() == other.segments.dom()
        &&& self.intersections.dom() == other.intersections.dom()
        &&& self.buildings.dom() == other.buildings.dom()
        &&& forall|entity: u64| #[trigger]
            self.segments.contains_key(entity) ==> self.segments[entity].area
                == other.segments[entity].area && self.segments[entity].orientation
                == other.segments[entity].orientation && self.segments[entity].ends.len()
                == other.segments[entity].ends.len()
        &&& forall|entity: u64| #[trigger]
            self.intersections.contains_key(entity) ==> self.intersections[entity].area
                == other.intersections[entity].area && self.intersections[entity].roads.len()
                == other.intersections[entity].roads.len()
        &&& forall|entity: u64| #[trigger]
            self.buildings.contains_key(entity) ==> self.buildings[entity].area
                == other.buildings[entity].area
    }
}

/// A network with the same grid and the same records in the same places
/// as a consistent one is consistent in all that concerns the grid.
pub proof fn lemma_same_places(graph: GraphView, after: GraphView)
    requires
        graph.wf(),
        after.same_places(graph),
    ensures
        after.grid.wf(),
        after.kinds_disjoint(),
        after.records_shaped(),
        after.occupancy_ok(),
        forall|entity: u64|
            graph.is_record(entity) ==> after.is_record(entity) && after.area_of(entity)
                == graph.area_of(entity) && (#[trigger] after.placed(entity)) == graph.placed(
                entity,
            ),
{
    assert forall|entity: u64| after.is_record(entity) == graph.is_record(entity) && (
    graph.is_record(entity) ==> after.area_of(entity) == graph.area_of(entity)) by {
        if graph.segments.contains_key(entity) {
            assert(after.segments.contains_key(entity));
        }
        if graph.intersections.contains_key(entity) {
            assert(after.intersections.contains_key(entity));
        }
        if graph.buildings.contains_key(entity) {
            assert(after.buildings.contains_key(entity));
        }
    }
    assert forall|entity: u64| graph.is_record(entity) implies (#[trigger] after.placed(entity))
        == graph.placed(entity) by {}
    assert forall|entity: u64| after.is_record(entity) implies #[trigger] after.all_or_nothing(
        entity,
    ) by {
        assert(graph.all_or_nothing(entity));
    }
    assert forall|entity: u64| #[trigger]
        after.segments.contains_key(entity) implies after.segments[entity].ends.len() == 2
        && after.area_ok(after.segments[entity].area) by {
        assert(graph.segments.contains_key(entity));
    }
    assert forall|entity: u64| #[trigger]
        after.intersections.contains_key(entity) implies after.intersections[entity].roads.len()
        == 4 && after.area_ok(after.intersections[entity].area) by {
        assert(graph.intersections.contains_key(entity));
    }
    assert forall|entity: u64| #[trigger] after.buildings.contains_key(entity) implies after.area_ok(
        after.buildings[entity].area,
    ) by {
        assert(graph.buildings.contains_key(entity));
    }
}

/// Joining a side of an intersection that occupies its area to the
/// segment that occupies the strip against it keeps the network
/// consistent.
pub proof fn lemma_link_intersection_side_wf(graph: GraphView, node: u64, slot: int)
    requires
        graph.wf(),
        graph.intersections.contains_key(node),
        graph.placed(node),
        0 <= slot < 4,
    ensures
        graph.link_intersection_side(node, slot).wf(),
        graph.link_intersection_side(node, slot).same_places(graph),
        graph.link_intersection_side(node, slot).placed(node),
{
    let record = graph.intersections[node];
    let dir = GDir::spec_from_index(slot);
    let strip = record.area.spec_adjacent(dir);
    let after = graph.link_intersection_side(node, slot);
    match graph.grid.single_entity(strip) {
        Some(road) => {
            if graph.segments.contains_key(road) && graph.segments[road].orientation
                == dir.spec_axis() {
                lemma_uniform_strip_touches(graph, record.area, dir, road);
                lemma_placed_disjoint(graph, node, road);
                lemma_area_ok_margin(graph, record.area);
                lemma_area_ok_margin(graph, graph.segments[road].area);
                lemma_covered_strip_touches_back(record.area, dir, graph.segments[road].area);
                lemma_join_wf(graph, road, slot_end(slot), node);
                assert(after.segments.dom() =~= graph.segments.dom());
                assert(after.intersections.dom() =~= graph.intersections.dom());
                assert(after.same_places(graph));
                lemma_same_places(graph, after);
            }
        },
        None => {},
    }
    assert(after.same_places(graph));
}

/// Linking an intersection to the segments around it keeps the network
/// consistent.
pub proof fn lemma_link_intersection_wf(graph: GraphView, node: u64)
    requires
        graph.wf(),
    ensures
        graph.link_intersection(node).wf(),
{
    if graph.intersections.contains_key(node) && graph.placed(node) {
        lemma_link_intersection_side_wf(graph, node, 0);
        let first = graph.link_intersection_side(node, 0);
        lemma_link_intersection_side_wf(first, node, 1);
        let second = first.link_intersection_side(node, 1);
        lemma_link_intersection_side_wf(second, node, 2);
        let third = second.link_intersection_side(node, 2);
        lemma_link_intersection_side_wf(third, node, 3);
    }
}

/// Linking a side of a building keeps the network consistent.
pub proof fn lemma_link_building_side_wf(graph: GraphView, building: u64, slot: int)
    requires
        graph.wf(),
        graph.buildings.contains_key(building),
        0 <= slot < 4,
    ensures
        graph.link_building_side(building, slot).wf(),
        graph.link_building_side(building, slot).same_places(graph),
{
    let strip = graph.buildings[building].area.spec_adjacent(GDir::spec_from_index(slot));
    let after = graph.link_building_side(building, slot);
    match graph.grid.single_entity(strip) {
        Some(road) => {
            if graph.segments.contains_key(road) {
                lemma_with_dests_wf(graph, road, set![building]);
                assert(after.segments.dom() =~= graph.segments.dom());
                assert(after.buildings.dom() =~= graph.buildings.dom());
                assert forall|entity: u64| #[trigger]
                    after.buildings.contains_key(entity) implies after.buildings[entity].area
                    == graph.buildings[entity].area by {}
            }
        },
        None => {},
    }
}

/// Linking a building to the segments around it keeps the network
/// consistent.
pub proof fn lemma_link_building_wf(graph: GraphView, building: u64)
    requires
        graph.wf(),
    ensures
        graph.link_building(building).wf(),
{
    if graph.buildings.contains_key(building) && graph.placed(building) {
        lemma_link_building_side_wf(graph, building, 0);
        let first = graph.link_building_side(building, 0);
        lemma_link_building_side_wf(first, building, 1);
        let second = first.link_building_side(building, 1);
        lemma_link_building_side_wf(second, building, 2);
        let third = second.link_building_side(building, 2);
        lemma_link_building_side_wf(third, building, 3);
    }
}

impl GraphView {
    /// No link of a segment to an intersection, or of an intersection to
    /// a segment, starts at `entity`.
    pub open spec fn no_end_links(self, entity: u64) -> bool {
        &&& self.segments.contains_key(entity) ==> forall|end: int|
            0 <= end < 2 ==> (#[trigger] self.segments[entity].ends[end]) is None
        &&& self.intersections.contains_key(entity) ==> forall|slot: int|
            0 <= slot < 4 ==> (#[trigger] self.intersections[entity].roads[slot]) is None
    }

    /// No link to a building, or of a building, starts at `entity`.
    pub open spec fn no_dest_links(self, entity: u64) -> bool {
        &&& self.segments.contains_key(entity) ==> self.segments[entity].dests
            == Set::<u64>::empty()
        &&& self.buildings.contains_key(entity) ==> self.buildings[entity].roads
            == Set::<u64>::empty()
    }
}

/// Unlinking a segment keeps the network consistent and leaves the
/// segment without links.
pub proof fn lemma_unlink_road_wf(graph: GraphView, road: u64)
    requires
        graph.wf(),
    ensures
        graph.unlink_road(road).wf(),
        graph.unlink_road(road).same_places(graph),
        graph.segments.contains_key(road) ==> graph.unlink_road(road).no_end_links(road)
            && graph.unlink_road(road).no_dest_links(road),
{
    let after = graph.unlink_road(road);
    if graph.segments.contains_key(road) {
        assert(after.segments.dom() =~= graph.segments.dom());
        assert(after.intersections.dom() =~= graph.intersections.dom());
        assert(after.buildings.dom() =~= graph.buildings.dom());
        assert(after.same_places(graph));
        lemma_same_places(graph, after);
        assert forall|other: u64, i: int|
            after.segments.contains_key(other) && 0 <= i < 2 implies #[trigger] after.end_ok(
            other,
            i,
        ) by {
            assert(graph.end_ok(other, i));
        }
        assert forall|node: u64, k: int|
            after.intersections.contains_key(node) && 0 <= k < 4 implies #[trigger] after.slot_ok(
            node,
            k,
        ) by {
            assert(graph.slot_ok(node, k));
        }
    }
}

/// Unlinking an intersection keeps the network consistent and leaves the
/// intersection without links.
pub proof fn lemma_unlink_intersection_wf(graph: GraphView, node: u64)
    requires
        graph.wf(),
    ensures
        graph.unlink_intersection(node).wf(),
        graph.unlink_intersection(node).same_places(graph),
        graph.intersections.contains_key(node) ==> graph.unlink_intersection(node).no_end_links(
            node,
        ),
        forall|entity: u64|
            entity != node && graph.no_end_links(entity) && graph.no_dest_links(entity)
                ==> graph.unlink_intersection(node).no_end_links(entity)
                && graph.unlink_intersection(node).no_dest_links(entity),
{
    let after = graph.unlink_intersection(node);
    if graph.intersections.contains_key(node) {
        assert(after.segments.dom() =~= graph.segments.dom());
        assert(after.intersections.dom() =~= graph.intersections.dom());
        assert(after.same_places(graph));
        lemma_same_places(graph, after);
        assert forall|other: u64, i: int|
            after.segments.contains_key(other) && 0 <= i < 2 implies #[trigger] after.end_ok(
            other,
            i,
        ) by {
            assert(graph.end_ok(other, i));
        }
        assert forall|other: u64, k: int|
            after.intersections.contains_key(other) && 0 <= k < 4 implies #[trigger] after.slot_ok(
            other,
            k,
        ) by {
            assert(graph.slot_ok(other, k));
        }
        assert forall|entity: u64|
            entity != node && graph.no_end_links(entity) && graph.no_dest_links(
                entity,
            ) implies after.no_end_links(entity) && after.no_dest_links(entity) by {
            if after.segments.contains_key(entity) {
                assert forall|end: int| 0 <= end < 2 implies (
                #[trigger] after.segments[entity].ends[end]) is None by {
                    assert(graph.segments[entity].ends[end] is None);
                }
            }
        }
    }
}

/// Unlinking a building keeps the network consistent and leaves the
/// building without links.
pub proof fn lemma_unlink_building_wf(graph: GraphView, building: u64)
    requires
        graph.wf(),
    ensures
        graph.unlink_building(building).wf(),
        graph.unlink_building(building).same_places(graph),
        graph.buildings.contains_key(building) ==> graph.unlink_building(building).no_dest_links(
            building,
        ),
        forall|entity: u64|
            entity != building && graph.no_end_links(entity) && graph.no_dest_links(entity)
                ==> graph.unlink_building(building).no_end_links(entity) && graph.unlink_building(
                building,
            ).no_dest_links(entity),
{
    let after = graph.unlink_building(building);
    if graph.buildings.contains_key(building) {
        assert(after.segments.dom() =~= graph.segments.dom());
        assert(after.buildings.dom() =~= graph.buildings.dom());
        assert(after.same_places(graph));
        lemma_same_places(graph, after);
        assert forall|other: u64, i: int|
            after.segments.contains_key(other) && 0 <= i < 2 implies #[trigger] after.end_ok(
            other,
            i,
        ) by {
            assert(graph.end_ok(other, i));
        }
        assert forall|other: u64, k: int|
            after.intersections.contains_key(other) && 0 <= k < 4 implies #[trigger] after.slot_ok(
            other,
            k,
        ) by {
            assert(graph.slot_ok(other, k));
        }
        assert forall|entity: u64|
            entity != building && graph.no_end_links(entity) && graph.no_dest_links(
                entity,
            ) implies after.no_end_links(entity) && after.no_dest_links(entity) by {
            if after.segments.contains_key(entity) {
                assert(after.segments[entity].dests =~= Set::<u64>::empty());
            }
        }
    }
}

/// Unlinking an entity of whatever kind keeps the network consistent and
/// leaves the entity without links.
pub proof fn lemma_unlink_wf(graph: GraphView, entity: u64)
    requires
        graph.wf(),
    ensures
        graph.unlink(entity).wf(),
        graph.unlink(entity).same_places(graph),
        graph.unlink(entity).no_end_links(entity),
        graph.unlink(entity).no_dest_links(entity),
{
    lemma_unlink_road_wf(graph, entity);
    let first = graph.unlink_road(entity);
    lemma_unlink_intersection_wf(first, entity);
    let second = first.unlink_intersection(entity);
    lemma_unlink_building_wf(second, entity);
}

/// Unlinking an entity and taking it from the grid keeps the network
/// consistent; afterwards the entity occupies no cell.
pub proof fn lemma_soft_destroy_wf(graph: GraphView, entity: u64)
    requires
        graph.wf(),
    ensures
        graph.soft_destroy(entity).wf(),
        !graph.soft_destroy(entity).grid.holds(entity),
        graph.soft_destroy(entity).no_end_links(entity),
        graph.soft_destroy(entity).no_dest_links(entity),
        graph.soft_destroy(entity).segments.dom() == graph.segments.dom(),
        graph.soft_destroy(entity).intersections.dom() == graph.intersections.dom(),
        graph.soft_destroy(entity).buildings.dom() == graph.buildings.dom(),
{
    lemma_unlink_wf(graph, entity);
    let unlinked = graph.unlink(entity);
    let after = graph.soft_destroy(entity);
    crate::grid::grid::lemma_erase_frees(unlinked.grid, entity);
    assert forall|other: u64| after.is_record(other) == unlinked.is_record(other)
        && after.area_of(other) == unlinked.area_of(other) by {}
    assert forall|other: u64| other != entity && unlinked.placed(other) implies #[trigger] after.placed(
        other,
    ) by {
        assert forall|cell: GridCell| #[trigger] after.area_of(other).contains(cell) implies after.grid.occupant(
            cell,
        ) == Some(other) by {
            assert(unlinked.grid.occupant(cell) == Some(other));
        }
    }
    assert forall|cell: GridCell| #[trigger]
        after.grid.occupied.contains_key(cell) implies after.is_record(after.grid.occupied[cell])
        && after.area_of(after.grid.occupied[cell]).contains(cell) by {
        assert(unlinked.grid.occupied.contains_key(cell));
    }
    assert forall|other: u64| after.is_record(other) implies #[trigger] after.all_or_nothing(
        other,
    ) by {
        assert(unlinked.all_or_nothing(other));
        if other != entity && !unlinked.placed(other) {
            assert forall|cell: GridCell| #[trigger] after.grid.occupant(cell) != Some(other) by {
                assert(unlinked.grid.occupant(cell) != Some(other));
            }
        }
    }
    assert forall|road: u64, end: int|
        after.segments.contains_key(road) && 0 <= end < 2 implies #[trigger] after.end_ok(
        road,
        end,
    ) by {
        assert(unlinked.end_ok(road, end));
        match after.segments[road].ends[end] {
            Some(node) => {
                assert(unlinked.slot_ok(node, end_slot(unlinked.segments[road].orientation, end)));
                assert(road != entity);
                if node == entity {
                    assert(unlinked.intersections[entity].roads[end_slot(
                        unlinked.segments[road].orientation,
                        end,
                    )] is None);
                }
            },
            None => {},
        }
    }
    assert forall|node: u64, slot: int|
        after.intersections.contains_key(node) && 0 <= slot < 4 implies #[trigger] after.slot_ok(
        node,
        slot,
    ) by {
        assert(unlinked.slot_ok(node, slot));
    }
}

/// Unlinking an entity, taking it from the grid and dropping its record
/// keeps the network consistent; afterwards the handle names no record.
pub proof fn lemma_hard_destroy_wf(graph: GraphView, entity: u64)
    requires
        graph.wf(),
    ensures
        graph.hard_destroy(entity).wf(),
        !graph.hard_destroy(entity).is_record(entity),
        !graph.hard_destroy(entity).grid.holds(entity),
{
    lemma_soft_destroy_wf(graph, entity);
    let soft = graph.soft_destroy(entity);
    let after = graph.hard_destroy(entity);
    assert forall|other: u64| other != entity implies after.is_record(other) == soft.is_record(
        other,
    ) && (soft.is_record(other) ==> after.area_of(other) == soft.area_of(other)) by {}
    assert forall|other: u64| other != entity && soft.is_record(other) implies (
    #[trigger] after.placed(other)) == soft.placed(other) by {}
    assert forall|cell: GridCell| #[trigger]
        after.grid.occupied.contains_key(cell) implies after.is_record(after.grid.occupied[cell])
        && after.area_of(after.grid.occupied[cell]).contains(cell) by {
        let holder = soft.grid.occupied[cell];
        assert(soft.grid.occupant(cell) == Some(holder));
        assert(holder != entity);
    }
    assert forall|other: u64| after.is_record(other) implies #[trigger] after.all_or_nothing(
        other,
    ) by {
        assert(soft.all_or_nothing(other));
    }
    assert forall|road: u64, end: int|
        after.segments.contains_key(road) && 0 <= end < 2 implies #[trigger] after.end_ok(
        road,
        end,
    ) by {
        assert(soft.end_ok(road, end));
        match after.segments[road].ends[end] {
            Some(node) => {
                if node == entity {
                    assert(soft.intersections[entity].roads[end_slot(
                        soft.segments[road].orientation,
                        end,
                    )] is None);
                }
            },
            None => {},
        }
    }
    assert forall|node: u64, slot: int|
        after.intersections.contains_key(node) && 0 <= slot < 4 implies #[trigger] after.slot_ok(
        node,
        slot,
    ) by {
        assert(soft.slot_ok(node, slot));
        match after.intersections[node].roads[slot] {
            Some(road) => {
                if road == entity {
                    assert(soft.segments[entity].ends[slot_end(slot)] is None);
                }
            },
            None => {},
        }
    }
}

/// Adding an observer keeps the network consistent.
pub proof fn lemma_with_observer_wf(graph: GraphView, entity: u64, vehicle: u64)
    requires
        graph.wf(),
    ensures
        graph.with_observer(entity, vehicle).wf(),
        graph.with_observer(entity, vehicle).same_places(graph),
{
    let after = graph.with_observer(entity, vehicle);
    assert(after.segments.dom() =~= graph.segments.dom());
    assert(after.intersections.dom() =~= graph.intersections.dom());
    assert(after.buildings.dom() =~= graph.buildings.dom());
    assert(after.same_places(graph));
    lemma_same_places(graph, after);
    assert forall|road: u64, end: int|
        after.segments.contains_key(road) && 0 <= end < 2 implies #[trigger] after.end_ok(
        road,
        end,
    ) by {
        assert(graph.end_ok(road, end));
    }
    assert forall|node: u64, slot: int|
        after.intersections.contains_key(node) && 0 <= slot < 4 implies #[trigger] after.slot_ok(
        node,
        slot,
    ) by {
        assert(graph.slot_ok(node, slot));
    }
}

impl GraphView {
    /// In a consistent network the area of an intersection is the area
    /// of the record that its handle names.
    pub proof fn lemma_kind_of_intersection(self, node: u64)
        requires
            self.wf(),
            self.intersections.contains_key(node),
        ensures
            self.is_record(node),
            self.area_of(node) == self.intersections[node].area,
            !self.segments.contains_key(node),
            !self.buildings.contains_key(node),
    {
    }

    /// In a consistent network the area of a building is the area of the
    /// record that its handle names.
    pub proof fn lemma_kind_of_building(self, building: u64)
        requires
            self.wf(),
            self.buildings.contains_key(building),
        ensures
            self.is_record(building),
            self.area_of(building) == self.buildings[building].area,
            !self.segments.contains_key(building),
            !self.intersections.contains_key(building),
    {
    }
}

/// The network after `step` has been taken for each handle of
/// `entities`, in their order.
pub open spec fn apply_each(
    graph: GraphView,
    entities: Seq<u64>,
    step: spec_fn(GraphView, u64) -> GraphView,
) -> GraphView
    decreases entities.len(),
{
    if entities.len() == 0 {
        graph
    } else {
        step(apply_each(graph, entities.drop_last(), step), entities.last())
    }
}

/// Taking the step for one more handle continues from where the steps
/// for the handles before it have led.
pub proof fn lemma_apply_each_step(
    graph: GraphView,
    entities: Seq<u64>,
    step: spec_fn(GraphView, u64) -> GraphView,
    i: int,
)
    requires
        0 <= i < entities.len(),
    ensures
        apply_each(graph, entities.take(i + 1), step) == step(
            apply_each(graph, entities.take(i), step),
            entities[i],
        ),
{
    assert(entities.take(i + 1).drop_last() =~= entities.take(i));
}

} // verus!
