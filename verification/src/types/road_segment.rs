use crate::collections::entity_set::EntitySet;
use crate::grid::grid_area::GridArea;
use crate::grid::grid_cell::GridCell;
use crate::grid::orientation::GAxis;
use vstd::prelude::*;

verus! {

/// A piece of road along one axis, with an intersection at each end or
/// none, and the buildings along it.
#[derive(Debug)]
pub struct RoadSegment {
    pub orientation: GAxis,
    pub area: GridArea,
    /// The intersection at each end: end 0 is the northern or western
    /// one, end 1 the southern or eastern.
    pub ends: [Option<u64>; 2],
    /// The buildings that the segment runs along.
    pub dests: EntitySet,
    /// The vehicles whose path holds the segment.
    pub observers: EntitySet,
}

/// What a road segment is to the road network.
pub struct SegmentView {
    pub orientation: GAxis,
    pub area: GridArea,
    /// The two ends: end 0 is the northern or western one.
    pub ends: Seq<Option<u64>>,
    pub dests: Set<u64>,
    pub observers: Set<u64>,
}

impl View for RoadSegment {
    type V = SegmentView;

    open spec fn view(&self) -> SegmentView {
        SegmentView {
            orientation: self.orientation,
            area: self.area,
            ends: self.ends@,
            dests: self.dests@,
            observers: self.observers@,
        }
    }
}

impl SegmentView {
    /// A segment over `area` with nothing at its ends or along it.
    pub open spec fn fresh(area: GridArea, orientation: GAxis) -> SegmentView {
        SegmentView {
            orientation,
            area,
            ends: Seq::new(2, |i: int| None),
            dests: Set::empty(),
            observers: Set::empty(),
        }
    }
}

impl SegmentView {
    /// The segment with end `end` pointing to `target`.
    pub open spec fn with_end(self, end: int, target: Option<u64>) -> SegmentView {
        SegmentView { ends: self.ends.update(end, target), ..self }
    }

    /// The segment with every end that pointed to `node` pointing
    /// nowhere.
    pub open spec fn without_node(self, node: u64) -> SegmentView {
        SegmentView {
            ends: Seq::new(
                self.ends.len(),
                |i: int|
                    if self.ends[i] == Some(node) {
                        None
                    } else {
                        self.ends[i]
                    },
            ),
            ..self
        }
    }

    /// The segment with the buildings of `found` along it, besides what
    /// it had.
    pub open spec fn with_dests(self, found: Set<u64>) -> SegmentView {
        SegmentView { dests: self.dests.union(found), ..self }
    }

    /// The segment without the building `building` along it.
    pub open spec fn without_dest(self, building: u64) -> SegmentView {
        SegmentView { dests: self.dests.remove(building), ..self }
    }

    /// The segment with no links at all.
    pub open spec fn unlinked(self) -> SegmentView {
        SegmentView { ends: Seq::new(2, |i: int| None), dests: Set::empty(), ..self }
    }

    /// The segment with one more observer.
    pub open spec fn with_observer(self, vehicle: u64) -> SegmentView {
        SegmentView { observers: self.observers.insert(vehicle), ..self }
    }
}

impl SegmentView {
    /// The extent of the segment across its axis, in cells.
    pub open spec fn spec_drive_width(self) -> int {
        match self.orientation {
            GAxis::Z => self.area.width(),
            GAxis::X => self.area.height(),
        }
    }

    /// The extent of the segment along its axis, in cells.
    pub open spec fn spec_drive_length(self) -> int {
        match self.orientation {
            GAxis::Z => self.area.height(),
            GAxis::X => self.area.width(),
        }
    }

    /// The number of lanes in each direction: half the width, rounded
    /// down.
    pub open spec fn spec_num_lanes(self) -> int {
        self.spec_drive_width() / 2
    }

    /// The area that an intersection takes where a road over
    /// `turn_to_area` meets this segment from the side: as wide as this
    /// segment across its axis, as long as the other road is wide.
    pub open spec fn spec_intersection_area(self, turn_to_area: GridArea) -> GridArea {
        match self.orientation {
            GAxis::Z => GridArea {
                min: GridCell { x: self.area.min.x, y: turn_to_area.min.y },
                max: GridCell { x: self.area.max.x, y: turn_to_area.max.y },
            },
            GAxis::X => GridArea {
                min: GridCell { x: turn_to_area.min.x, y: self.area.min.y },
                max: GridCell { x: turn_to_area.max.x, y: self.area.max.y },
            },
        }
    }
}

impl RoadSegment {
    /// A segment over `area` with nothing at its ends or along it.
    pub fn new(area: GridArea, orientation: GAxis) -> (segment: Self)
        ensures
            segment@ == SegmentView::fresh(area, orientation),
    {
        let segment = Self {
            orientation,
            area,
            ends: [None;2],
            dests: EntitySet::new(),
            observers: EntitySet::new(),
        };
        assert(segment.ends@ =~= Seq::new(2, |i: int| None));
        segment
    }

    pub fn area(&self) -> (area: GridArea)
        ensures
            area == self.area,
    {
        self.area
    }

    /// The number of cells along the axis of the segment.
    pub fn drive_length(&self) -> (length: i32)
        requires
            self.area.wf(),
            self.area.width() <= i32::MAX,
            self.area.height() <= i32::MAX,
        ensures
            length == self@.spec_drive_length(),
            length >= 1,
    {
        match self.orientation {
            GAxis::Z => self.area.cell_dimensions().1,
            GAxis::X => self.area.cell_dimensions().0,
        }
    }

    /// The number of cells across the axis of the segment.
    pub fn drive_width(&self) -> (width: i32)
        requires
            self.area.wf(),
            self.area.width() <= i32::MAX,
            self.area.height() <= i32::MAX,
        ensures
            width == self@.spec_drive_width(),
            width >= 1,
    {
        match self.orientation {
            GAxis::Z => self.area.cell_dimensions().0,
            GAxis::X => self.area.cell_dimensions().1,
        }
    }

    /// The number of lanes in each direction: half the width, rounded
    /// down.
    pub fn num_lanes(&self) -> (lanes: i32)
        requires
            self.area.wf(),
            self.area.width() <= i32::MAX,
            self.area.height() <= i32::MAX,
        ensures
            lanes == self@.spec_num_lanes(),
            lanes >= 0,
    {
        self.drive_width() / 2
    }

    /// The area of the intersection that is made where a road over
    /// `turn_to_area` meets this segment from the side.
    pub fn get_intersection_area(&self, turn_to_area: GridArea) -> (area: GridArea)
        ensures
            area == self@.spec_intersection_area(turn_to_area),
            self.area.wf() && turn_to_area.wf() ==> area.wf(),
    {
        match self.orientation {
            GAxis::Z => GridArea::new(
                GridCell::new(self.area.min.x, turn_to_area.min.y),
                GridCell::new(self.area.max.x, turn_to_area.max.y),
            ),
            GAxis::X => GridArea::new(
                GridCell::new(turn_to_area.min.x, self.area.min.y),
                GridCell::new(turn_to_area.max.x, self.area.max.y),
            ),
        }
    }

    /// The intersection at end `end`.
    pub fn end_at(&self, end: usize) -> (intersection: Option<u64>)
        requires
            end < 2,
        ensures
            intersection == self.ends@[end as int],
    {
        self.ends[end]
    }

    /// Whether the segment runs along the building `building`.
    pub fn has_dest(&self, building: u64) -> (linked: bool)
        ensures
            linked == self.dests@.contains(building),
    {
        self.dests.contains(building)
    }

    /// The buildings that the segment runs along, each once.
    pub fn dest_list(&self) -> (buildings: Vec<u64>)
        ensures
            buildings@.no_duplicates(),
            buildings@.to_set() == self.dests@,
    {
        self.dests.to_vec()
    }

    /// The vehicles whose path holds the segment, each once.
    pub fn observer_list(&self) -> (vehicles: Vec<u64>)
        ensures
            vehicles@.no_duplicates(),
            vehicles@.to_set() == self.observers@,
    {
        self.observers.to_vec()
    }
}

} // verus!
