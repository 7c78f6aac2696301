use crate::bounds::spec_clamp;
use crate::graph::graph_view::{apply_each, lemma_apply_each_step, GraphView};
use crate::graph::path_finder::{always_found, choose_trip, find_path, is_trip, never_found};
use crate::graph::road_graph::RoadGraph;
use crate::grid::grid_area::GridArea;
use crate::grid::orientation::{GAxis, GDir};
use crate::types::road_segment::{RoadSegment, SegmentView};
use vstd::prelude::*;

verus! {

/// For how many buildings the city keeps one vehicle on the road.
pub const BUILDINGS_PER_VEHICLE: usize = 5;

/// A vehicle on its way: the path that it follows, the place in the path
/// that it has come to, and the lane that it drives in.
#[derive(Debug)]
pub struct Vehicle {
    pub path: Vec<u64>,
    pub path_index: usize,
    pub lane: i32,
}

/// What a vehicle is to the rules of the road.
pub struct VehicleView {
    pub path: Seq<u64>,
    pub path_index: int,
    pub lane: int,
}

impl View for Vehicle {
    type V = VehicleView;

    open spec fn view(&self) -> VehicleView {
        VehicleView {
            path: self.path@,
            path_index: self.path_index as int,
            lane: self.lane as int,
        }
    }
}

/// The kind of a step of a path.
#[derive(Clone, Copy, PartialEq, Eq, Debug, Structural)]
pub enum StepType {
    Road,
    Intersection,
    Building,
}

/// What a vehicle is to do next.
#[derive(Clone, Copy, PartialEq, Eq, Debug, Structural)]
pub enum Maneuver {
    /// The vehicle stands on the last step of its path: it is to be
    /// taken off the road.
    Arrived,
    /// From a building onto a segment: the vehicle is set on the middle
    /// line of the segment at once, and its cursor has moved on.
    JoinRoad { road: u64 },
    /// Along a segment towards the building at the end of the trip.
    ApproachBuilding { road: u64, building: u64 },
    /// Along a segment towards an intersection, in the lane `lane`; the
    /// intersection lies in the direction `approach` from the segment.
    ApproachIntersection { road: u64, intersection: u64, approach: GDir, lane: i32 },
    /// Out of an intersection onto a segment, in the lane `lane`; the
    /// vehicle leaves in the direction `exit`.
    LeaveIntersection { intersection: u64, road: u64, exit: GDir, lane: i32 },
    /// A step of the path names nothing that is there, or the two steps
    /// do not follow each other: the vehicle holds its place.
    Hold,
}

/// The kind of `step_entity`: a road where it names a segment, a building
/// where it names a building, and an intersection otherwise.
pub open spec fn spec_step_type(graph: GraphView, step_entity: u64) -> StepType {
    if graph.segments.contains_key(step_entity) {
        StepType::Road
    } else if graph.buildings.contains_key(step_entity) {
        StepType::Building
    } else {
        StepType::Intersection
    }
}

/// Twice the middle of an area along `y`.
pub open spec fn doubled_mid_y(area: GridArea) -> int {
    area.min.y + area.max.y + 1
}

/// Twice the middle of an area along `x`.
pub open spec fn doubled_mid_x(area: GridArea) -> int {
    area.min.x + area.max.x + 1
}

/// The heading from a segment over `own`, along `axis`, towards `area`:
/// along `Z` north where the middle of `area` has the larger `y` and
/// south otherwise, along `X` west where it has the larger `x` and east
/// otherwise.
pub open spec fn spec_direction_to_area(axis: GAxis, own: GridArea, area: GridArea) -> GDir {
    match axis {
        GAxis::Z => if doubled_mid_y(area) > doubled_mid_y(own) {
            GDir::North
        } else {
            GDir::South
        },
        GAxis::X => if doubled_mid_x(area) > doubled_mid_x(own) {
            GDir::West
        } else {
            GDir::East
        },
    }
}

/// The lane for a turn from the segment `curr` onto the segment `next`,
/// on a segment with `lanes` lanes, for a vehicle that drove in the lane
/// `prev`.
///
/// Straight on, the vehicle keeps its lane, brought into the range from
/// 0 to `lanes - 2`, or to 0 where that range is empty. For a turn the
/// lane is the outermost, `lanes - 1`, or the innermost, 0: onto a
/// segment along `X` the outermost where `next` lies towards smaller `x`
/// and towards smaller `y` alike, or towards neither; onto a segment
/// along `Z` the outermost where it lies towards one of them only.
pub open spec fn spec_lane_for_turn(curr: SegmentView, next: SegmentView, lanes: int, prev: int)
    -> int {
    let z_less = doubled_mid_y(next.area) < doubled_mid_y(curr.area);
    let x_less = doubled_mid_x(next.area) < doubled_mid_x(curr.area);
    if curr.orientation == next.orientation {
        spec_clamp(prev, 0, if lanes - 2 > 0 { lanes - 2 } else { 0 })
    } else if next.orientation == GAxis::X {
        if z_less == x_less {
            lanes - 1
        } else {
            0
        }
    } else {
        if z_less != x_less {
            lanes - 1
        } else {
            0
        }
    }
}

/// The kind of a step of a path.
pub fn get_step_type(step_entity: u64, graph: &RoadGraph) -> (kind: StepType)
    ensures
        kind == spec_step_type(graph@, step_entity),
{
    if graph.segment(step_entity).is_some() {
        StepType::Road
    } else if graph.building(step_entity).is_some() {
        StepType::Building
    } else {
        StepType::Intersection
    }
}

/// The heading from `segment` towards `area`, along the axis of the
/// segment.
pub fn direction_to_area(segment: &RoadSegment, area: GridArea) -> (dir: GDir)
    ensures
        dir == spec_direction_to_area(segment.orientation, segment.area, area),
        dir.spec_axis() == segment.orientation,
{
    match segment.orientation {
        GAxis::Z => {
            if area.min.y as i64 + area.max.y as i64 > segment.area.min.y as i64
                + segment.area.max.y as i64 {
                GDir::North
            } else {
                GDir::South
            }
        },
        GAxis::X => {
            if area.min.x as i64 + area.max.x as i64 > segment.area.min.x as i64
                + segment.area.max.x as i64 {
                GDir::West
            } else {
                GDir::East
            }
        },
    }
}

/// The lane for a turn from `curr` onto `next`, counted on the segment
/// `clamp`, for a vehicle that drove in the lane `prev`.
pub fn get_lane_for_turn(curr: &RoadSegment, next: &RoadSegment, clamp: &RoadSegment, prev: i32)
    -> (lane: i32)
    requires
        clamp.area.wf(),
        clamp.area.width() <= i32::MAX,
        clamp.area.height() <= i32::MAX,
    ensures
        lane == spec_lane_for_turn(curr@, next@, clamp@.spec_num_lanes(), prev as int),
{
    let z_less = (next.area.min.y as i64 + next.area.max.y as i64) < (curr.area.min.y as i64
        + curr.area.max.y as i64);
    let x_less = (next.area.min.x as i64 + next.area.max.x as i64) < (curr.area.min.x as i64
        + curr.area.max.x as i64);
    let lanes = clamp.num_lanes();
    if curr.orientation == next.orientation {
        let high: i32 = if lanes - 2 > 0 {
            lanes - 2
        } else {
            0
        };
        crate::bounds::clamp(prev, 0, high)
    } else if next.orientation == GAxis::X {
        if z_less == x_less {
            lanes - 1
        } else {
            0
        }
    } else {
        if z_less != x_less {
            lanes - 1
        } else {
            0
        }
    }
}

/// Whether one more vehicle is wanted: the city keeps one vehicle on the
/// road for every full five buildings.
pub fn wants_vehicle(num_buildings: usize, num_vehicles: usize) -> (wanted: bool)
    ensures
        wanted == (num_vehicles < num_buildings / BUILDINGS_PER_VEHICLE),
{
    let max_vehicles = num_buildings / BUILDINGS_PER_VEHICLE;
    num_vehicles < max_vehicles
}

/// Whether `vehicle` is to brake for the vehicle next ahead of it. It is,
/// unless nothing is ahead or the vehicle ahead has `vehicle` itself next
/// ahead of it: two vehicles that face each other do not wait for each
/// other.
pub fn brakes_for(vehicle: u64, ahead: Option<u64>, ahead_of_that: Option<u64>) -> (brakes: bool)
    ensures
        brakes == (ahead is Some && ahead_of_that != Some(vehicle)),
{
    match ahead {
        Some(_) => match ahead_of_that {
            Some(other) => other != vehicle,
            None => true,
        },
        None => false,
    }
}

impl VehicleView {
    /// The vehicle stands on the last step of its path, or beyond it.
    pub open spec fn arrived(self) -> bool {
        self.path.len() == 0 || self.path_index >= self.path.len() - 1
    }

    /// What the vehicle is to do next, in the network `graph`.
    pub open spec fn maneuver(self, graph: GraphView) -> Maneuver {
        if self.arrived() {
            Maneuver::Arrived
        } else {
            let curr = self.path[self.path_index];
            let next = self.path[self.path_index + 1];
            let curr_type = spec_step_type(graph, curr);
            let next_type = spec_step_type(graph, next);
            if curr_type == StepType::Building && next_type == StepType::Road {
                Maneuver::JoinRoad { road: next }
            } else if curr_type == StepType::Road && next_type == StepType::Building {
                Maneuver::ApproachBuilding { road: curr, building: next }
            } else if curr_type == StepType::Road && next_type == StepType::Intersection {
                if graph.intersections.contains_key(next) {
                    Maneuver::ApproachIntersection {
                        road: curr,
                        intersection: next,
                        approach: spec_direction_to_area(
                            graph.segments[curr].orientation,
                            graph.segments[curr].area,
                            graph.intersections[next].area,
                        ),
                        lane: self.lane_after(graph) as i32,
                    }
                } else {
                    Maneuver::Hold
                }
            } else if curr_type == StepType::Intersection {
                if graph.intersections.contains_key(curr) && graph.segments.contains_key(next) {
                    Maneuver::LeaveIntersection {
                        intersection: curr,
                        road: next,
                        exit: spec_direction_to_area(
                            graph.segments[next].orientation,
                            graph.segments[next].area,
                            graph.intersections[curr].area,
                        ).spec_inverse(),
                        lane: self.lane_after(graph) as i32,
                    }
                } else {
                    Maneuver::Hold
                }
            } else {
                Maneuver::Hold
            }
        }
    }

    /// The lane of the vehicle after it has looked ahead. The lane
    /// changes before a turn only: on a segment towards an intersection,
    /// where the step after the intersection is a segment, and in an
    /// intersection, where the step before it was a segment.
    pub open spec fn lane_after(self, graph: GraphView) -> int {
        if self.arrived() {
            self.lane
        } else {
            let curr = self.path[self.path_index];
            let next = self.path[self.path_index + 1];
            if graph.segments.contains_key(curr) && !graph.segments.contains_key(next)
                && !graph.buildings.contains_key(next) && graph.intersections.contains_key(next) {
                if self.path_index + 2 < self.path.len() && graph.segments.contains_key(
                    self.path[self.path_index + 2],
                ) {
                    spec_lane_for_turn(
                        graph.segments[curr],
                        graph.segments[self.path[self.path_index + 2]],
                        graph.segments[curr].spec_num_lanes(),
                        self.lane,
                    )
                } else {
                    self.lane
                }
            } else if !graph.segments.contains_key(curr) && !graph.buildings.contains_key(curr)
                && graph.intersections.contains_key(curr) && graph.segments.contains_key(next) {
                if self.path_index >= 1 && graph.segments.contains_key(
                    self.path[self.path_index - 1],
                ) {
                    spec_lane_for_turn(
                        graph.segments[self.path[self.path_index - 1]],
                        graph.segments[next],
                        graph.segments[next].spec_num_lanes(),
                        self.lane,
                    )
                } else {
                    self.lane
                }
            } else {
                self.lane
            }
        }
    }

    /// The cursor of the vehicle after it has looked ahead: a vehicle
    /// that leaves a building joins the segment at once.
    pub open spec fn index_after(self, graph: GraphView) -> int {
        if self.maneuver(graph) is JoinRoad {
            self.path_index + 1
        } else {
            self.path_index
        }
    }
}

impl Vehicle {
    /// A vehicle at the start of `path`, in the innermost lane.
    pub fn new(path: Vec<u64>) -> (vehicle: Self)
        ensures
            vehicle@ == (VehicleView { path: path@, path_index: 0, lane: 0 }),
    {
        Self { path, path_index: 0, lane: 0 }
    }

    /// Whether the vehicle stands on the last step of its path.
    pub fn has_arrived(&self) -> (arrived: bool)
        ensures
            arrived == self@.arrived(),
    {
        self.path.len() == 0 || self.path_index >= self.path.len() - 1
    }

    /// The step of the path that the vehicle stands on, if the cursor
    /// points into the path.
    pub fn current_step(&self) -> (step: Option<u64>)
        ensures
            step == if self@.path_index < self@.path.len() {
                Some(self@.path[self@.path_index])
            } else {
                None
            },
    {
        if self.path_index < self.path.len() {
            Some(self.path[self.path_index])
        } else {
            None
        }
    }

    /// Moves the cursor on by one step, once the vehicle has come to where
    /// its maneuver led. A vehicle that has arrived stays.
    pub fn complete_step(&mut self)
        ensures
            final(self)@ == (VehicleView {
                path_index: if old(self)@.arrived() {
                    old(self)@.path_index
                } else {
                    old(self)@.path_index + 1
                },
                ..old(self)@
            }),
    {
        let steps = self.path.len();
        if steps > 0 && self.path_index < steps - 1 {
            self.path_index = self.path_index + 1;
        }
    }
}

/// Looks ahead for a vehicle and says what it is to do next.
///
/// The steps that the cursor points to and the one after it decide by
/// their kinds. From a building onto a segment the cursor moves on at
/// once. Before a turn the lane of the vehicle is set for it. Where a
/// step names nothing that is there, the vehicle holds its place.
pub fn update_vehicle(vehicle: &mut Vehicle, graph: &RoadGraph) -> (maneuver: Maneuver)
    requires
        graph.wf(),
    ensures
        maneuver == old(vehicle)@.maneuver(graph@),
        final(vehicle)@ == (VehicleView {
            path_index: old(vehicle)@.index_after(graph@),
            lane: old(vehicle)@.lane_after(graph@),
            ..old(vehicle)@
        }),
{
    proof {
        graph.lemma_wf_view();
    }
    let steps = vehicle.path.len();
    if steps == 0 || vehicle.path_index >= steps - 1 {
        return Maneuver::Arrived;
    }
    let curr = vehicle.path[vehicle.path_index];
    let next = vehicle.path[vehicle.path_index + 1];
    let curr_type = get_step_type(curr, graph);
    let next_type = get_step_type(next, graph);

    if curr_type == StepType::Building && next_type == StepType::Road {
        vehicle.path_index = vehicle.path_index + 1;
        return Maneuver::JoinRoad { road: next };
    } else if curr_type == StepType::Road && next_type == StepType::Building {
        return Maneuver::ApproachBuilding { road: curr, building: next };
    } else if curr_type == StepType::Road && next_type == StepType::Intersection {
        match graph.intersection(next) {
            Some(intersection) => {
                match graph.segment(curr) {
                    Some(segment) => {
                        let approach = direction_to_area(segment, intersection.area());
                        if steps - vehicle.path_index > 2 {
                            match graph.segment(vehicle.path[vehicle.path_index + 2]) {
                                Some(next_segment) => {
                                    proof {
                                        crate::graph::graph_view::lemma_area_ok_margin(
                                            graph@,
                                            segment.area,
                                        );
                                    }
                                    vehicle.lane = get_lane_for_turn(
                                        segment,
                                        next_segment,
                                        segment,
                                        vehicle.lane,
                                    );
                                },
                                None => {},
                            }
                        }
                        return Maneuver::ApproachIntersection {
                            road: curr,
                            intersection: next,
                            approach,
                            lane: vehicle.lane,
                        };
                    },
                    None => {},
                }
            },
            None => {},
        }
    } else if curr_type == StepType::Intersection {
        match graph.intersection(curr) {
            Some(intersection) => {
                match graph.segment(next) {
                    Some(next_segment) => {
                        let exit = direction_to_area(next_segment, intersection.area()).inverse();
                        if vehicle.path_index >= 1 {
                            match graph.segment(vehicle.path[vehicle.path_index - 1]) {
                                Some(prev_segment) => {
                                    proof {
                                        crate::graph::graph_view::lemma_area_ok_margin(
                                            graph@,
                                            next_segment.area,
                                        );
                                    }
                                    vehicle.lane = get_lane_for_turn(
                                        prev_segment,
                                        next_segment,
                                        next_segment,
                                        vehicle.lane,
                                    );
                                },
                                None => {},
                            }
                        }
                        return Maneuver::LeaveIntersection {
                            intersection: curr,
                            road: next,
                            exit,
                            lane: vehicle.lane,
                        };
                    },
                    None => {},
                }
            },
            None => {},
        }
    }
    Maneuver::Hold
}

/// Makes `vehicle` an observer of every record on `path`, so that the
/// vehicle is taken off the road when one of them is destroyed.
pub fn register_observers(graph: &mut RoadGraph, path: &Vec<u64>, vehicle: u64)
    requires
        old(graph).wf(),
    ensures
        final(graph).wf(),
        final(graph)@ == apply_each(
            old(graph)@,
            path@,
            |before: GraphView, entity: u64| before.with_observer(entity, vehicle),
        ),
{
    let ghost step = |before: GraphView, entity: u64| before.with_observer(entity, vehicle);
    let mut i: usize = 0;
    proof {
        assert(path@.take(0) =~= Seq::<u64>::empty());
    }
    while i < path.len()
        invariant
            i <= path@.len(),
            step == |before: GraphView, entity: u64| before.with_observer(entity, vehicle),
            graph.wf(),
            graph@ == apply_each(old(graph)@, path@.take(i as int), step),
        decreases path@.len() - i,
    {
        let entity = path[i];
        proof {
            lemma_apply_each_step(old(graph)@, path@, step, i as int);
        }
        graph.add_observer(entity, vehicle);
        i = i + 1;
    }
    proof {
        assert(path@.take(path@.len() as int) =~= path@);
    }
}

/// Sends a new vehicle on a trip between two of `buildings`.
///
/// The two ends of the trip are drawn by chance, a path between them is
/// searched, and `vehicle`, the handle of the new vehicle, is made an
/// observer of every record on the path. Where the list holds fewer than
/// two buildings or no path is found, there is no vehicle and the network
/// stays as it is.
pub fn spawn_vehicle(graph: &mut RoadGraph, buildings: &Vec<u64>, vehicle: u64) -> (spawned:
    Option<Vehicle>)
    requires
        old(graph).wf(),
    ensures
        final(graph).wf(),
        buildings@.len() < 2 ==> spawned is None,
        buildings@.len() >= 2 && (forall|i: int, j: int|
            0 <= i < buildings@.len() && 0 <= j < buildings@.len() && i != j ==> always_found(
                old(graph)@,
                #[trigger] buildings@[i],
                #[trigger] buildings@[j],
            )) ==> spawned is Some,
        (forall|i: int, j: int|
            0 <= i < buildings@.len() && 0 <= j < buildings@.len() && i != j ==> never_found(
                old(graph)@,
                #[trigger] buildings@[i],
                #[trigger] buildings@[j],
            )) ==> spawned is None,
        match spawned {
            Some(driver) => {
                &&& driver@.path_index == 0
                &&& driver@.lane == 0
                &&& exists|i: int, j: int|
                    0 <= i < buildings@.len() && 0 <= j < buildings@.len() && i != j && is_trip(
                        old(graph)@,
                        #[trigger] buildings@[i],
                        #[trigger] buildings@[j],
                        driver@.path,
                    )
                &&& final(graph)@ == apply_each(
                    old(graph)@,
                    driver@.path,
                    |before: GraphView, entity: u64| before.with_observer(entity, vehicle),
                )
            },
            None => final(graph)@ == old(graph)@,
        },
{
    let (start, goal) = match choose_trip(buildings) {
        Some(trip) => trip,
        None => {
            return None;
        },
    };
    match find_path(graph, start, goal) {
        Some(path) => {
            register_observers(graph, &path, vehicle);
            Some(Vehicle::new(path))
        },
        None => None,
    }
}

} // verus!
