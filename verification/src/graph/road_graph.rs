use crate::collections::entity_set::EntitySet;
use crate::graph::graph_view::{
    apply_each, lemma_apply_each_step,
    end_slot, lemma_area_ok_margin, lemma_covered_strip_touches_back, lemma_empty_wf,
    lemma_hard_destroy_wf, lemma_join_wf, lemma_link_building_side_wf,
    lemma_link_intersection_side_wf, lemma_link_road_end_wf, lemma_placed_disjoint,
    lemma_soft_destroy_wf, lemma_uniform_strip_touches, lemma_unlink_building_wf,
    lemma_unlink_intersection_wf, lemma_unlink_road_wf, lemma_unlink_wf,
    lemma_with_building_wf, lemma_with_dests_wf, lemma_with_intersection_wf,
    lemma_with_observer_wf, lemma_with_segment_wf, slot_end, GraphView,
};
use crate::graph::road_graph_events::{
    buildings_destroyed, buildings_spawned, intersections_destroyed, intersections_spawned,
    roads_destroyed, roads_spawned, OnBuildingDestroyed, OnBuildingSpawned,
    OnIntersectionDestroyed, OnIntersectionSpawned, OnRoadDestroyed, OnRoadSpawned,
};
use crate::grid::grid::Grid;
use crate::grid::grid_area::{lemma_cell_at, lemma_index_of, GridArea};
use crate::grid::grid_cell::GridCell;
use crate::grid::orientation::{GAxis, GDir};
use crate::types::building::{Building, BuildingView};
use crate::types::intersection::{Intersection, IntersectionView};
use crate::types::road_segment::{RoadSegment, SegmentView};
use std::collections::HashMap;
use vstd::prelude::*;

verus! {

broadcast use vstd::std_specs::hash::group_hash_axioms;

/// Why a record could not be made.
#[derive(Copy, Clone, Debug, PartialEq, Eq, Structural)]
pub enum SpawnError {
    /// The area has no cell, reaches outside the grid or holds an
    /// occupied cell.
    InvalidPaintArea,
    /// The handle already names a record.
    EntityInUse,
}

/// The kind of a record.
#[derive(Copy, Clone, Debug, PartialEq, Eq, Structural)]
pub enum NodeKind {
    Road,
    Intersection,
    Building,
}

/// The road network: the occupancy grid and the records of the segments,
/// intersections and buildings that stand on it, by their handles.
#[derive(Debug)]
pub struct RoadGraph {
    grid: Grid,
    segments: HashMap<u64, RoadSegment>,
    intersections: HashMap<u64, Intersection>,
    buildings: HashMap<u64, Building>,
}

pub open spec fn segment_views(records: Map<u64, RoadSegment>) -> Map<u64, SegmentView> {
    Map::new(|entity: u64| records.contains_key(entity), |entity: u64| records[entity]@)
}

pub open spec fn intersection_views(records: Map<u64, Intersection>) -> Map<
    u64,
    IntersectionView,
> {
    Map::new(|entity: u64| records.contains_key(entity), |entity: u64| records[entity]@)
}

pub open spec fn building_views(records: Map<u64, Building>) -> Map<u64, BuildingView> {
    Map::new(|entity: u64| records.contains_key(entity), |entity: u64| records[entity]@)
}

impl View for RoadGraph {
    type V = GraphView;

    closed spec fn view(&self) -> GraphView {
        GraphView {
            grid: self.grid@,
            segments: segment_views(self.segments@),
            intersections: intersection_views(self.intersections@),
            buildings: building_views(self.buildings@),
        }
    }
}

impl RoadGraph {
    /// The grid is valid and the network is consistent.
    pub closed spec fn wf(&self) -> bool {
        self.grid.wf() && self@.wf()
    }

    /// A valid network has a consistent view.
    pub proof fn lemma_wf_view(&self)
        requires
            self.wf(),
        ensures
            self@.wf(),
    {
    }

    /// The records of a network are finitely many.
    pub proof fn lemma_finite(&self)
        ensures
            self@.segments.dom().finite(),
            self@.intersections.dom().finite(),
            self@.buildings.dom().finite(),
    {
        assert(self@.segments.dom() =~= self.segments@.dom());
        assert(self@.intersections.dom() =~= self.intersections@.dom());
        assert(self@.buildings.dom() =~= self.buildings@.dom());
    }

    /// A network without records on a grid of the given radius.
    pub fn new(radius: i32) -> (graph: Self)
        requires
            0 <= radius <= crate::grid::grid::MAX_GRID_RADIUS,
        ensures
            graph.wf(),
            graph@ == GraphView::empty(radius as int),
    {
        let graph = Self {
            grid: Grid::new(radius),
            segments: HashMap::new(),
            intersections: HashMap::new(),
            buildings: HashMap::new(),
        };
        proof {
            lemma_empty_wf(radius as int);
            assert(graph@.segments =~= Map::empty());
            assert(graph@.intersections =~= Map::empty());
            assert(graph@.buildings =~= Map::empty());
            assert(graph@.grid == GraphView::empty(radius as int).grid);
        }
        graph
    }

    /// The occupancy grid of the network.
    pub fn grid(&self) -> (grid: &Grid)
        ensures
            grid@ == self@.grid,
            self.wf() ==> grid.wf(),
    {
        &self.grid
    }

    /// The record of the segment `entity`, if there is one.
    pub fn segment(&self, entity: u64) -> (found: Option<&RoadSegment>)
        ensures
            match found {
                Some(record) => self@.segments.contains_key(entity) && record@
                    == self@.segments[entity],
                None => !self@.segments.contains_key(entity),
            },
    {
        self.segments.get(&entity)
    }

    /// The record of the intersection `entity`, if there is one.
    pub fn intersection(&self, entity: u64) -> (found: Option<&Intersection>)
        ensures
            match found {
                Some(record) => self@.intersections.contains_key(entity) && record@
                    == self@.intersections[entity],
                None => !self@.intersections.contains_key(entity),
            },
    {
        self.intersections.get(&entity)
    }

    /// The record of the building `entity`, if there is one.
    pub fn building(&self, entity: u64) -> (found: Option<&Building>)
        ensures
            match found {
                Some(record) => self@.buildings.contains_key(entity) && record@
                    == self@.buildings[entity],
                None => !self@.buildings.contains_key(entity),
            },
    {
        self.buildings.get(&entity)
    }

    /// The kind of the record `entity`, if there is one. A handle is
    /// looked up among the segments first, then among the buildings,
    /// then among the intersections.
    pub fn kind(&self, entity: u64) -> (kind: Option<NodeKind>)
        ensures
            kind == if self@.segments.contains_key(entity) {
                Some(NodeKind::Road)
            } else if self@.buildings.contains_key(entity) {
                Some(NodeKind::Building)
            } else if self@.intersections.contains_key(entity) {
                Some(NodeKind::Intersection)
            } else {
                None
            },
            kind is Some == self@.is_record(entity),
    {
        if self.segments.contains_key(&entity) {
            Some(NodeKind::Road)
        } else if self.buildings.contains_key(&entity) {
            Some(NodeKind::Building)
        } else if self.intersections.contains_key(&entity) {
            Some(NodeKind::Intersection)
        } else {
            None
        }
    }

    /// Whether a record for `entity` may be made on `area`.
    fn check_spawn(&self, entity: u64, area: GridArea) -> (checked: Result<(), SpawnError>)
        requires
            self.wf(),
        ensures
            match checked {
                Ok(()) => self@.can_spawn(entity, area),
                Err(SpawnError::InvalidPaintArea) => !(area.wf() && self@.grid.valid_paint_area(
                    area,
                )),
                Err(SpawnError::EntityInUse) => area.wf() && self@.grid.valid_paint_area(area)
                    && self@.is_record(entity),
            },
    {
        if !(area.min.x <= area.max.x && area.min.y <= area.max.y) {
            return Err(SpawnError::InvalidPaintArea);
        }
        if !self.grid.is_valid_paint_area(area) {
            return Err(SpawnError::InvalidPaintArea);
        }
        if self.kind(entity).is_some() {
            return Err(SpawnError::EntityInUse);
        }
        Ok(())
    }

    /// Makes the segment `entity` on `area`: the area becomes occupied
    /// and the record is stored, with no links yet. Fails, and changes
    /// nothing, where the area is no valid paint area or the handle is
    /// taken.
    pub fn spawn_road(&mut self, entity: u64, area: GridArea, orientation: GAxis) -> (spawned:
        Result<(), SpawnError>)
        requires
            old(self).wf(),
        ensures
            final(self).wf(),
            match spawned {
                Ok(()) => old(self)@.can_spawn(entity, area) && final(self)@
                    == old(self)@.with_segment(entity, area, orientation),
                Err(SpawnError::InvalidPaintArea) => !(area.wf()
                    && old(self)@.grid.valid_paint_area(area)) && final(self)@ == old(self)@,
                Err(SpawnError::EntityInUse) => area.wf() && old(self)@.grid.valid_paint_area(
                    area,
                ) && old(self)@.is_record(entity) && final(self)@ == old(self)@,
            },
    {
        match self.check_spawn(entity, area) {
            Ok(()) => {},
            Err(e) => {
                return Err(e);
            },
        }
        self.grid.mark_area_occupied(area, entity);
        self.segments.insert(entity, RoadSegment::new(area, orientation));
        proof {
            lemma_with_segment_wf(old(self)@, entity, area, orientation);
            assert(self@.segments =~= old(self)@.segments.insert(
                entity,
                SegmentView::fresh(area, orientation),
            ));
        }
        Ok(())
    }

    /// Makes the intersection `entity` on `area`: the area becomes
    /// occupied and the record is stored, with no links yet. Fails, and
    /// changes nothing, where the area is no valid paint area or the
    /// handle is taken.
    pub fn spawn_intersection(&mut self, entity: u64, area: GridArea) -> (spawned: Result<
        (),
        SpawnError,
    >)
        requires
            old(self).wf(),
        ensures
            final(self).wf(),
            match spawned {
                Ok(()) => old(self)@.can_spawn(entity, area) && final(self)@
                    == old(self)@.with_intersection(entity, area),
                Err(SpawnError::InvalidPaintArea) => !(area.wf()
                    && old(self)@.grid.valid_paint_area(area)) && final(self)@ == old(self)@,
                Err(SpawnError::EntityInUse) => area.wf() && old(self)@.grid.valid_paint_area(
                    area,
                ) && old(self)@.is_record(entity) && final(self)@ == old(self)@,
            },
    {
        match self.check_spawn(entity, area) {
            Ok(()) => {},
            Err(e) => {
                return Err(e);
            },
        }
        self.grid.mark_area_occupied(area, entity);
        self.intersections.insert(entity, Intersection::new(area));
        proof {
            lemma_with_intersection_wf(old(self)@, entity, area);
            assert(self@.intersections =~= old(self)@.intersections.insert(
                entity,
                IntersectionView::fresh(area),
            ));
        }
        Ok(())
    }

    /// Makes the building `entity` on `area`: the area becomes occupied
    /// and the record is stored, with no links yet. Fails, and changes
    /// nothing, where the area is no valid paint area or the handle is
    /// taken.
    pub fn spawn_building(&mut self, entity: u64, area: GridArea) -> (spawned: Result<
        (),
        SpawnError,
    >)
        requires
            old(self).wf(),
        ensures
            final(self).wf(),
            match spawned {
                Ok(()) => old(self)@.can_spawn(entity, area) && final(self)@
                    == old(self)@.with_building(entity, area),
                Err(SpawnError::InvalidPaintArea) => !(area.wf()
                    && old(self)@.grid.valid_paint_area(area)) && final(self)@ == old(self)@,
                Err(SpawnError::EntityInUse) => area.wf() && old(self)@.grid.valid_paint_area(
                    area,
                ) && old(self)@.is_record(entity) && final(self)@ == old(self)@,
            },
    {
        match self.check_spawn(entity, area) {
            Ok(()) => {},
            Err(e) => {
                return Err(e);
            },
        }
        self.grid.mark_area_occupied(area, entity);
        self.buildings.insert(entity, Building::new(area));
        proof {
            lemma_with_building_wf(old(self)@, entity, area);
            assert(self@.buildings =~= old(self)@.buildings.insert(
                entity,
                BuildingView::fresh(area),
            ));
        }
        Ok(())
    }

    /// The grids of the two networks are the same.
    pub closed spec fn same_grid(&self, other: &Self) -> bool {
        self.grid == other.grid
    }

    /// Points end `end` of the segment `road` to `target`.
    fn set_end(&mut self, road: u64, end: usize, target: Option<u64>)
        requires
            old(self)@.segments.contains_key(road),
            end < 2,
        ensures
            final(self).same_grid(old(self)),
            final(self)@ == (GraphView {
                segments: old(self)@.segments.insert(
                    road,
                    old(self)@.segments[road].with_end(end as int, target),
                ),
                ..old(self)@
            }),
    {
        let found = self.segments.remove(&road);
        let mut record = found.unwrap();
        record.ends[end] = target;
        self.segments.insert(road, record);
        proof {
            assert(self@.segments =~= old(self)@.segments.insert(
                road,
                old(self)@.segments[road].with_end(end as int, target),
            ));
        }
    }

    /// Puts `target` into slot `slot` of the intersection `node`.
    fn set_slot(&mut self, node: u64, slot: usize, target: Option<u64>)
        requires
            old(self)@.intersections.contains_key(node),
            slot < 4,
        ensures
            final(self).same_grid(old(self)),
            final(self)@ == (GraphView {
                intersections: old(self)@.intersections.insert(
                    node,
                    old(self)@.intersections[node].with_slot(slot as int, target),
                ),
                ..old(self)@
            }),
    {
        let found = self.intersections.remove(&node);
        let mut record = found.unwrap();
        record.roads[slot] = target;
        self.intersections.insert(node, record);
        proof {
            assert(self@.intersections =~= old(self)@.intersections.insert(
                node,
                old(self)@.intersections[node].with_slot(slot as int, target),
            ));
        }
    }

    /// Adds `building` to the buildings along the segment `road`.
    fn add_dest(&mut self, road: u64, building: u64)
        requires
            old(self)@.segments.contains_key(road),
        ensures
            final(self).same_grid(old(self)),
            final(self)@ == (GraphView {
                segments: old(self)@.segments.insert(
                    road,
                    old(self)@.segments[road].with_dests(set![building]),
                ),
                ..old(self)@
            }),
    {
        let found = self.segments.remove(&road);
        let mut record = found.unwrap();
        record.dests.insert(building);
        self.segments.insert(road, record);
        proof {
            assert(old(self)@.segments[road].dests.insert(building) =~= old(
                self,
            )@.segments[road].dests.union(set![building]));
            assert(self@.segments =~= old(self)@.segments.insert(
                road,
                old(self)@.segments[road].with_dests(set![building]),
            ));
        }
    }

    /// Takes `building` from the buildings along the segment `road`.
    fn remove_dest(&mut self, road: u64, building: u64)
        requires
            old(self)@.segments.contains_key(road),
        ensures
            final(self).same_grid(old(self)),
            final(self)@ == (GraphView {
                segments: old(self)@.segments.insert(
                    road,
                    old(self)@.segments[road].without_dest(building),
                ),
                ..old(self)@
            }),
    {
        let found = self.segments.remove(&road);
        let mut record = found.unwrap();
        record.dests.remove(building);
        self.segments.insert(road, record);
        proof {
            assert(self@.segments =~= old(self)@.segments.insert(
                road,
                old(self)@.segments[road].without_dest(building),
            ));
        }
    }

    /// Adds `road` to the segments along the building `building`.
    fn add_building_road(&mut self, building: u64, road: u64)
        requires
            old(self)@.buildings.contains_key(building),
        ensures
            final(self).same_grid(old(self)),
            final(self)@ == (GraphView {
                buildings: old(self)@.buildings.insert(
                    building,
                    old(self)@.buildings[building].with_road(road),
                ),
                ..old(self)@
            }),
    {
        let found = self.buildings.remove(&building);
        let mut record = found.unwrap();
        record.roads.insert(road);
        self.buildings.insert(building, record);
        proof {
            assert(self@.buildings =~= old(self)@.buildings.insert(
                building,
                old(self)@.buildings[building].with_road(road),
            ));
        }
    }

    /// Takes `road` from the segments along the building `building`.
    fn remove_building_road(&mut self, building: u64, road: u64)
        requires
            old(self)@.buildings.contains_key(building),
        ensures
            final(self).same_grid(old(self)),
            final(self)@ == (GraphView {
                buildings: old(self)@.buildings.insert(
                    building,
                    old(self)@.buildings[building].without_road(road),
                ),
                ..old(self)@
            }),
    {
        let found = self.buildings.remove(&building);
        let mut record = found.unwrap();
        record.roads.remove(road);
        self.buildings.insert(building, record);
        proof {
            assert(self@.buildings =~= old(self)@.buildings.insert(
                building,
                old(self)@.buildings[building].without_road(road),
            ));
        }
    }

    /// Whether the record `entity` with the area `area` occupies that
    /// area.
    fn is_placed(&self, entity: u64, area: GridArea) -> (placed: bool)
        requires
            self.wf(),
            self@.is_record(entity),
            self@.area_of(entity) == area,
        ensures
            placed == self@.placed(entity),
    {
        proof {
            assert(self@.area_ok(area));
        }
        match self.grid.single_entity_in_area(area) {
            Some(holder) => holder == entity,
            None => false,
        }
    }

    /// Points end `end` of the segment `road` and the facing slot of the
    /// intersection `node` at each other, and releases what either
    /// pointed to before.
    fn join(&mut self, road: u64, end: usize, node: u64)
        requires
            old(self).wf(),
            old(self)@.can_join(road, end as int, node),
        ensures
            final(self).wf(),
            final(self).same_grid(old(self)),
            final(self)@ == old(self)@.join(road, end as int, node),
    {
        let axis = self.segments.get(&road).unwrap().orientation;
        let slot = axis.end_direction(end).inverse().index();
        let displaced_road = self.intersections.get(&node).unwrap().roads[slot];
        let displaced_node = self.segments.get(&road).unwrap().ends[end];
        proof {
            assert(slot == end_slot(old(self)@.segments[road].orientation, end as int));
        }
        match displaced_road {
            Some(other) => {
                if other != road && self.segments.contains_key(&other) {
                    self.set_end(other, end, None);
                }
            },
            None => {},
        }
        match displaced_node {
            Some(other) => {
                if other != node && self.intersections.contains_key(&other) {
                    self.set_slot(other, slot, None);
                }
            },
            None => {},
        }
        self.set_end(road, end, Some(node));
        self.set_slot(node, slot, Some(road));
        proof {
            lemma_join_wf(old(self)@, road, end as int, node);
            assert(self@.segments =~= old(self)@.join(road, end as int, node).segments);
            assert(self@.intersections =~= old(self)@.join(
                road,
                end as int,
                node,
            ).intersections);
        }
    }

    /// Joins end `end` of the segment `road` to the intersection that
    /// occupies the whole strip against that end, if there is one.
    fn link_road_end(&mut self, road: u64, end: usize)
        requires
            old(self).wf(),
            old(self)@.segments.contains_key(road),
            old(self)@.placed(road),
            end < 2,
        ensures
            final(self).wf(),
            final(self).same_grid(old(self)),
            final(self)@ == old(self)@.link_road_end(road, end as int),
    {
        let record = self.segments.get(&road).unwrap();
        let dir = record.orientation.end_direction(end);
        proof {
            lemma_area_ok_margin(self@, record.area);
            lemma_link_road_end_wf(self@, road, end as int);
        }
        let strip = record.area.adjacent(dir);
        match self.grid.single_entity_in_area(strip) {
            Some(node) => {
                if self.intersections.contains_key(&node) {
                    proof {
                        lemma_uniform_strip_touches(self@, record.area, dir, node);
                    }
                    self.join(road, end, node);
                }
            },
            None => {},
        }
    }

    /// Adds to `found` every building that occupies a cell of `strip`.
    fn buildings_along(&self, strip: GridArea, found: &mut Vec<u64>)
        requires
            self.wf(),
            strip.wf(),
        ensures
            forall|building: u64|
                final(found)@.contains(building) <==> old(found)@.contains(building)
                    || self@.strip_buildings(strip).contains(building),
    {
        let mut walk = strip.iter();
        loop
            invariant
                self.wf(),
                strip.wf(),
                walk.wf(),
                walk.area() == strip,
                forall|building: u64|
                    found@.contains(building) ==> old(found)@.contains(building)
                        || self@.strip_buildings(strip).contains(building),
                forall|building: u64| old(found)@.contains(building) ==> found@.contains(building),
                forall|j: int|
                    0 <= j < walk.position() ==> match self@.grid.occupant(
                        #[trigger] strip.cells()[j],
                    ) {
                        Some(building) => self@.buildings.contains_key(building)
                            ==> found@.contains(building),
                        None => true,
                    },
            ensures
                walk.position() == strip.cell_count(),
            decreases strip.cell_count() - walk.position(),
        {
            let ghost position = walk.position();
            let ghost before = found@;
            match walk.next() {
                Some(cell) => {
                    match self.grid.entity_at(cell) {
                        Ok(Some(adj)) => {
                            if self.buildings.contains_key(&adj) {
                                found.push(adj);
                                proof {
                                    assert(found@[before.len() as int] == adj);
                                    assert forall|building: u64|
                                        before.contains(building) implies found@.contains(
                                        building,
                                    ) by {
                                        let k = choose|k: int|
                                            0 <= k < before.len() && before[k] == building;
                                        assert(found@[k] == building);
                                    }
                                    assert forall|building: u64|
                                        found@.contains(building) implies before.contains(
                                        building,
                                    ) || building == adj by {
                                        let k = choose|k: int|
                                            0 <= k < found@.len() && found@[k] == building;
                                        if k < before.len() {
                                            assert(before[k] == building);
                                        }
                                    }
                                    assert(self@.grid.occupant(cell) == Some(adj));
                                    assert(self@.strip_buildings(strip).contains(adj));
                                }
                            }
                        },
                        Ok(None) => {},
                        Err(_) => {},
                    }
                },
                None => {
                    break ;
                },
            }
        }
        proof {
            assert forall|building: u64|
                self@.strip_buildings(strip).contains(building) implies found@.contains(
                building,
            ) by {
                let cell = choose|cell: GridCell|
                    strip.contains(cell) && #[trigger] self@.grid.occupant(cell) == Some(building);
                lemma_index_of(strip, cell);
                assert(strip.cells()[strip.index_of(cell)] == cell);
            }
        }
    }

    /// Points the segment `road` and each building of `found` at each
    /// other.
    fn apply_dests(&mut self, road: u64, found: &Vec<u64>)
        requires
            old(self).wf(),
            old(self)@.segments.contains_key(road),
            forall|k: int|
                0 <= k < found@.len() ==> old(self)@.buildings.contains_key(#[trigger] found@[k]),
        ensures
            final(self).wf(),
            final(self).same_grid(old(self)),
            final(self)@ == old(self)@.with_dests(road, found@.to_set()),
    {
        let mut i: usize = 0;
        proof {
            assert(found@.take(0).to_set() =~= Set::<u64>::empty());
            assert(old(self)@.segments[road].dests.union(Set::empty())
                =~= old(self)@.segments[road].dests);
            assert(self@.segments =~= old(self)@.with_dests(road, Set::empty()).segments);
            assert(self@.buildings =~= old(self)@.with_dests(road, Set::empty()).buildings);
        }
        while i < found.len()
            invariant
                i <= found@.len(),
                old(self).wf(),
                old(self)@.segments.contains_key(road),
                forall|k: int|
                    0 <= k < found@.len() ==> old(self)@.buildings.contains_key(
                        #[trigger] found@[k],
                    ),
                self.same_grid(old(self)),
                self@ == old(self)@.with_dests(road, found@.take(i as int).to_set()),
            decreases found@.len() - i,
        {
            let building = found[i];
            let ghost before = self@;
            let ghost done = found@.take(i as int).to_set();
            self.add_dest(road, building);
            self.add_building_road(building, road);
            proof {
                lemma_take_to_set_step(found@, i as int);
                let next = found@.take(i + 1).to_set();
                let target = old(self)@.with_dests(road, next);
                assert(self@.segments[road].dests =~= target.segments[road].dests);
                assert(self@.segments =~= target.segments);
                assert forall|other: u64| self@.buildings.contains_key(other) implies (
                #[trigger] self@.buildings[other]) == target.buildings[other] by {
                    if other == building {
                        assert(self@.buildings[other].roads =~= target.buildings[other].roads);
                    }
                }
                assert(self@.buildings =~= target.buildings);
            }
            i = i + 1;
        }
        proof {
            assert(found@.take(found@.len() as int) =~= found@);
            assert forall|building: u64| found@.to_set().contains(building) implies old(
                self,
            )@.buildings.contains_key(building) by {
                let k = choose|k: int| 0 <= k < found@.len() && found@[k] == building;
                assert(old(self)@.buildings.contains_key(found@[k]));
            }
            lemma_with_dests_wf(old(self)@, road, found@.to_set());
        }
    }

    /// Links the segment `road` to what stands around it: at each of its
    /// two ends to the intersection that occupies the whole strip
    /// against that end, and to every building that occupies a cell of
    /// the four strips around it. Does nothing unless `road` is a
    /// segment that occupies its area.
    pub fn link_road(&mut self, road: u64)
        requires
            old(self).wf(),
        ensures
            final(self).wf(),
            final(self)@ == old(self)@.link_road(road),
    {
        let area = match self.segments.get(&road) {
            Some(record) => record.area,
            None => {
                return ;
            },
        };
        if !self.is_placed(road, area) {
            return ;
        }
        proof {
            lemma_link_road_end_wf(self@, road, 0);
            lemma_link_road_end_wf(self@.link_road_end(road, 0), road, 1);
            lemma_area_ok_margin(self@, area);
        }
        self.link_road_end(road, 0);
        self.link_road_end(road, 1);
        let ghost linked = self@;
        let mut found: Vec<u64> = Vec::new();
        self.buildings_along(area.adjacent_top(), &mut found);
        self.buildings_along(area.adjacent_bottom(), &mut found);
        self.buildings_along(area.adjacent_left(), &mut found);
        self.buildings_along(area.adjacent_right(), &mut found);
        proof {
            let ring = old(self)@.ring_buildings(area);
            assert forall|strip: GridArea| #[trigger]
                linked.strip_buildings(strip) =~= old(self)@.strip_buildings(strip) by {}
            assert forall|building: u64| found@.to_set().contains(building) == ring.contains(
                building,
            ) by {}
            assert(found@.to_set() =~= ring);
            assert forall|k: int| 0 <= k < found@.len() implies self@.buildings.contains_key(
                #[trigger] found@[k],
            ) by {
                assert(found@.contains(found@[k]));
            }
        }
        self.apply_dests(road, &found);
    }

    /// Joins the side `slot` of the intersection `node` to the segment
    /// that occupies the whole strip against that side, if there is one
    /// and it runs along the axis of that side.
    fn link_intersection_side(&mut self, node: u64, slot: usize)
        requires
            old(self).wf(),
            old(self)@.intersections.contains_key(node),
            old(self)@.placed(node),
            slot < 4,
        ensures
            final(self).wf(),
            final(self)@ == old(self)@.link_intersection_side(node, slot as int),
    {
        let area = self.intersections.get(&node).unwrap().area;
        let dir = GDir::from_index(slot);
        proof {
            lemma_area_ok_margin(self@, area);
            lemma_link_intersection_side_wf(self@, node, slot as int);
        }
        let strip = area.adjacent(dir);
        match self.grid.single_entity_in_area(strip) {
            Some(road) => {
                let along = match self.segments.get(&road) {
                    Some(record) => record.orientation == dir.axis(),
                    None => false,
                };
                if along {
                    proof {
                        lemma_uniform_strip_touches(self@, area, dir, road);
                        lemma_placed_disjoint(self@, node, road);
                        lemma_area_ok_margin(self@, self@.segments[road].area);
                        lemma_covered_strip_touches_back(area, dir, self@.segments[road].area);
                    }
                    self.join(road, dir.inverse().binary_index(), node);
                }
            },
            None => {},
        }
    }

    /// Links the intersection `node`, on each of its four sides, to the
    /// segment that occupies the whole strip against that side and ends
    /// there. Does nothing unless `node` is an intersection that
    /// occupies its area.
    pub fn link_intersection(&mut self, node: u64)
        requires
            old(self).wf(),
        ensures
            final(self).wf(),
            final(self)@ == old(self)@.link_intersection(node),
    {
        let area = match self.intersections.get(&node) {
            Some(record) => record.area,
            None => {
                return ;
            },
        };
        proof {
            self@.lemma_kind_of_intersection(node);
        }
        if !self.is_placed(node, area) {
            return ;
        }
        proof {
            let first = self@.link_intersection_side(node, 0);
            let second = first.link_intersection_side(node, 1);
            let third = second.link_intersection_side(node, 2);
            lemma_link_intersection_side_wf(self@, node, 0);
            lemma_link_intersection_side_wf(first, node, 1);
            lemma_link_intersection_side_wf(second, node, 2);
            lemma_link_intersection_side_wf(third, node, 3);
        }
        self.link_intersection_side(node, 0);
        self.link_intersection_side(node, 1);
        self.link_intersection_side(node, 2);
        self.link_intersection_side(node, 3);
    }

    /// Links the building `building` to the segment that occupies the
    /// whole strip against its side `slot`, if there is one.
    fn link_building_side(&mut self, building: u64, slot: usize)
        requires
            old(self).wf(),
            old(self)@.buildings.contains_key(building),
            slot < 4,
        ensures
            final(self).wf(),
            final(self)@ == old(self)@.link_building_side(building, slot as int),
    {
        let area = self.buildings.get(&building).unwrap().area;
        proof {
            lemma_area_ok_margin(self@, area);
            lemma_link_building_side_wf(self@, building, slot as int);
        }
        let strip = area.adjacent(GDir::from_index(slot));
        match self.grid.single_entity_in_area(strip) {
            Some(road) => {
                if self.segments.contains_key(&road) {
                    let mut found: Vec<u64> = Vec::new();
                    found.push(building);
                    proof {
                        assert(found@ =~= seq![building]);
                        assert(found@.to_set() =~= set![building]) by {
                            assert forall|item: u64| found@.to_set().contains(item) == (item
                                == building) by {
                                if item == building {
                                    assert(found@[0] == item);
                                }
                            }
                        }
                    }
                    self.apply_dests(road, &found);
                }
            },
            None => {},
        }
    }

    /// Links the building `building`, on each of its four sides, to the
    /// segment that occupies the whole strip against that side. Does
    /// nothing unless `building` is a building that occupies its area.
    pub fn link_building(&mut self, building: u64)
        requires
            old(self).wf(),
        ensures
            final(self).wf(),
            final(self)@ == old(self)@.link_building(building),
    {
        let area = match self.buildings.get(&building) {
            Some(record) => record.area,
            None => {
                return ;
            },
        };
        proof {
            self@.lemma_kind_of_building(building);
        }
        if !self.is_placed(building, area) {
            return ;
        }
        proof {
            let first = self@.link_building_side(building, 0);
            let second = first.link_building_side(building, 1);
            let third = second.link_building_side(building, 2);
            lemma_link_building_side_wf(self@, building, 0);
            lemma_link_building_side_wf(first, building, 1);
            lemma_link_building_side_wf(second, building, 2);
            lemma_link_building_side_wf(third, building, 3);
        }
        self.link_building_side(building, 0);
        self.link_building_side(building, 1);
        self.link_building_side(building, 2);
        self.link_building_side(building, 3);
    }

    /// Takes `building` from the buildings along each segment of
    /// `roads`.
    fn clear_building_from_roads(&mut self, roads: &Vec<u64>, building: u64)
        ensures
            final(self).same_grid(old(self)),
            final(self)@ == (GraphView {
                segments: Map::new(
                    |road: u64| old(self)@.segments.contains_key(road),
                    |road: u64|
                        if roads@.contains(road) {
                            old(self)@.segments[road].without_dest(building)
                        } else {
                            old(self)@.segments[road]
                        },
                ),
                ..old(self)@
            }),
    {
        let mut i: usize = 0;
        proof {
            assert(self@.segments =~= Map::new(
                |road: u64| old(self)@.segments.contains_key(road),
                |road: u64|
                    if roads@.take(0).contains(road) {
                        old(self)@.segments[road].without_dest(building)
                    } else {
                        old(self)@.segments[road]
                    },
            ));
        }
        while i < roads.len()
            invariant
                i <= roads@.len(),
                self.same_grid(old(self)),
                self@ == (GraphView {
                    segments: Map::new(
                        |road: u64| old(self)@.segments.contains_key(road),
                        |road: u64|
                            if roads@.take(i as int).contains(road) {
                                old(self)@.segments[road].without_dest(building)
                            } else {
                                old(self)@.segments[road]
                            },
                    ),
                    ..old(self)@
                }),
            decreases roads@.len() - i,
        {
            let road = roads[i];
            let ghost before = self@.segments;
            if self.segments.contains_key(&road) {
                self.remove_dest(road, building);
            }
            proof {
                let target = Map::new(
                    |other: u64| old(self)@.segments.contains_key(other),
                    |other: u64|
                        if roads@.take(i + 1).contains(other) {
                            old(self)@.segments[other].without_dest(building)
                        } else {
                            old(self)@.segments[other]
                        },
                );
                assert forall|other: u64| target.contains_key(other) implies (
                #[trigger] self@.segments[other]) == target[other] by {
                    lemma_take_contains_step(roads@, i as int, other);
                    if other == road {
                        assert(before.contains_key(road));
                        assert(self@.segments[road] == before[road].without_dest(building));
                        assert(roads@.take(i + 1).contains(road));
                        assert(target[road] == old(self)@.segments[road].without_dest(building));
                        assert(before[road] == if roads@.take(i as int).contains(road) {
                            old(self)@.segments[road].without_dest(building)
                        } else {
                            old(self)@.segments[road]
                        });
                        assert(self@.segments[other].dests =~= target[other].dests);
                    }
                }
                assert(self@.segments =~= target);
            }
            i = i + 1;
        }
        proof {
            assert(roads@.take(roads@.len() as int) =~= roads@);
        }
    }

    /// Empties every end of the segment `road` that points to `node`.
    fn strip_node_from_road(&mut self, road: u64, node: u64)
        requires
            old(self)@.segments.contains_key(road),
        ensures
            final(self).same_grid(old(self)),
            final(self)@ == (GraphView {
                segments: old(self)@.segments.insert(
                    road,
                    old(self)@.segments[road].without_node(node),
                ),
                ..old(self)@
            }),
    {
        let found = self.segments.remove(&road);
        let mut record = found.unwrap();
        let ghost ends = record.ends@;
        let mut i: usize = 0;
        while i < 2
            invariant
                i <= 2,
                ends.len() == 2,
                record.ends@.len() == 2,
                record@ == (SegmentView { ends: record.ends@, ..old(self)@.segments[road] }),
                forall|j: int|
                    0 <= j < i ==> record.ends@[j] == if ends[j] == Some(node) {
                        None
                    } else {
                        ends[j]
                    },
                forall|j: int| i <= j < 2 ==> record.ends@[j] == ends[j],
                ends == old(self)@.segments[road].ends,
            decreases 2 - i,
        {
            match record.ends[i] {
                Some(target) => {
                    if target == node {
                        record.ends[i] = None;
                    }
                },
                None => {},
            }
            i = i + 1;
        }
        proof {
            assert(record.ends@ =~= old(self)@.segments[road].without_node(node).ends);
        }
        self.segments.insert(road, record);
        proof {
            assert(self@.segments =~= old(self)@.segments.insert(
                road,
                old(self)@.segments[road].without_node(node),
            ));
        }
    }

    /// Empties every slot of the intersection `node` that holds `road`.
    fn strip_road_from_node(&mut self, node: u64, road: u64)
        requires
            old(self)@.intersections.contains_key(node),
        ensures
            final(self).same_grid(old(self)),
            final(self)@ == (GraphView {
                intersections: old(self)@.intersections.insert(
                    node,
                    old(self)@.intersections[node].without_road(road),
                ),
                ..old(self)@
            }),
    {
        let found = self.intersections.remove(&node);
        let mut record = found.unwrap();
        let ghost slots = record.roads@;
        let mut i: usize = 0;
        while i < 4
            invariant
                i <= 4,
                slots.len() == 4,
                record.roads@.len() == 4,
                record@ == (IntersectionView {
                    roads: record.roads@,
                    ..old(self)@.intersections[node]
                }),
                forall|j: int|
                    0 <= j < i ==> record.roads@[j] == if slots[j] == Some(road) {
                        None
                    } else {
                        slots[j]
                    },
                forall|j: int| i <= j < 4 ==> record.roads@[j] == slots[j],
                slots == old(self)@.intersections[node].roads,
            decreases 4 - i,
        {
            match record.roads[i] {
                Some(target) => {
                    if target == road {
                        record.roads[i] = None;
                    }
                },
                None => {},
            }
            i = i + 1;
        }
        proof {
            assert(record.roads@ =~= old(self)@.intersections[node].without_road(road).roads);
        }
        self.intersections.insert(node, record);
        proof {
            assert(self@.intersections =~= old(self)@.intersections.insert(
                node,
                old(self)@.intersections[node].without_road(road),
            ));
        }
    }

    /// Takes `road` from the segments along each building of `buildings`.
    fn clear_road_from_buildings(&mut self, buildings: &Vec<u64>, road: u64)
        ensures
            final(self).same_grid(old(self)),
            final(self)@ == (GraphView {
                buildings: Map::new(
                    |building: u64| old(self)@.buildings.contains_key(building),
                    |building: u64|
                        if buildings@.contains(building) {
                            old(self)@.buildings[building].without_road(road)
                        } else {
                            old(self)@.buildings[building]
                        },
                ),
                ..old(self)@
            }),
    {
        let mut i: usize = 0;
        proof {
            assert(self@.buildings =~= Map::new(
                |building: u64| old(self)@.buildings.contains_key(building),
                |building: u64|
                    if buildings@.take(0).contains(building) {
                        old(self)@.buildings[building].without_road(road)
                    } else {
                        old(self)@.buildings[building]
                    },
            ));
        }
        while i < buildings.len()
            invariant
                i <= buildings@.len(),
                self.same_grid(old(self)),
                self@ == (GraphView {
                    buildings: Map::new(
                        |building: u64| old(self)@.buildings.contains_key(building),
                        |building: u64|
                            if buildings@.take(i as int).contains(building) {
                                old(self)@.buildings[building].without_road(road)
                            } else {
                                old(self)@.buildings[building]
                            },
                    ),
                    ..old(self)@
                }),
            decreases buildings@.len() - i,
        {
            let building = buildings[i];
            let ghost before = self@.buildings;
            if self.buildings.contains_key(&building) {
                self.remove_building_road(building, road);
            }
            proof {
                let target = Map::new(
                    |other: u64| old(self)@.buildings.contains_key(other),
                    |other: u64|
                        if buildings@.take(i + 1).contains(other) {
                            old(self)@.buildings[other].without_road(road)
                        } else {
                            old(self)@.buildings[other]
                        },
                );
                assert forall|other: u64| target.contains_key(other) implies (
                #[trigger] self@.buildings[other]) == target[other] by {
                    lemma_take_contains_step(buildings@, i as int, other);
                    if other == building {
                        assert(before.contains_key(building));
                        assert(self@.buildings[building] == before[building].without_road(road));
                        assert(buildings@.take(i + 1).contains(building));
                        assert(target[building] == old(self)@.buildings[building].without_road(road));
                        assert(before[building] == if buildings@.take(i as int).contains(building) {
                            old(self)@.buildings[building].without_road(road)
                        } else {
                            old(self)@.buildings[building]
                        });
                        assert(self@.buildings[other].roads =~= target[other].roads);
                    }
                }
                assert(self@.buildings =~= target);
            }
            i = i + 1;
        }
        proof {
            assert(buildings@.take(buildings@.len() as int) =~= buildings@);
        }
    }

    /// Empties, in each segment of `roads`, every end that points to `node`.
    fn clear_node_from_roads(&mut self, roads: &Vec<u64>, node: u64)
        ensures
            final(self).same_grid(old(self)),
            final(self)@ == (GraphView {
                segments: Map::new(
                    |road: u64| old(self)@.segments.contains_key(road),
                    |road: u64|
                        if roads@.contains(road) {
                            old(self)@.segments[road].without_node(node)
                        } else {
                            old(self)@.segments[road]
                        },
                ),
                ..old(self)@
            }),
    {
        let mut i: usize = 0;
        proof {
            assert(self@.segments =~= Map::new(
                |road: u64| old(self)@.segments.contains_key(road),
                |road: u64|
                    if roads@.take(0).contains(road) {
                        old(self)@.segments[road].without_node(node)
                    } else {
                        old(self)@.segments[road]
                    },
            ));
        }
        while i < roads.len()
            invariant
                i <= roads@.len(),
                self.same_grid(old(self)),
                self@ == (GraphView {
                    segments: Map::new(
                        |road: u64| old(self)@.segments.contains_key(road),
                        |road: u64|
                            if roads@.take(i as int).contains(road) {
                                old(self)@.segments[road].without_node(node)
                            } else {
                                old(self)@.segments[road]
                            },
                    ),
                    ..old(self)@
                }),
            decreases roads@.len() - i,
        {
            let road = roads[i];
            let ghost before = self@.segments;
            if self.segments.contains_key(&road) {
                self.strip_node_from_road(road, node);
            }
            proof {
                let target = Map::new(
                    |other: u64| old(self)@.segments.contains_key(other),
                    |other: u64|
                        if roads@.take(i + 1).contains(other) {
                            old(self)@.segments[other].without_node(node)
                        } else {
                            old(self)@.segments[other]
                        },
                );
                assert forall|other: u64| target.contains_key(other) implies (
                #[trigger] self@.segments[other]) == target[other] by {
                    lemma_take_contains_step(roads@, i as int, other);
                    if other == road {
                        assert(before.contains_key(road));
                        assert(self@.segments[road] == before[road].without_node(node));
                        assert(roads@.take(i + 1).contains(road));
                        assert(target[road] == old(self)@.segments[road].without_node(node));
                        assert(before[road] == if roads@.take(i as int).contains(road) {
                            old(self)@.segments[road].without_node(node)
                        } else {
                            old(self)@.segments[road]
                        });
                        assert(self@.segments[other].ends =~= target[other].ends);
                    }
                }
                assert(self@.segments =~= target);
            }
            i = i + 1;
        }
        proof {
            assert(roads@.take(roads@.len() as int) =~= roads@);
        }
    }

    /// Empties, in each intersection of `nodes`, every slot that holds `road`.
    fn clear_road_from_nodes(&mut self, nodes: &Vec<u64>, road: u64)
        ensures
            final(self).same_grid(old(self)),
            final(self)@ == (GraphView {
                intersections: Map::new(
                    |node: u64| old(self)@.intersections.contains_key(node),
                    |node: u64|
                        if nodes@.contains(node) {
                            old(self)@.intersections[node].without_road(road)
                        } else {
                            old(self)@.intersections[node]
                        },
                ),
                ..old(self)@
            }),
    {
        let mut i: usize = 0;
        proof {
            assert(self@.intersections =~= Map::new(
                |node: u64| old(self)@.intersections.contains_key(node),
                |node: u64|
                    if nodes@.take(0).contains(node) {
                        old(self)@.intersections[node].without_road(road)
                    } else {
                        old(self)@.intersections[node]
                    },
            ));
        }
        while i < nodes.len()
            invariant
                i <= nodes@.len(),
                self.same_grid(old(self)),
                self@ == (GraphView {
                    intersections: Map::new(
                        |node: u64| old(self)@.intersections.contains_key(node),
                        |node: u64|
                            if nodes@.take(i as int).contains(node) {
                                old(self)@.intersections[node].without_road(road)
                            } else {
                                old(self)@.intersections[node]
                            },
                    ),
                    ..old(self)@
                }),
            decreases nodes@.len() - i,
        {
            let node = nodes[i];
            let ghost before = self@.intersections;
            if self.intersections.contains_key(&node) {
                self.strip_road_from_node(node, road);
            }
            proof {
                let target = Map::new(
                    |other: u64| old(self)@.intersections.contains_key(other),
                    |other: u64|
                        if nodes@.take(i + 1).contains(other) {
                            old(self)@.intersections[other].without_road(road)
                        } else {
                            old(self)@.intersections[other]
                        },
                );
                assert forall|other: u64| target.contains_key(other) implies (
                #[trigger] self@.intersections[other]) == target[other] by {
                    lemma_take_contains_step(nodes@, i as int, other);
                    if other == node {
                        assert(before.contains_key(node));
                        assert(self@.intersections[node] == before[node].without_road(road));
                        assert(nodes@.take(i + 1).contains(node));
                        assert(target[node] == old(self)@.intersections[node].without_road(road));
                        assert(before[node] == if nodes@.take(i as int).contains(node) {
                            old(self)@.intersections[node].without_road(road)
                        } else {
                            old(self)@.intersections[node]
                        });
                        assert(self@.intersections[other].roads =~= target[other].roads);
                    }
                }
                assert(self@.intersections =~= target);
            }
            i = i + 1;
        }
        proof {
            assert(nodes@.take(nodes@.len() as int) =~= nodes@);
        }
    }

    /// Takes every link from the record of the segment `road`.
    fn reset_segment(&mut self, road: u64)
        requires
            old(self)@.segments.contains_key(road),
        ensures
            final(self).same_grid(old(self)),
            final(self)@ == (GraphView {
                segments: old(self)@.segments.insert(road, old(self)@.segments[road].unlinked()),
                ..old(self)@
            }),
    {
        let found = self.segments.remove(&road);
        let mut record = found.unwrap();
        record.ends = [None;2];
        record.dests = EntitySet::new();
        proof {
            assert(record.ends@ =~= Seq::new(2, |i: int| None));
        }
        self.segments.insert(road, record);
        proof {
            assert(self@.segments =~= old(self)@.segments.insert(
                road,
                old(self)@.segments[road].unlinked(),
            ));
        }
    }

    /// Takes every link from the record of the intersection `node`.
    fn reset_intersection(&mut self, node: u64)
        requires
            old(self)@.intersections.contains_key(node),
        ensures
            final(self).same_grid(old(self)),
            final(self)@ == (GraphView {
                intersections: old(self)@.intersections.insert(
                    node,
                    old(self)@.intersections[node].unlinked(),
                ),
                ..old(self)@
            }),
    {
        let found = self.intersections.remove(&node);
        let mut record = found.unwrap();
        record.roads = [None;4];
        proof {
            assert(record.roads@ =~= Seq::new(4, |k: int| None));
        }
        self.intersections.insert(node, record);
        proof {
            assert(self@.intersections =~= old(self)@.intersections.insert(
                node,
                old(self)@.intersections[node].unlinked(),
            ));
        }
    }

    /// Takes every link from the record of the building `building`.
    fn reset_building(&mut self, building: u64)
        requires
            old(self)@.buildings.contains_key(building),
        ensures
            final(self).same_grid(old(self)),
            final(self)@ == (GraphView {
                buildings: old(self)@.buildings.insert(
                    building,
                    old(self)@.buildings[building].unlinked(),
                ),
                ..old(self)@
            }),
    {
        let found = self.buildings.remove(&building);
        let mut record = found.unwrap();
        record.roads = EntitySet::new();
        self.buildings.insert(building, record);
        proof {
            assert(self@.buildings =~= old(self)@.buildings.insert(
                building,
                old(self)@.buildings[building].unlinked(),
            ));
        }
    }

    /// Takes the segment `road` out of every place that names it: the
    /// slots of the intersections at its ends and the buildings along
    /// it, and empties its own ends and its own set of buildings. Does
    /// nothing where `road` is no segment.
    pub fn unlink_road(&mut self, road: u64)
        requires
            old(self).wf(),
        ensures
            final(self).wf(),
            final(self).same_grid(old(self)),
            final(self)@ == old(self)@.unlink_road(road),
    {
        let (ends, dests) = match self.segments.get(&road) {
            Some(record) => (record.ends, record.dests.to_vec()),
            None => {
                return ;
            },
        };
        let mut nodes: Vec<u64> = Vec::new();
        match ends[0] {
            Some(node) => {
                nodes.push(node);
            },
            None => {},
        }
        match ends[1] {
            Some(node) => {
                nodes.push(node);
            },
            None => {},
        }
        proof {
            assert forall|end: int| 0 <= end < 2 && ends@[end] is Some implies nodes@.contains(
                ends@[end].unwrap(),
            ) by {
                if end == 0 {
                    assert(nodes@[0] == ends@[0].unwrap());
                } else {
                    assert(nodes@[nodes@.len() - 1] == ends@[1].unwrap());
                }
            }
        }
        self.clear_road_from_nodes(&nodes, road);
        self.clear_road_from_buildings(&dests, road);
        self.reset_segment(road);
        proof {
            let before = old(self)@;
            let target = before.unlink_road(road);
            lemma_unlink_road_wf(before, road);
            assert forall|node: u64| before.intersections.contains_key(node) implies (
            #[trigger] self@.intersections[node]) == target.intersections[node] by {
                if !nodes@.contains(node) {
                    assert forall|k: int| 0 <= k < 4 implies before.intersections[node].roads[k]
                        != Some(road) by {
                        assert(before.slot_ok(node, k));
                    }
                    assert(before.intersections[node].roads
                        =~= before.intersections[node].without_road(road).roads);
                }
            }
            assert(self@.intersections =~= target.intersections);
            assert forall|building: u64| before.buildings.contains_key(building) implies (
            #[trigger] self@.buildings[building]) == target.buildings[building] by {
                if !dests@.contains(building) {
                    assert(!before.segments[road].dests.contains(building));
                    assert(!before.buildings[building].roads.contains(road));
                    assert(before.buildings[building].roads
                        =~= before.buildings[building].without_road(road).roads);
                }
            }
            assert(self@.buildings =~= target.buildings);
            assert(self@.segments =~= target.segments);
        }
    }

    /// Takes the intersection `node` out of every place that names it:
    /// the ends of the segments in its slots, and empties its own slots.
    /// Does nothing where `node` is no intersection.
    pub fn unlink_intersection(&mut self, node: u64)
        requires
            old(self).wf(),
        ensures
            final(self).wf(),
            final(self).same_grid(old(self)),
            final(self)@ == old(self)@.unlink_intersection(node),
    {
        let slots = match self.intersections.get(&node) {
            Some(record) => record.roads,
            None => {
                return ;
            },
        };
        let mut roads: Vec<u64> = Vec::new();
        let mut k: usize = 0;
        while k < 4
            invariant
                k <= 4,
                slots@.len() == 4,
                forall|j: int| 0 <= j < k && slots@[j] is Some ==> roads@.contains(
                    #[trigger] slots@[j].unwrap(),
                ),
            decreases 4 - k,
        {
            let ghost before = roads@;
            match slots[k] {
                Some(road) => {
                    roads.push(road);
                    proof {
                        assert(roads@[before.len() as int] == road);
                        assert forall|j: int| 0 <= j < k && slots@[j] is Some implies roads@.contains(
                            #[trigger] slots@[j].unwrap(),
                        ) by {
                            let found = choose|m: int|
                                0 <= m < before.len() && before[m] == slots@[j].unwrap();
                            assert(roads@[found] == slots@[j].unwrap());
                        }
                    }
                },
                None => {},
            }
            k = k + 1;
        }
        self.clear_node_from_roads(&roads, node);
        self.reset_intersection(node);
        proof {
            let before = old(self)@;
            let target = before.unlink_intersection(node);
            lemma_unlink_intersection_wf(before, node);
            assert forall|road: u64| before.segments.contains_key(road) implies (
            #[trigger] self@.segments[road]) == target.segments[road] by {
                if !roads@.contains(road) {
                    assert forall|i: int| 0 <= i < 2 implies before.segments[road].ends[i]
                        != Some(node) by {
                        assert(before.end_ok(road, i));
                        if before.segments[road].ends[i] == Some(node) {
                            let slot = end_slot(before.segments[road].orientation, i);
                            assert(slots@[slot] == Some(road));
                            assert(roads@.contains(slots@[slot].unwrap()));
                        }
                    }
                    assert(before.segments[road].ends =~= before.segments[road].without_node(
                        node,
                    ).ends);
                }
            }
            assert(self@.segments =~= target.segments);
            assert(self@.intersections =~= target.intersections);
        }
    }

    /// Takes the building `building` out of every place that names it:
    /// the segments along it, and empties its own set of segments. Does
    /// nothing where `building` is no building.
    pub fn unlink_building(&mut self, building: u64)
        requires
            old(self).wf(),
        ensures
            final(self).wf(),
            final(self).same_grid(old(self)),
            final(self)@ == old(self)@.unlink_building(building),
    {
        let roads = match self.buildings.get(&building) {
            Some(record) => record.roads.to_vec(),
            None => {
                return ;
            },
        };
        self.clear_building_from_roads(&roads, building);
        self.reset_building(building);
        proof {
            let before = old(self)@;
            let target = before.unlink_building(building);
            lemma_unlink_building_wf(before, building);
            assert forall|road: u64| before.segments.contains_key(road) implies (
            #[trigger] self@.segments[road]) == target.segments[road] by {
                if !roads@.contains(road) {
                    assert(!before.buildings[building].roads.contains(road));
                    assert(!before.segments[road].dests.contains(building));
                    assert(before.segments[road].dests =~= before.segments[road].without_dest(
                        building,
                    ).dests);
                }
            }
            assert(self@.segments =~= target.segments);
            assert(self@.buildings =~= target.buildings);
        }
    }

    /// Takes `entity`, of whatever kind, out of every place that names
    /// it. Does nothing where `entity` names no record.
    pub fn unlink(&mut self, entity: u64)
        requires
            old(self).wf(),
        ensures
            final(self).wf(),
            final(self).same_grid(old(self)),
            final(self)@ == old(self)@.unlink(entity),
    {
        self.unlink_road(entity);
        self.unlink_intersection(entity);
        self.unlink_building(entity);
    }

    /// The first phase of a destruction: takes `entity` out of every
    /// place that names it and frees the cells that it occupies. The
    /// record stays until the second phase.
    pub fn soft_destroy(&mut self, entity: u64)
        requires
            old(self).wf(),
        ensures
            final(self).wf(),
            final(self)@ == old(self)@.soft_destroy(entity),
    {
        self.unlink(entity);
        proof {
            lemma_soft_destroy_wf(old(self)@, entity);
        }
        self.grid.erase(entity);
    }

    /// The second phase of a destruction: drops the record of `entity`,
    /// after what the first phase does, where that is still to be done.
    /// The result holds the vehicles that observed the record, each
    /// once: they are to be taken off the road.
    pub fn hard_destroy(&mut self, entity: u64) -> (observers: Vec<u64>)
        requires
            old(self).wf(),
        ensures
            final(self).wf(),
            final(self)@ == old(self)@.hard_destroy(entity),
            observers@.no_duplicates(),
            observers@.to_set() == old(self)@.observers_of(entity),
    {
        let observers = self.observers_of(entity);
        self.soft_destroy(entity);
        proof {
            lemma_hard_destroy_wf(old(self)@, entity);
        }
        self.segments.remove(&entity);
        self.intersections.remove(&entity);
        self.buildings.remove(&entity);
        proof {
            let target = old(self)@.hard_destroy(entity);
            assert(self@.segments =~= target.segments);
            assert(self@.intersections =~= target.intersections);
            assert(self@.buildings =~= target.buildings);
        }
        observers
    }

    /// The vehicles that observe the record `entity`, each once; none
    /// where `entity` names no record.
    pub fn observers_of(&self, entity: u64) -> (observers: Vec<u64>)
        ensures
            observers@.no_duplicates(),
            observers@.to_set() == self@.observers_of(entity),
    {
        match self.segments.get(&entity) {
            Some(record) => {
                return record.observers.to_vec();
            },
            None => {},
        }
        match self.buildings.get(&entity) {
            Some(record) => {
                return record.observers.to_vec();
            },
            None => {},
        }
        match self.intersections.get(&entity) {
            Some(record) => {
                return record.observers.to_vec();
            },
            None => {},
        }
        let none: Vec<u64> = Vec::new();
        proof {
            assert(none@.to_set() =~= Set::<u64>::empty());
        }
        none
    }

    /// Makes `vehicle` an observer of the record `entity`. Does nothing
    /// where `entity` names no record.
    pub fn add_observer(&mut self, entity: u64, vehicle: u64)
        requires
            old(self).wf(),
        ensures
            final(self).wf(),
            final(self)@ == old(self)@.with_observer(entity, vehicle),
    {
        proof {
            lemma_with_observer_wf(self@, entity, vehicle);
        }
        if self.segments.contains_key(&entity) {
            let found = self.segments.remove(&entity);
            let mut record = found.unwrap();
            record.observers.insert(vehicle);
            self.segments.insert(entity, record);
            proof {
                assert(self@.segments =~= old(self)@.with_observer(entity, vehicle).segments);
            }
        } else if self.buildings.contains_key(&entity) {
            let found = self.buildings.remove(&entity);
            let mut record = found.unwrap();
            record.observers.insert(vehicle);
            self.buildings.insert(entity, record);
            proof {
                assert(self@.buildings =~= old(self)@.with_observer(entity, vehicle).buildings);
            }
        } else if self.intersections.contains_key(&entity) {
            let found = self.intersections.remove(&entity);
            let mut record = found.unwrap();
            record.observers.insert(vehicle);
            self.intersections.insert(entity, record);
            proof {
                assert(self@.intersections =~= old(self)@.with_observer(
                    entity,
                    vehicle,
                ).intersections);
            }
        }
    }
}

/// The set of the first `i + 1` items of a sequence is the set of the
/// first `i` with the next item put in.
proof fn lemma_take_to_set_step(items: Seq<u64>, i: int)
    requires
        0 <= i < items.len(),
    ensures
        items.take(i + 1).to_set() == items.take(i).to_set().insert(items[i]),
{
    let longer = items.take(i + 1);
    let shorter = items.take(i);
    assert forall|item: u64| longer.to_set().contains(item) == shorter.to_set().insert(
        items[i],
    ).contains(item) by {
        if longer.contains(item) {
            let k = choose|k: int| 0 <= k < longer.len() && longer[k] == item;
            if k < i {
                assert(shorter[k] == item);
            }
        }
        if shorter.contains(item) {
            let k = choose|k: int| 0 <= k < shorter.len() && shorter[k] == item;
            assert(longer[k] == item);
        }
        if item == items[i] {
            assert(longer[i] == item);
        }
    }
    assert(longer.to_set() =~= shorter.to_set().insert(items[i]));
}

/// An item is among the first `i + 1` items of a sequence exactly if it
/// is among the first `i` or is the next one.
proof fn lemma_take_contains_step(items: Seq<u64>, i: int, item: u64)
    requires
        0 <= i < items.len(),
    ensures
        items.take(i + 1).contains(item) == (items.take(i).contains(item) || item == items[i]),
{
    let longer = items.take(i + 1);
    let shorter = items.take(i);
    if longer.contains(item) {
        let k = choose|k: int| 0 <= k < longer.len() && longer[k] == item;
        if k < i {
            assert(shorter[k] == item);
        }
    }
    if shorter.contains(item) {
        let k = choose|k: int| 0 <= k < shorter.len() && shorter[k] == item;
        assert(longer[k] == item);
    }
    if item == items[i] {
        assert(longer[i] == item);
    }
}

/// Links each spawned segment to the intersections at its ends and to the
/// buildings around it, in the order of the events.
pub fn add_roads_to_graph(events: &Vec<OnRoadSpawned>, graph: &mut RoadGraph)
    requires
        old(graph).wf(),
    ensures
        final(graph).wf(),
        final(graph)@ == apply_each(
            old(graph)@,
            roads_spawned(events@),
            |before: GraphView, entity: u64| before.link_road(entity),
        ),
{
    let ghost step = |before: GraphView, entity: u64| before.link_road(entity);
    let ghost entities = roads_spawned(events@);
    let mut i: usize = 0;
    proof {
        assert(entities.take(0) =~= Seq::<u64>::empty());
    }
    while i < events.len()
        invariant
            i <= events@.len(),
            entities == roads_spawned(events@),
            step == |before: GraphView, entity: u64| before.link_road(entity),
            graph.wf(),
            graph@ == apply_each(old(graph)@, entities.take(i as int), step),
        decreases events@.len() - i,
    {
        let entity = events[i].0;
        proof {
            lemma_apply_each_step(old(graph)@, entities, step, i as int);
        }
        graph.link_road(entity);
        i = i + 1;
    }
    proof {
        assert(entities.take(entities.len() as int) =~= entities);
    }
}

/// Links each spawned intersection to the segments that end at its sides,
/// in the order of the events.
pub fn add_intersections_to_graph(events: &Vec<OnIntersectionSpawned>, graph: &mut RoadGraph)
    requires
        old(graph).wf(),
    ensures
        final(graph).wf(),
        final(graph)@ == apply_each(
            old(graph)@,
            intersections_spawned(events@),
            |before: GraphView, entity: u64| before.link_intersection(entity),
        ),
{
    let ghost step = |before: GraphView, entity: u64| before.link_intersection(entity);
    let ghost entities = intersections_spawned(events@);
    let mut i: usize = 0;
    proof {
        assert(entities.take(0) =~= Seq::<u64>::empty());
    }
    while i < events.len()
        invariant
            i <= events@.len(),
            entities == intersections_spawned(events@),
            step == |before: GraphView, entity: u64| before.link_intersection(entity),
            graph.wf(),
            graph@ == apply_each(old(graph)@, entities.take(i as int), step),
        decreases events@.len() - i,
    {
        let entity = events[i].0;
        proof {
            lemma_apply_each_step(old(graph)@, entities, step, i as int);
        }
        graph.link_intersection(entity);
        i = i + 1;
    }
    proof {
        assert(entities.take(entities.len() as int) =~= entities);
    }
}

/// Links each spawned building to the segments along its sides, in the
/// order of the events.
pub fn add_buildings_to_graph(events: &Vec<OnBuildingSpawned>, graph: &mut RoadGraph)
    requires
        old(graph).wf(),
    ensures
        final(graph).wf(),
        final(graph)@ == apply_each(
            old(graph)@,
            buildings_spawned(events@),
            |before: GraphView, entity: u64| before.link_building(entity),
        ),
{
    let ghost step = |before: GraphView, entity: u64| before.link_building(entity);
    let ghost entities = buildings_spawned(events@);
    let mut i: usize = 0;
    proof {
        assert(entities.take(0) =~= Seq::<u64>::empty());
    }
    while i < events.len()
        invariant
            i <= events@.len(),
            entities == buildings_spawned(events@),
            step == |before: GraphView, entity: u64| before.link_building(entity),
            graph.wf(),
            graph@ == apply_each(old(graph)@, entities.take(i as int), step),
        decreases events@.len() - i,
    {
        let entity = events[i].0;
        proof {
            lemma_apply_each_step(old(graph)@, entities, step, i as int);
        }
        graph.link_building(entity);
        i = i + 1;
    }
    proof {
        assert(entities.take(entities.len() as int) =~= entities);
    }
}

/// Takes each destroyed segment out of every place that names it, in the
/// order of the events.
pub fn remove_roads_from_graph(events: &Vec<OnRoadDestroyed>, graph: &mut RoadGraph)
    requires
        old(graph).wf(),
    ensures
        final(graph).wf(),
        final(graph)@ == apply_each(
            old(graph)@,
            roads_destroyed(events@),
            |before: GraphView, entity: u64| before.unlink_road(entity),
        ),
{
    let ghost step = |before: GraphView, entity: u64| before.unlink_road(entity);
    let ghost entities = roads_destroyed(events@);
    let mut i: usize = 0;
    proof {
        assert(entities.take(0) =~= Seq::<u64>::empty());
    }
    while i < events.len()
        invariant
            i <= events@.len(),
            entities == roads_destroyed(events@),
            step == |before: GraphView, entity: u64| before.unlink_road(entity),
            graph.wf(),
            graph@ == apply_each(old(graph)@, entities.take(i as int), step),
        decreases events@.len() - i,
    {
        let entity = events[i].0;
        proof {
            lemma_apply_each_step(old(graph)@, entities, step, i as int);
        }
        graph.unlink_road(entity);
        i = i + 1;
    }
    proof {
        assert(entities.take(entities.len() as int) =~= entities);
    }
}

/// Takes each destroyed intersection out of every place that names it, in
/// the order of the events.
pub fn remove_intersections_from_graph(events: &Vec<OnIntersectionDestroyed>, graph: &mut RoadGraph)
    requires
        old(graph).wf(),
    ensures
        final(graph).wf(),
        final(graph)@ == apply_each(
            old(graph)@,
            intersections_destroyed(events@),
            |before: GraphView, entity: u64| before.unlink_intersection(entity),
        ),
{
    let ghost step = |before: GraphView, entity: u64| before.unlink_intersection(entity);
    let ghost entities = intersections_destroyed(events@);
    let mut i: usize = 0;
    proof {
        assert(entities.take(0) =~= Seq::<u64>::empty());
    }
    while i < events.len()
        invariant
            i <= events@.len(),
            entities == intersections_destroyed(events@),
            step == |before: GraphView, entity: u64| before.unlink_intersection(entity),
            graph.wf(),
            graph@ == apply_each(old(graph)@, entities.take(i as int), step),
        decreases events@.len() - i,
    {
        let entity = events[i].0;
        proof {
            lemma_apply_each_step(old(graph)@, entities, step, i as int);
        }
        graph.unlink_intersection(entity);
        i = i + 1;
    }
    proof {
        assert(entities.take(entities.len() as int) =~= entities);
    }
}

/// Takes each destroyed building out of every place that names it, in the
/// order of the events.
pub fn remove_buildings_from_graph(events: &Vec<OnBuildingDestroyed>, graph: &mut RoadGraph)
    requires
        old(graph).wf(),
    ensures
        final(graph).wf(),
        final(graph)@ == apply_each(
            old(graph)@,
            buildings_destroyed(events@),
            |before: GraphView, entity: u64| before.unlink_building(entity),
        ),
{
    let ghost step = |before: GraphView, entity: u64| before.unlink_building(entity);
    let ghost entities = buildings_destroyed(events@);
    let mut i: usize = 0;
    proof {
        assert(entities.take(0) =~= Seq::<u64>::empty());
    }
    while i < events.len()
        invariant
            i <= events@.len(),
            entities == buildings_destroyed(events@),
            step == |before: GraphView, entity: u64| before.unlink_building(entity),
            graph.wf(),
            graph@ == apply_each(old(graph)@, entities.take(i as int), step),
        decreases events@.len() - i,
    {
        let entity = events[i].0;
        proof {
            lemma_apply_each_step(old(graph)@, entities, step, i as int);
        }
        graph.unlink_building(entity);
        i = i + 1;
    }
    proof {
        assert(entities.take(entities.len() as int) =~= entities);
    }
}

/// The first phase of destruction for each of `entities`: unlinks it and
/// frees the cells that it occupies.
pub fn clear_erased_objects_from_grid(entities: &Vec<u64>, graph: &mut RoadGraph)
    requires
        old(graph).wf(),
    ensures
        final(graph).wf(),
        final(graph)@ == apply_each(
            old(graph)@,
            entities@,
            |before: GraphView, entity: u64| before.soft_destroy(entity),
        ),
{
    let ghost step = |before: GraphView, entity: u64| before.soft_destroy(entity);
    let mut i: usize = 0;
    proof {
        assert(entities@.take(0) =~= Seq::<u64>::empty());
    }
    while i < entities.len()
        invariant
            i <= entities@.len(),
            step == |before: GraphView, entity: u64| before.soft_destroy(entity),
            graph.wf(),
            graph@ == apply_each(old(graph)@, entities@.take(i as int), step),
        decreases entities@.len() - i,
    {
        let entity = entities[i];
        proof {
            lemma_apply_each_step(old(graph)@, entities@, step, i as int);
        }
        graph.soft_destroy(entity);
        i = i + 1;
    }
    proof {
        assert(entities@.take(entities@.len() as int) =~= entities@);
    }
}

/// The second phase of destruction for each of `entities`: drops its
/// record.
pub fn despawn_erased_entities(entities: &Vec<u64>, graph: &mut RoadGraph)
    requires
        old(graph).wf(),
    ensures
        final(graph).wf(),
        final(graph)@ == apply_each(
            old(graph)@,
            entities@,
            |before: GraphView, entity: u64| before.hard_destroy(entity),
        ),
{
    let ghost step = |before: GraphView, entity: u64| before.hard_destroy(entity);
    let mut i: usize = 0;
    proof {
        assert(entities@.take(0) =~= Seq::<u64>::empty());
    }
    while i < entities.len()
        invariant
            i <= entities@.len(),
            step == |before: GraphView, entity: u64| before.hard_destroy(entity),
            graph.wf(),
            graph@ == apply_each(old(graph)@, entities@.take(i as int), step),
        decreases entities@.len() - i,
    {
        let entity = entities[i];
        proof {
            lemma_apply_each_step(old(graph)@, entities@, step, i as int);
        }
        graph.hard_destroy(entity);
        i = i + 1;
    }
    proof {
        assert(entities@.take(entities@.len() as int) =~= entities@);
    }
}

} // verus!
