use crate::collections::entity_set::EntitySet;
use crate::grid::grid_area::GridArea;
use vstd::prelude::*;

verus! {

/// A building: the start or the end of a trip.
#[derive(Debug)]
pub struct Building {
    pub area: GridArea,
    /// The road segments that run along the building.
    pub roads: EntitySet,
    /// The vehicles whose path holds the building.
    pub observers: EntitySet,
}

/// What a building is to the road network.
pub struct BuildingView {
    pub area: GridArea,
    pub roads: Set<u64>,
    pub observers: Set<u64>,
}

impl View for Building {
    type V = BuildingView;

    open spec fn view(&self) -> BuildingView {
        BuildingView { area: self.area, roads: self.roads@, observers: self.observers@ }
    }
}

impl BuildingView {
    /// A building on `area` that no road runs along yet.
    pub open spec fn fresh(area: GridArea) -> BuildingView {
        BuildingView { area, roads: Set::empty(), observers: Set::empty() }
    }
}

impl BuildingView {
    /// The building with the segment `road` along it, besides what it
    /// had.
    pub open spec fn with_road(self, road: u64) -> BuildingView {
        BuildingView { roads: self.roads.insert(road), ..self }
    }

    /// The building without the segment `road` along it.
    pub open spec fn without_road(self, road: u64) -> BuildingView {
        BuildingView { roads: self.roads.remove(road), ..self }
    }

    /// The building with no links at all.
    pub open spec fn unlinked(self) -> BuildingView {
        BuildingView { roads: Set::empty(), ..self }
    }

    /// The building with one more observer.
    pub open spec fn with_observer(self, vehicle: u64) -> BuildingView {
        BuildingView { observers: self.observers.insert(vehicle), ..self }
    }
}

impl Building {
    /// A building on `area` that no road runs along yet.
    pub fn new(area: GridArea) -> (building: Self)
        ensures
            building@ == BuildingView::fresh(area),
    {
        Self { area, roads: EntitySet::new(), observers: EntitySet::new() }
    }

    pub fn area(&self) -> (area: GridArea)
        ensures
            area == self.area,
    {
        self.area
    }

    /// Whether the segment `road` runs along the building.
    pub fn has_road(&self, road: u64) -> (linked: bool)
        ensures
            linked == self.roads@.contains(road),
    {
        self.roads.contains(road)
    }

    /// The segments that run along the building, each once.
    pub fn road_list(&self) -> (roads: Vec<u64>)
        ensures
            roads@.no_duplicates(),
            roads@.to_set() == self.roads@,
    {
        self.roads.to_vec()
    }

    /// The vehicles whose path holds the building, each once.
    pub fn observer_list(&self) -> (vehicles: Vec<u64>)
        ensures
            vehicles@.no_duplicates(),
            vehicles@.to_set() == self.observers@,
    {
        self.observers.to_vec()
    }
}

} // verus!
