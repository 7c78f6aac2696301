use crate::collections::entity_set::EntitySet;
use crate::grid::grid_area::GridArea;
use crate::grid::orientation::GDir;
use vstd::prelude::*;

verus! {

/// An intersection: a node that joins up to four road segments, one on
/// each side.
#[derive(Debug)]
pub struct Intersection {
    pub area: GridArea,
    /// The segment on each side, by the slot number of the side's
    /// direction.
    pub roads: [Option<u64>; 4],
    /// The vehicles whose path holds the intersection.
    pub observers: EntitySet,
}

/// What an intersection is to the road network.
pub struct IntersectionView {
    pub area: GridArea,
    /// The four slots, by the slot number of each side's direction.
    pub roads: Seq<Option<u64>>,
    pub observers: Set<u64>,
}

impl View for Intersection {
    type V = IntersectionView;

    open spec fn view(&self) -> IntersectionView {
        IntersectionView { area: self.area, roads: self.roads@, observers: self.observers@ }
    }
}

impl IntersectionView {
    /// An intersection on `area` with no segment on any side.
    pub open spec fn fresh(area: GridArea) -> IntersectionView {
        IntersectionView { area, roads: Seq::new(4, |k: int| None), observers: Set::empty() }
    }
}

impl IntersectionView {
    /// The intersection with `target` in slot `slot`.
    pub open spec fn with_slot(self, slot: int, target: Option<u64>) -> IntersectionView {
        IntersectionView { roads: self.roads.update(slot, target), ..self }
    }

    /// The intersection with every slot that held `road` empty.
    pub open spec fn without_road(self, road: u64) -> IntersectionView {
        IntersectionView {
            roads: Seq::new(
                self.roads.len(),
                |k: int|
                    if self.roads[k] == Some(road) {
                        None
                    } else {
                        self.roads[k]
                    },
            ),
            ..self
        }
    }

    /// The intersection with no links at all.
    pub open spec fn unlinked(self) -> IntersectionView {
        IntersectionView { roads: Seq::new(4, |k: int| None), ..self }
    }

    /// The intersection with one more observer.
    pub open spec fn with_observer(self, vehicle: u64) -> IntersectionView {
        IntersectionView { observers: self.observers.insert(vehicle), ..self }
    }
}

impl Intersection {
    /// An intersection on `area` with no segment on any side.
    pub fn new(area: GridArea) -> (intersection: Self)
        ensures
            intersection@ == IntersectionView::fresh(area),
    {
        let intersection = Self { area, roads: [None;4], observers: EntitySet::new() };
        assert(intersection.roads@ =~= Seq::new(4, |k: int| None));
        intersection
    }

    pub fn area(&self) -> (area: GridArea)
        ensures
            area == self.area,
    {
        self.area
    }

    /// The segment on the side `dir`.
    pub fn road_at(&self, dir: GDir) -> (road: Option<u64>)
        ensures
            road == self.roads@[dir.spec_index()],
    {
        self.roads[dir.index()]
    }

    /// The vehicles whose path holds the intersection, each once.
    pub fn observer_list(&self) -> (vehicles: Vec<u64>)
        ensures
            vehicles@.no_duplicates(),
            vehicles@.to_set() == self.observers@,
    {
        self.observers.to_vec()
    }
}

} // verus!
