use vstd::prelude::*;

verus! {

/// A segment was made and waits to be linked.
#[derive(Debug, Clone, Copy, PartialEq, Eq, Structural)]
pub struct OnRoadSpawned(pub u64);

/// An intersection was made and waits to be linked.
#[derive(Debug, Clone, Copy, PartialEq, Eq, Structural)]
pub struct OnIntersectionSpawned(pub u64);

/// A building was made and waits to be linked.
#[derive(Debug, Clone, Copy, PartialEq, Eq, Structural)]
pub struct OnBuildingSpawned(pub u64);

/// A segment is being destroyed.
#[derive(Debug, Clone, Copy, PartialEq, Eq, Structural)]
pub struct OnRoadDestroyed(pub u64);

/// An intersection is being destroyed.
#[derive(Debug, Clone, Copy, PartialEq, Eq, Structural)]
pub struct OnIntersectionDestroyed(pub u64);

/// A building is being destroyed.
#[derive(Debug, Clone, Copy, PartialEq, Eq, Structural)]
pub struct OnBuildingDestroyed(pub u64);

/// The handles that a list of events names, in the order of the events.
pub open spec fn roads_spawned(events: Seq<OnRoadSpawned>) -> Seq<u64> {
    Seq::new(events.len(), |i: int| events[i].0)
}

pub open spec fn intersections_spawned(events: Seq<OnIntersectionSpawned>) -> Seq<u64> {
    Seq::new(events.len(), |i: int| events[i].0)
}

pub open spec fn buildings_spawned(events: Seq<OnBuildingSpawned>) -> Seq<u64> {
    Seq::new(events.len(), |i: int| events[i].0)
}

pub open spec fn roads_destroyed(events: Seq<OnRoadDestroyed>) -> Seq<u64> {
    Seq::new(events.len(), |i: int| events[i].0)
}

pub open spec fn intersections_destroyed(events: Seq<OnIntersectionDestroyed>) -> Seq<u64> {
    Seq::new(events.len(), |i: int| events[i].0)
}

pub open spec fn buildings_destroyed(events: Seq<OnBuildingDestroyed>) -> Seq<u64> {
    Seq::new(events.len(), |i: int| events[i].0)
}

} // verus!
