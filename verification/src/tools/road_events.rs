use crate::grid::grid_area::GridArea;
use crate::grid::orientation::GAxis;
use vstd::prelude::*;

verus! {

/// A segment is wanted over `area`, along `orientation`.
#[derive(Debug, Clone, Copy, PartialEq, Eq, Structural)]
pub struct RequestRoad {
    pub area: GridArea,
    pub orientation: GAxis,
}

impl RequestRoad {
    pub fn new(area: GridArea, orientation: GAxis) -> (request: Self)
        ensures
            request == (RequestRoad { area, orientation }),
    {
        Self { area, orientation }
    }
}

/// An intersection is wanted over `area`.
#[derive(Debug, Clone, Copy, PartialEq, Eq, Structural)]
pub struct RequestIntersection {
    pub area: GridArea,
}

impl RequestIntersection {
    pub fn new(area: GridArea) -> (request: Self)
        ensures
            request == (RequestIntersection { area }),
    {
        Self { area }
    }
}

/// The segment `entity` is to make room for an intersection over
/// `split_area`: what is left of it on either side becomes a segment of
/// its own.
#[derive(Debug, Clone, Copy, PartialEq, Eq, Structural)]
pub struct RequestRoadSplit {
    pub entity: u64,
    pub split_area: GridArea,
}

impl RequestRoadSplit {
    pub fn new(entity: u64, split_area: GridArea) -> (request: Self)
        ensures
            request == (RequestRoadSplit { entity, split_area }),
    {
        Self { entity, split_area }
    }
}

/// The segment `entity` is to grow over `extension`.
#[derive(Debug, Clone, Copy, PartialEq, Eq, Structural)]
pub struct RequestRoadExtend {
    pub entity: u64,
    pub extension: GridArea,
}

impl RequestRoadExtend {
    pub fn new(entity: u64, extension: GridArea) -> (request: Self)
        ensures
            request == (RequestRoadExtend { entity, extension }),
    {
        Self { entity, extension }
    }
}

/// The segments `first` and `second` are to become one that reaches from
/// the one to the other.
#[derive(Debug, Clone, Copy, PartialEq, Eq, Structural)]
pub struct RequestRoadBridge {
    pub first: u64,
    pub second: u64,
}

impl RequestRoadBridge {
    pub fn new(first: u64, second: u64) -> (request: Self)
        ensures
            request == (RequestRoadBridge { first, second }),
    {
        Self { first, second }
    }
}

} // verus!
