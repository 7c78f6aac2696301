//! Traffic infrastructure for a grid-based city: a bounded occupancy grid,
//! a road network of segments, intersections and buildings, a path finder
//! over that network and the lane and cursor rules of the vehicles that
//! drive along the paths.

pub mod bounds;
pub mod collections;
pub mod graph;
pub mod grid;
mod random;
pub mod tools;
pub mod types;
