//! The records of the road network: road segments, intersections and
//! buildings, and the vehicles that travel between buildings.

pub mod building;
pub mod intersection;
pub mod road_segment;
pub mod vehicle;
