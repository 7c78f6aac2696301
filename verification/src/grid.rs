//! Grid space: cells, rectangular areas, compass directions and the
//! occupancy grid itself.

pub mod grid;
pub mod grid_area;
pub mod grid_cell;
pub mod orientation;
