//! The hash collections that the grid, the road network and the path
//! finder keep their entity handles in.

pub mod cell_index;
pub mod entity_set;
pub mod parent_map;
