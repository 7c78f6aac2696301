//! The requests that the editing tools make, and the rules by which a
//! drag of the road tool, a split, an extension or a sweep of the eraser
//! turns into requests.

pub mod building_tool;
pub mod eraser_tool;
pub mod road_events;
pub mod road_tool;
