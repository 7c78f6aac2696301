//! The road network: the records and their links, the upkeep of the
//! links when entities come and go, and the search for a path between
//! two buildings.

pub mod graph_view;
pub mod path_finder;
pub mod road_graph;
pub mod road_graph_events;
