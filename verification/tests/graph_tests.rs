use city_traffic::graph::road_graph::{
    add_buildings_to_graph, add_intersections_to_graph, add_roads_to_graph,
    clear_erased_objects_from_grid, despawn_erased_entities, remove_buildings_from_graph,
    remove_intersections_from_graph, remove_roads_from_graph, NodeKind, RoadGraph, SpawnError,
};
use city_traffic::graph::road_graph_events::{
    OnBuildingDestroyed, OnBuildingSpawned, OnIntersectionDestroyed, OnIntersectionSpawned,
    OnRoadDestroyed, OnRoadSpawned,
};
use city_traffic::types::road_segment::RoadSegment;
use city_traffic::grid::grid_area::GridArea;
use city_traffic::grid::grid_cell::GridCell;
use city_traffic::grid::orientation::{GAxis, GDir};

const R1: u64 = 11;
const R2: u64 = 12;
const N: u64 = 21;
const B1: u64 = 31;
const B2: u64 = 32;

fn area(min_x: i32, min_y: i32, max_x: i32, max_y: i32) -> GridArea {
    GridArea::new(GridCell::new(min_x, min_y), GridCell::new(max_x, max_y))
}

/// A road from the south and a road from the east meet at one
/// intersection; a building stands beside each road.
fn corner_city() -> RoadGraph {
    let mut graph = RoadGraph::new(10);
    graph.spawn_road(R1, area(0, -3, 1, -1), GAxis::Z).unwrap();
    graph.spawn_intersection(N, area(0, 0, 1, 1)).unwrap();
    graph.spawn_road(R2, area(2, 0, 5, 1), GAxis::X).unwrap();
    graph.spawn_building(B1, area(2, -3, 3, -2)).unwrap();
    graph.spawn_building(B2, area(4, 2, 5, 3)).unwrap();
    add_roads_to_graph(&vec![OnRoadSpawned(R1), OnRoadSpawned(R2)], &mut graph);
    add_intersections_to_graph(&vec![OnIntersectionSpawned(N)], &mut graph);
    add_buildings_to_graph(&vec![OnBuildingSpawned(B1), OnBuildingSpawned(B2)], &mut graph);
    graph
}

#[test]
fn spawn_rejects_occupied_and_outside_areas() {
    let mut graph = RoadGraph::new(4);
    assert_eq!(graph.spawn_building(1, area(0, 0, 1, 1)), Ok(()));
    assert_eq!(graph.spawn_building(2, area(1, 1, 2, 2)), Err(SpawnError::InvalidPaintArea));
    assert_eq!(graph.spawn_road(3, area(3, 3, 5, 3), GAxis::X), Err(SpawnError::InvalidPaintArea));
    assert_eq!(graph.spawn_intersection(4, area(2, 2, 1, 1)), Err(SpawnError::InvalidPaintArea));
    assert_eq!(graph.spawn_intersection(1, area(2, 2, 3, 3)), Err(SpawnError::EntityInUse));
    assert_eq!(graph.kind(1), Some(NodeKind::Building));
    assert_eq!(graph.kind(2), None);
    assert_eq!(graph.kind(3), None);
    assert_eq!(graph.grid().entity_at(GridCell::new(2, 2)).unwrap(), None);
    assert_eq!(graph.grid().entity_at(GridCell::new(1, 1)).unwrap(), Some(1));
}

#[test]
fn roads_and_intersection_point_at_each_other() {
    let graph = corner_city();
    let r1 = graph.segment(R1).unwrap();
    let r2 = graph.segment(R2).unwrap();
    let n = graph.intersection(N).unwrap();
    assert_eq!(r1.ends, [Some(N), None]);
    assert_eq!(r2.ends, [Some(N), None]);
    assert_eq!(n.road_at(GDir::South), Some(R1));
    assert_eq!(n.road_at(GDir::East), Some(R2));
    assert_eq!(n.road_at(GDir::North), None);
    assert_eq!(n.road_at(GDir::West), None);
    let holding_r1 = n.roads.iter().filter(|slot| **slot == Some(R1)).count();
    assert_eq!(holding_r1, 1);
}

#[test]
fn intersection_links_the_roads_when_it_comes_last() {
    let mut graph = RoadGraph::new(10);
    graph.spawn_road(R1, area(0, -3, 1, -1), GAxis::Z).unwrap();
    graph.spawn_road(R2, area(2, 0, 5, 1), GAxis::X).unwrap();
    add_roads_to_graph(&vec![OnRoadSpawned(R1), OnRoadSpawned(R2)], &mut graph);
    assert_eq!(graph.segment(R1).unwrap().ends, [None, None]);
    graph.spawn_intersection(N, area(0, 0, 1, 1)).unwrap();
    add_intersections_to_graph(&vec![OnIntersectionSpawned(N)], &mut graph);
    assert_eq!(graph.segment(R1).unwrap().ends, [Some(N), None]);
    assert_eq!(graph.segment(R2).unwrap().ends, [Some(N), None]);
    assert_eq!(graph.intersection(N).unwrap().roads, [None, Some(R1), None, Some(R2)]);
}

#[test]
fn a_road_along_the_side_of_an_intersection_is_no_end() {
    let mut graph = RoadGraph::new(10);
    graph.spawn_intersection(N, area(0, 0, 1, 1)).unwrap();
    // A short north-south road that lies east of the intersection.
    graph.spawn_road(R1, area(2, 0, 3, 1), GAxis::Z).unwrap();
    add_roads_to_graph(&vec![OnRoadSpawned(R1)], &mut graph);
    add_intersections_to_graph(&vec![OnIntersectionSpawned(N)], &mut graph);
    assert_eq!(graph.segment(R1).unwrap().ends, [None, None]);
    assert_eq!(graph.intersection(N).unwrap().roads, [None, None, None, None]);
}

#[test]
fn buildings_and_roads_point_at_each_other() {
    let graph = corner_city();
    assert!(graph.segment(R1).unwrap().has_dest(B1));
    assert!(!graph.segment(R1).unwrap().has_dest(B2));
    assert!(graph.segment(R2).unwrap().has_dest(B2));
    assert!(graph.building(B1).unwrap().has_road(R1));
    assert!(graph.building(B2).unwrap().has_road(R2));
    assert_eq!(graph.building(B1).unwrap().road_list(), vec![R1]);
    assert_eq!(graph.segment(R2).unwrap().dest_list(), vec![B2]);
}

#[test]
fn a_second_road_on_one_side_takes_the_slot_and_frees_the_first() {
    let mut graph = RoadGraph::new(10);
    graph.spawn_intersection(N, area(0, 0, 3, 1)).unwrap();
    graph.spawn_road(R1, area(0, -3, 1, -1), GAxis::Z).unwrap();
    graph.spawn_road(R2, area(2, -3, 3, -1), GAxis::Z).unwrap();
    add_roads_to_graph(&vec![OnRoadSpawned(R1)], &mut graph);
    assert_eq!(graph.segment(R1).unwrap().ends, [Some(N), None]);
    assert_eq!(graph.intersection(N).unwrap().road_at(GDir::South), Some(R1));
    add_roads_to_graph(&vec![OnRoadSpawned(R2)], &mut graph);
    assert_eq!(graph.intersection(N).unwrap().road_at(GDir::South), Some(R2));
    assert_eq!(graph.segment(R2).unwrap().ends, [Some(N), None]);
    assert_eq!(graph.segment(R1).unwrap().ends, [None, None]);
}

#[test]
fn destroying_a_road_clears_both_sides_of_its_links() {
    let mut graph = corner_city();
    remove_roads_from_graph(&vec![OnRoadDestroyed(R1)], &mut graph);
    assert_eq!(graph.segment(R1).unwrap().ends, [None, None]);
    assert!(graph.segment(R1).unwrap().dest_list().is_empty());
    assert_eq!(graph.intersection(N).unwrap().road_at(GDir::South), None);
    assert_eq!(graph.intersection(N).unwrap().road_at(GDir::East), Some(R2));
    assert!(!graph.building(B1).unwrap().has_road(R1));
    // The road still stands on the grid until the first phase frees it.
    assert_eq!(graph.grid().entity_at(GridCell::new(0, -2)).unwrap(), Some(R1));
    clear_erased_objects_from_grid(&vec![R1], &mut graph);
    assert_eq!(graph.grid().entity_at(GridCell::new(0, -2)).unwrap(), None);
    assert_eq!(graph.kind(R1), Some(NodeKind::Road));
    despawn_erased_entities(&vec![R1], &mut graph);
    assert_eq!(graph.kind(R1), None);
    assert!(graph.segment(R1).is_none());
}

#[test]
fn destroying_an_intersection_frees_the_ends_that_pointed_to_it() {
    let mut graph = corner_city();
    graph.add_observer(N, 900);
    graph.add_observer(N, 901);
    graph.add_observer(R1, 900);
    let mut gone = graph.hard_destroy(N);
    gone.sort();
    assert_eq!(gone, vec![900, 901]);
    assert!(graph.intersection(N).is_none());
    assert_eq!(graph.segment(R1).unwrap().ends, [None, None]);
    assert_eq!(graph.segment(R2).unwrap().ends, [None, None]);
    assert_eq!(graph.grid().entity_at(GridCell::new(0, 0)).unwrap(), None);
    assert_eq!(graph.observers_of(R1), vec![900]);
    assert!(graph.observers_of(N).is_empty());
}

#[test]
fn destroying_a_building_takes_it_from_the_roads_along_it() {
    let mut graph = corner_city();
    graph.unlink_building(B2);
    assert!(!graph.segment(R2).unwrap().has_dest(B2));
    assert!(graph.building(B2).unwrap().road_list().is_empty());
    assert!(graph.segment(R1).unwrap().has_dest(B1));
}

#[test]
fn linking_skips_what_is_not_there() {
    let mut graph = corner_city();
    graph.link_road(777);
    graph.link_intersection(R1);
    graph.link_building(N);
    graph.unlink(777);
    assert_eq!(graph.segment(R1).unwrap().ends, [Some(N), None]);
    graph.soft_destroy(R2);
    graph.link_road(R2);
    assert_eq!(graph.segment(R2).unwrap().ends, [None, None]);
    assert!(graph.segment(R2).unwrap().dest_list().is_empty());
}

#[test]
fn destroy_events_unlink_in_their_order() {
    let mut graph = corner_city();
    remove_intersections_from_graph(&vec![OnIntersectionDestroyed(N)], &mut graph);
    assert_eq!(graph.intersection(N).unwrap().roads, [None, None, None, None]);
    assert_eq!(graph.segment(R1).unwrap().end_at(0), None);
    assert_eq!(graph.segment(R2).unwrap().end_at(0), None);
    remove_buildings_from_graph(
        &vec![OnBuildingDestroyed(B1), OnBuildingDestroyed(B2), OnBuildingDestroyed(B1)],
        &mut graph,
    );
    assert!(graph.segment(R1).unwrap().dest_list().is_empty());
    assert!(graph.segment(R2).unwrap().dest_list().is_empty());
    assert!(graph.building(B1).unwrap().road_list().is_empty());
    // Everything still stands: linking again brings the links back.
    add_intersections_to_graph(&vec![OnIntersectionSpawned(N)], &mut graph);
    add_buildings_to_graph(&vec![OnBuildingSpawned(B1)], &mut graph);
    assert_eq!(graph.segment(R1).unwrap().end_at(0), Some(N));
    assert_eq!(graph.segment(R1).unwrap().end_at(1), None);
    assert!(graph.segment(R1).unwrap().has_dest(B1));
}

#[test]
fn measures_of_a_segment() {
    let up = RoadSegment::new(area(0, 0, 3, 9), GAxis::Z);
    assert_eq!(up.drive_width(), 4);
    assert_eq!(up.drive_length(), 10);
    assert_eq!(up.num_lanes(), 2);
    assert_eq!(up.area(), area(0, 0, 3, 9));
    let across = RoadSegment::new(area(0, 0, 8, 4), GAxis::X);
    assert_eq!(across.drive_width(), 5);
    assert_eq!(across.drive_length(), 9);
    assert_eq!(across.num_lanes(), 2);
    assert_eq!(across.get_intersection_area(area(3, -6, 4, -1)), area(3, 0, 4, 4));
    assert_eq!(up.get_intersection_area(area(-6, 2, -1, 3)), area(0, 2, 3, 3));
    assert!(up.observer_list().is_empty());
}
