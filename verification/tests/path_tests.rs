use city_traffic::graph::path_finder::{choose_trip, find_path, find_path_via};
use city_traffic::graph::road_graph::RoadGraph;
use city_traffic::grid::grid_area::GridArea;
use city_traffic::grid::grid_cell::GridCell;
use city_traffic::grid::orientation::GAxis;
use city_traffic::types::vehicle::{
    brakes_for, get_lane_for_turn, get_step_type, spawn_vehicle, update_vehicle, wants_vehicle,
    direction_to_area, Maneuver, StepType, Vehicle,
};
use city_traffic::types::road_segment::RoadSegment;
use city_traffic::grid::orientation::GDir;

const R1: u64 = 11;
const R2: u64 = 12;
const R3: u64 = 13;
const N: u64 = 21;
const B1: u64 = 31;
const B2: u64 = 32;
const B3: u64 = 33;

fn area(min_x: i32, min_y: i32, max_x: i32, max_y: i32) -> GridArea {
    GridArea::new(GridCell::new(min_x, min_y), GridCell::new(max_x, max_y))
}

/// A road from the south and a road from the east meet at one
/// intersection; a building stands beside each road.
fn corner_city() -> RoadGraph {
    let mut graph = RoadGraph::new(10);
    graph.spawn_road(R1, area(0, -3, 1, -1), GAxis::Z).unwrap();
    graph.spawn_intersection(N, area(0, 0, 1, 1)).unwrap();
    graph.spawn_road(R2, area(2, 0, 5, 1), GAxis::X).unwrap();
    graph.spawn_building(B1, area(2, -3, 3, -2)).unwrap();
    graph.spawn_building(B2, area(4, 2, 5, 3)).unwrap();
    graph.link_road(R1);
    graph.link_road(R2);
    graph.link_intersection(N);
    graph.link_building(B1);
    graph.link_building(B2);
    graph
}

fn linked(graph: &RoadGraph, from: u64, to: u64) -> bool {
    if let Some(b) = graph.building(from) {
        if b.has_road(to) {
            return true;
        }
    }
    if let Some(r) = graph.segment(from) {
        if r.has_dest(to) || r.ends.contains(&Some(to)) {
            return true;
        }
    }
    if let Some(n) = graph.intersection(from) {
        if n.roads.contains(&Some(to)) {
            return true;
        }
    }
    false
}

#[test]
fn path_leads_from_building_to_building_over_the_corner() {
    let graph = corner_city();
    for _ in 0..20 {
        let path = find_path(&graph, B1, B2).unwrap();
        assert_eq!(path, vec![B1, R1, N, R2, B2]);
        let back = find_path(&graph, B2, B1).unwrap();
        assert_eq!(back, vec![B2, R2, N, R1, B1]);
    }
}

#[test]
fn path_between_buildings_on_one_road_skips_the_intersection() {
    let mut graph = corner_city();
    graph.spawn_building(B3, area(-2, -3, -1, -1)).unwrap();
    graph.link_building(B3);
    assert_eq!(find_path(&graph, B1, B3), Some(vec![B1, R1, B3]));
}

#[test]
fn path_to_itself_is_the_building_alone() {
    let graph = corner_city();
    assert_eq!(find_path(&graph, B1, B1), Some(vec![B1]));
}

#[test]
fn no_path_without_roads_between() {
    let mut graph = RoadGraph::new(10);
    graph.spawn_building(B1, area(0, 0, 1, 1)).unwrap();
    graph.spawn_building(B2, area(5, 5, 6, 6)).unwrap();
    graph.link_building(B1);
    graph.link_building(B2);
    assert_eq!(find_path(&graph, B1, B2), None);
    let before_b1 = graph.observers_of(B1);
    let spawned = spawn_vehicle(&mut graph, &vec![B1, B2], 900);
    assert!(spawned.is_none());
    assert_eq!(graph.observers_of(B1), before_b1);
    assert!(graph.observers_of(B2).is_empty());
}

#[test]
fn no_path_once_the_intersection_is_gone() {
    let mut graph = corner_city();
    graph.hard_destroy(N);
    assert_eq!(find_path(&graph, B1, B2), None);
    assert_eq!(find_path(&graph, B2, B1), None);
}

#[test]
fn no_path_from_or_to_what_is_no_building() {
    let graph = corner_city();
    assert_eq!(find_path(&graph, R1, B2), None);
    assert_eq!(find_path(&graph, B1, N), None);
    assert_eq!(find_path(&graph, 999, B2), None);
    assert_eq!(find_path(&graph, 999, 999), None);
}

#[test]
fn path_along_a_given_first_road() {
    let mut graph = corner_city();
    // A dead-end road on the other side of the first building.
    graph.spawn_road(R3, area(4, -3, 5, -1), GAxis::Z).unwrap();
    graph.link_road(R3);
    assert!(graph.building(B1).unwrap().has_road(R3));
    assert_eq!(find_path_via(&graph, B1, Some(R1), B2), Some(vec![B1, R1, N, R2, B2]));
    assert_eq!(find_path_via(&graph, B1, Some(R3), B2), None);
    assert_eq!(find_path_via(&graph, B1, Some(R2), B2), None);
    assert_eq!(find_path_via(&graph, B1, None, B2), None);
    assert_eq!(find_path_via(&graph, B1, None, B1), Some(vec![B1]));
    if let Some(path) = find_path(&graph, B1, B2) {
        assert_eq!(path, vec![B1, R1, N, R2, B2]);
    }
}

#[test]
fn every_pair_on_a_found_path_is_linked() {
    let mut graph = RoadGraph::new(12);
    // A ring of four roads around a block, with an intersection at each
    // corner, and two buildings on opposite sides.
    graph.spawn_intersection(101, area(0, 0, 1, 1)).unwrap();
    graph.spawn_intersection(102, area(6, 0, 7, 1)).unwrap();
    graph.spawn_intersection(103, area(0, 6, 1, 7)).unwrap();
    graph.spawn_intersection(104, area(6, 6, 7, 7)).unwrap();
    graph.spawn_road(201, area(2, 0, 5, 1), GAxis::X).unwrap();
    graph.spawn_road(202, area(2, 6, 5, 7), GAxis::X).unwrap();
    graph.spawn_road(203, area(0, 2, 1, 5), GAxis::Z).unwrap();
    graph.spawn_road(204, area(6, 2, 7, 5), GAxis::Z).unwrap();
    graph.spawn_building(301, area(2, -2, 3, -1)).unwrap();
    graph.spawn_building(302, area(4, 8, 5, 9)).unwrap();
    for road in [201, 202, 203, 204] {
        graph.link_road(road);
    }
    for node in [101, 102, 103, 104] {
        graph.link_intersection(node);
    }
    graph.link_building(301);
    graph.link_building(302);
    for _ in 0..50 {
        let path = find_path(&graph, 301, 302).expect("the ring joins the two buildings");
        assert_eq!(path[0], 301);
        assert_eq!(*path.last().unwrap(), 302);
        assert_eq!(path[1], 201);
        assert_eq!(path[path.len() - 2], 202);
        for pair in path.windows(2) {
            assert!(linked(&graph, pair[0], pair[1]), "{} -> {}", pair[0], pair[1]);
        }
        let mut seen = path.clone();
        seen.sort();
        seen.dedup();
        assert_eq!(seen.len(), path.len());
        assert!(
            path == vec![301, 201, 101, 203, 103, 202, 302]
                || path == vec![301, 201, 102, 204, 104, 202, 302]
        );
    }
}

#[test]
fn trip_is_between_two_of_the_buildings() {
    assert_eq!(choose_trip(&vec![]), None);
    assert_eq!(choose_trip(&vec![B1]), None);
    let mut forward = false;
    let mut backward = false;
    for _ in 0..200 {
        let (start, goal) = choose_trip(&vec![B1, B2]).unwrap();
        assert!((start, goal) == (B1, B2) || (start, goal) == (B2, B1));
        forward |= start == B1;
        backward |= start == B2;
    }
    assert!(forward && backward);
    for _ in 0..50 {
        let (start, goal) = choose_trip(&vec![B1, B2, B3, 34, 35]).unwrap();
        assert_ne!(start, goal);
        assert!([B1, B2, B3, 34, 35].contains(&start));
        assert!([B1, B2, B3, 34, 35].contains(&goal));
    }
}

#[test]
fn vehicle_is_gone_with_the_intersection_on_its_path() {
    let mut graph = corner_city();
    let vehicle = spawn_vehicle(&mut graph, &vec![B1, B2], 900).unwrap();
    assert_eq!(vehicle.path_index, 0);
    assert_eq!(vehicle.lane, 0);
    assert!(
        vehicle.path == vec![B1, R1, N, R2, B2] || vehicle.path == vec![B2, R2, N, R1, B1]
    );
    for step in &vehicle.path {
        assert_eq!(graph.observers_of(*step), vec![900]);
    }
    let gone = graph.hard_destroy(N);
    assert_eq!(gone, vec![900]);
    assert!(graph.intersection(N).is_none());
}

#[test]
fn vehicle_follows_its_path_step_by_step() {
    let graph = corner_city();
    let mut vehicle = Vehicle::new(vec![B1, R1, N, R2, B2]);
    assert!(!vehicle.has_arrived());
    assert_eq!(vehicle.current_step(), Some(B1));
    assert_eq!(update_vehicle(&mut vehicle, &graph), Maneuver::JoinRoad { road: R1 });
    assert_eq!(vehicle.path_index, 1);
    // On the road towards the intersection, which lies to the north;
    // the turn onto the road along X takes the innermost lane of one.
    assert_eq!(
        update_vehicle(&mut vehicle, &graph),
        Maneuver::ApproachIntersection { road: R1, intersection: N, approach: GDir::North, lane: 0 }
    );
    assert_eq!(vehicle.path_index, 1);
    vehicle.complete_step();
    assert_eq!(vehicle.path_index, 2);
    assert_eq!(
        update_vehicle(&mut vehicle, &graph),
        Maneuver::LeaveIntersection { intersection: N, road: R2, exit: GDir::West, lane: 0 }
    );
    vehicle.complete_step();
    assert_eq!(
        update_vehicle(&mut vehicle, &graph),
        Maneuver::ApproachBuilding { road: R2, building: B2 }
    );
    vehicle.complete_step();
    assert!(vehicle.has_arrived());
    assert_eq!(update_vehicle(&mut vehicle, &graph), Maneuver::Arrived);
    vehicle.complete_step();
    assert_eq!(vehicle.path_index, 4);
}

#[test]
fn vehicle_holds_where_its_path_names_nothing() {
    let mut graph = corner_city();
    let mut vehicle = Vehicle::new(vec![B1, R1, N, R2, B2]);
    vehicle.path_index = 1;
    graph.hard_destroy(N);
    assert_eq!(get_step_type(N, &graph), StepType::Intersection);
    assert_eq!(update_vehicle(&mut vehicle, &graph), Maneuver::Hold);
    assert_eq!(vehicle.path_index, 1);
    let mut empty = Vehicle::new(vec![]);
    assert!(empty.has_arrived());
    assert_eq!(update_vehicle(&mut empty, &graph), Maneuver::Arrived);
    assert_eq!(empty.current_step(), None);
}

#[test]
fn step_kinds() {
    let graph = corner_city();
    assert_eq!(get_step_type(R1, &graph), StepType::Road);
    assert_eq!(get_step_type(B1, &graph), StepType::Building);
    assert_eq!(get_step_type(N, &graph), StepType::Intersection);
    assert_eq!(get_step_type(12345, &graph), StepType::Intersection);
}

#[test]
fn heading_from_a_segment_to_an_area() {
    let up = RoadSegment::new(area(0, 0, 1, 5), GAxis::Z);
    assert_eq!(direction_to_area(&up, area(0, 6, 1, 7)), GDir::North);
    assert_eq!(direction_to_area(&up, area(0, -2, 1, -1)), GDir::South);
    assert_eq!(direction_to_area(&up, area(0, 0, 1, 5)), GDir::South);
    let across = RoadSegment::new(area(0, 0, 5, 1), GAxis::X);
    assert_eq!(direction_to_area(&across, area(6, 0, 7, 1)), GDir::West);
    assert_eq!(direction_to_area(&across, area(-2, 0, -1, 1)), GDir::East);
}

#[test]
fn lane_for_a_turn() {
    // Six cells wide: three lanes each way.
    let curr = RoadSegment::new(area(0, 0, 5, 9), GAxis::Z);
    let straight = RoadSegment::new(area(0, 16, 5, 25), GAxis::Z);
    assert_eq!(get_lane_for_turn(&curr, &straight, &curr, 2), 1);
    assert_eq!(get_lane_for_turn(&curr, &straight, &curr, 1), 1);
    assert_eq!(get_lane_for_turn(&curr, &straight, &curr, -3), 0);
    let narrow = RoadSegment::new(area(0, 0, 1, 9), GAxis::Z);
    assert_eq!(get_lane_for_turn(&narrow, &straight, &narrow, 4), 0);
    // A turn onto a road along X.
    let to_higher_x_and_y = RoadSegment::new(area(6, 10, 15, 15), GAxis::X);
    let to_lower_x_higher_y = RoadSegment::new(area(-10, 10, -1, 15), GAxis::X);
    assert_eq!(get_lane_for_turn(&curr, &to_higher_x_and_y, &curr, 1), 2);
    assert_eq!(get_lane_for_turn(&curr, &to_lower_x_higher_y, &curr, 1), 0);
    // A turn onto a road along Z.
    let from = RoadSegment::new(area(0, 0, 9, 5), GAxis::X);
    let up_right = RoadSegment::new(area(10, 6, 15, 15), GAxis::Z);
    let down_right = RoadSegment::new(area(10, -10, 15, -1), GAxis::Z);
    assert_eq!(get_lane_for_turn(&from, &up_right, &up_right, 0), 0);
    assert_eq!(get_lane_for_turn(&from, &down_right, &down_right, 0), 2);
}

#[test]
fn one_vehicle_for_every_five_buildings() {
    assert!(!wants_vehicle(4, 0));
    assert!(wants_vehicle(5, 0));
    assert!(!wants_vehicle(5, 1));
    assert!(wants_vehicle(14, 1));
    assert!(!wants_vehicle(14, 2));
}

#[test]
fn facing_vehicles_do_not_wait_for_each_other() {
    assert!(!brakes_for(1, None, None));
    assert!(brakes_for(1, Some(2), None));
    assert!(brakes_for(1, Some(2), Some(3)));
    assert!(!brakes_for(1, Some(2), Some(1)));
}
