use city_traffic::graph::road_graph::RoadGraph;
use city_traffic::graph::road_graph_events::OnRoadDestroyed;
use city_traffic::grid::grid_area::GridArea;
use city_traffic::grid::grid_cell::GridCell;
use city_traffic::grid::orientation::{GAxis, GDir};
use city_traffic::bounds::clamp;
use city_traffic::tools::building_tool::{reach, BuildingTool, RequestBuilding};
use city_traffic::tools::eraser_tool::{handle_tool_action, Erased, EraserTool};
use city_traffic::tools::road_events::{
    RequestIntersection, RequestRoad, RequestRoadBridge, RequestRoadExtend, RequestRoadSplit,
};
use city_traffic::tools::road_tool::{
    bridge_road, bridge_roads, extend_road, extend_roads, split_road, split_roads, Attachment,
    Build, DragOutcome, RoadMerge, RoadSplit, RoadTool,
};

fn area(min_x: i32, min_y: i32, max_x: i32, max_y: i32) -> GridArea {
    GridArea::new(GridCell::new(min_x, min_y), GridCell::new(max_x, max_y))
}

const OLD: u64 = 50;

/// One north-south road, two cells wide and eleven long.
fn one_road() -> RoadGraph {
    let mut graph = RoadGraph::new(20);
    graph.spawn_road(OLD, area(0, -5, 1, 5), GAxis::Z).unwrap();
    graph.link_road(OLD);
    graph
}

#[test]
fn split_in_the_middle_leaves_two_pieces() {
    let graph = one_road();
    let split = split_road(&RequestRoadSplit::new(OLD, area(0, 0, 1, 1)), &graph).unwrap();
    assert_eq!(
        split,
        RoadSplit {
            before: Some(RequestRoad::new(area(0, -5, 1, -1), GAxis::Z)),
            after: Some(RequestRoad::new(area(0, 2, 1, 5), GAxis::Z)),
            destroyed: OnRoadDestroyed(OLD),
        }
    );
}

#[test]
fn split_at_an_end_leaves_one_piece_and_over_all_none() {
    let graph = one_road();
    let low = split_road(&RequestRoadSplit::new(OLD, area(0, -5, 1, -4)), &graph).unwrap();
    assert_eq!(low.before, None);
    assert_eq!(low.after, Some(RequestRoad::new(area(0, -3, 1, 5), GAxis::Z)));
    let high = split_road(&RequestRoadSplit::new(OLD, area(0, 4, 1, 5)), &graph).unwrap();
    assert_eq!(high.before, Some(RequestRoad::new(area(0, -5, 1, 3), GAxis::Z)));
    assert_eq!(high.after, None);
    let all = split_road(&RequestRoadSplit::new(OLD, area(0, -5, 1, 5)), &graph).unwrap();
    assert_eq!((all.before, all.after), (None, None));
    assert_eq!(all.destroyed, OnRoadDestroyed(OLD));
    assert_eq!(split_road(&RequestRoadSplit::new(77, area(0, 0, 1, 1)), &graph), None);
}

#[test]
fn split_of_a_road_along_x() {
    let mut graph = RoadGraph::new(20);
    graph.spawn_road(OLD, area(-4, 0, 6, 3), GAxis::X).unwrap();
    let splits = split_roads(
        &vec![RequestRoadSplit::new(OLD, area(1, 0, 2, 3)), RequestRoadSplit::new(9, area(1, 0, 2, 3))],
        &graph,
    );
    assert_eq!(splits.len(), 2);
    assert_eq!(
        splits[0],
        Some(RoadSplit {
            before: Some(RequestRoad::new(area(-4, 0, 0, 3), GAxis::X)),
            after: Some(RequestRoad::new(area(3, 0, 6, 3), GAxis::X)),
            destroyed: OnRoadDestroyed(OLD),
        })
    );
    assert_eq!(splits[1], None);
}

#[test]
fn crossing_road_makes_one_intersection_and_two_shorter_roads() {
    let mut graph = one_road();
    let mut tool = RoadTool::new();
    tool.change_orientation();
    // Drag a road along X from x = 2 to x = 8 at y = 0..1, east of the old road.
    tool.update_ground_position(GridCell::new(2, 0));
    assert_eq!(tool.hover_area(), area(2, 0, 2, 1));
    assert_eq!(tool.handle_action(&graph), None);
    tool.update_ground_position(GridCell::new(8, 3));
    assert_eq!(tool.area(), area(2, 0, 8, 1));
    assert_eq!(tool.drag_start_attach_area(), area(1, 0, 1, 1));
    assert_eq!(tool.drag_end_attach_area(), area(9, 0, 9, 1));
    let outcome = tool.handle_action(&graph).unwrap();
    assert_eq!(
        outcome,
        DragOutcome {
            start: Attachment::Cross { road: OLD, area: area(0, 0, 1, 1) },
            end: Attachment::Free,
            build: Build::Road(RequestRoad::new(area(2, 0, 8, 1), GAxis::X)),
        }
    );
    assert_eq!(outcome.start.split_request(), Some(RequestRoadSplit::new(OLD, area(0, 0, 1, 1))));
    assert_eq!(
        outcome.start.intersection_request(),
        Some(RequestIntersection::new(area(0, 0, 1, 1)))
    );
    assert_eq!(outcome.end.split_request(), None);

    // Carry the requests out: the old road goes, its pieces, the
    // intersection and the new road come.
    let split = split_road(&outcome.start.split_request().unwrap(), &graph).unwrap();
    graph.soft_destroy(split.destroyed.0);
    graph.spawn_road(51, split.before.unwrap().area, GAxis::Z).unwrap();
    graph.spawn_road(52, split.after.unwrap().area, GAxis::Z).unwrap();
    graph.spawn_intersection(60, area(0, 0, 1, 1)).unwrap();
    graph.spawn_road(53, area(2, 0, 8, 1), GAxis::X).unwrap();
    for road in [51, 52, 53] {
        graph.link_road(road);
    }
    graph.link_intersection(60);
    graph.hard_destroy(OLD);
    assert!(graph.segment(OLD).is_none());
    assert_eq!(
        graph.intersection(60).unwrap().roads,
        [Some(52), Some(51), None, Some(53)]
    );
    assert_eq!(graph.segment(51).unwrap().ends, [Some(60), None]);
    assert_eq!(graph.segment(52).unwrap().ends, [None, Some(60)]);
    assert_eq!(graph.segment(53).unwrap().ends, [Some(60), None]);
    assert_eq!(graph.intersection(60).unwrap().road_at(GDir::North), Some(52));
}

#[test]
fn drag_in_line_with_a_road_extends_it() {
    let graph = one_road();
    let mut tool = RoadTool::new();
    tool.update_ground_position(GridCell::new(0, 6));
    tool.handle_action(&graph);
    tool.update_ground_position(GridCell::new(3, 9));
    assert_eq!(tool.area(), area(0, 6, 1, 9));
    let outcome = tool.handle_action(&graph).unwrap();
    assert_eq!(outcome.start, Attachment::Extend { road: OLD });
    assert_eq!(outcome.end, Attachment::Free);
    assert_eq!(outcome.build, Build::Extend(RequestRoadExtend::new(OLD, area(0, 6, 1, 9))));
    let merge = extend_road(&RequestRoadExtend::new(OLD, area(0, 6, 1, 9)), &graph).unwrap();
    assert_eq!(
        merge,
        RoadMerge {
            road: RequestRoad::new(area(0, -5, 1, 9), GAxis::Z),
            destroyed: OnRoadDestroyed(OLD),
            also_destroyed: None,
        }
    );
    assert_eq!(extend_roads(&vec![RequestRoadExtend::new(3, area(0, 0, 0, 0))], &graph), vec![None]);
}

#[test]
fn drag_between_two_roads_bridges_them() {
    let mut graph = one_road();
    graph.spawn_road(70, area(0, 10, 1, 14), GAxis::Z).unwrap();
    let mut tool = RoadTool::new();
    tool.update_ground_position(GridCell::new(0, 9));
    tool.handle_action(&graph);
    tool.update_ground_position(GridCell::new(0, 6));
    assert_eq!(tool.area(), area(0, 6, 1, 9));
    assert_eq!(tool.drag_start_attach_area(), area(0, 10, 1, 10));
    assert_eq!(tool.drag_end_attach_area(), area(0, 5, 1, 5));
    let outcome = tool.handle_action(&graph).unwrap();
    assert_eq!(outcome.build, Build::Bridge(RequestRoadBridge::new(70, OLD)));
    let merge = bridge_road(&RequestRoadBridge::new(70, OLD), &graph).unwrap();
    assert_eq!(merge.road, RequestRoad::new(area(0, -5, 1, 14), GAxis::Z));
    assert_eq!(merge.destroyed, OnRoadDestroyed(70));
    assert_eq!(merge.also_destroyed, Some(OnRoadDestroyed(OLD)));
    assert_eq!(bridge_roads(&vec![RequestRoadBridge::new(70, 1)], &graph), vec![None]);
}

#[test]
fn drag_over_occupied_cells_builds_nothing() {
    let graph = one_road();
    let mut tool = RoadTool::new();
    tool.change_orientation();
    tool.update_ground_position(GridCell::new(-3, 0));
    tool.handle_action(&graph);
    tool.update_ground_position(GridCell::new(4, 0));
    let outcome = tool.handle_action(&graph).unwrap();
    assert_eq!(
        outcome,
        DragOutcome { start: Attachment::Free, end: Attachment::Free, build: Build::Nothing }
    );
}

#[test]
fn a_wider_tool_beside_a_road_builds_a_road_of_its_own() {
    let graph = one_road();
    let mut tool = RoadTool::new();
    tool.adjust_tool_size(true, false);
    tool.update_ground_position(GridCell::new(0, 6));
    assert_eq!(tool.hover_area(), area(-1, 6, 2, 6));
    tool.handle_action(&graph);
    tool.update_ground_position(GridCell::new(0, 8));
    let outcome = tool.handle_action(&graph).unwrap();
    assert_eq!(outcome.start, Attachment::Free);
    assert_eq!(outcome.build, Build::Road(RequestRoad::new(area(-1, 6, 2, 8), GAxis::Z)));
    tool.adjust_tool_size(false, true);
    tool.adjust_tool_size(false, true);
    assert_eq!(tool.hover_area(), area(0, 8, 1, 8));
    tool.handle_action(&graph);
    tool.cancel();
    assert_eq!(tool.handle_action(&graph), None);
}

#[test]
fn building_tool_places_an_area_around_the_pointer() {
    let mut tool = BuildingTool::new();
    assert_eq!(tool.area(), area(0, 0, 0, 0));
    tool.adjust_tool_size(1, 1);
    tool.update_ground_position(GridCell::new(2, 3));
    assert_eq!(tool.handle_tool_action(), RequestBuilding::new(area(2, 3, 3, 4)));
    tool.adjust_tool_size(1, 0);
    assert_eq!(tool.area(), area(1, 3, 3, 4));
    tool.adjust_tool_size(-5, -5);
    assert_eq!(tool.area(), area(2, 3, 2, 3));
    assert_eq!(clamp(7, 0, 5), 5);
    assert_eq!(clamp(-7, 0, 5), 0);
    assert_eq!(clamp(3, 0, 5), 3);
    assert_eq!(reach(GridCell::new(i32::MAX, i32::MIN)), GridCell::new(0x2000_0000, -0x2000_0000));
}

#[test]
fn eraser_finds_what_it_sweeps_over() {
    let mut graph = one_road();
    graph.spawn_building(80, area(2, 0, 3, 1)).unwrap();
    graph.spawn_intersection(90, area(0, 6, 1, 7)).unwrap();
    let mut tool = EraserTool::new();
    tool.adjust_tool_size(1);
    tool.update_ground_position(GridCell::new(1, 0));
    assert_eq!(tool.area(), area(1, 0, 2, 1));
    assert_eq!(
        handle_tool_action(&graph, tool.area()),
        vec![Erased::Road(OLD), Erased::Building(80), Erased::Road(OLD), Erased::Building(80)]
    );
    assert_eq!(handle_tool_action(&graph, area(0, 7, 1, 8)), vec![
        Erased::Intersection(90),
        Erased::Intersection(90)
    ]);
    assert!(handle_tool_action(&graph, area(19, 19, 22, 22)).is_empty());
}
