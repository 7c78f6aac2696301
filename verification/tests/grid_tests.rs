use city_traffic::grid::grid::{Grid, GridBoundsError, GRID_DIAMETER, GRID_RADIUS, NUM_CELLS};
use city_traffic::grid::grid_area::GridArea;
use city_traffic::grid::grid_cell::GridCell;

fn cell(x: i32, y: i32) -> GridCell {
    GridCell::new(x, y)
}

fn area(min_x: i32, min_y: i32, max_x: i32, max_y: i32) -> GridArea {
    GridArea::new(cell(min_x, min_y), cell(max_x, max_y))
}

#[test]
fn marked_cell_is_occupied_and_neighbour_is_free() {
    let mut grid = Grid::new(2);
    let e1: u64 = 1;
    let spot = area(0, 0, 0, 0);
    assert!(grid.is_valid_paint_area(spot));
    grid.mark_area_occupied(spot, e1);
    assert_eq!(grid.is_occupied(cell(0, 0)).unwrap(), true);
    assert_eq!(grid.is_occupied(cell(1, 0)).unwrap(), false);
    assert_eq!(grid.entity_at(cell(0, 0)).unwrap(), Some(e1));
}

#[test]
fn grid_of_radius_two_has_five_cells_a_side() {
    let grid = Grid::new(2);
    assert!(grid.is_occupied(cell(-2, -2)).is_ok());
    assert!(grid.is_occupied(cell(2, 2)).is_ok());
    assert!(grid.is_occupied(cell(3, 0)).is_err());
    assert!(grid.is_occupied(cell(0, -3)).is_err());
    assert!(grid.is_valid_paint_area(area(-2, -2, 2, 2)));
    assert!(!grid.is_valid_paint_area(area(-2, -2, 3, 2)));
}

#[test]
fn erase_frees_the_area_and_nothing_else() {
    let mut grid = Grid::new(3);
    grid.mark_area_occupied(area(-1, -1, 0, 0), 7);
    grid.mark_area_occupied(area(1, 1, 2, 2), 8);
    grid.erase(8);
    for x in 1..=2 {
        for y in 1..=2 {
            assert_eq!(grid.entity_at(cell(x, y)).unwrap(), None);
        }
    }
    for x in -1..=0 {
        for y in -1..=0 {
            assert_eq!(grid.entity_at(cell(x, y)).unwrap(), Some(7));
        }
    }
    grid.erase(8);
    assert_eq!(grid.entity_at(cell(0, 0)).unwrap(), Some(7));
    assert!(grid.is_valid_paint_area(area(1, 1, 2, 2)));
}

#[test]
fn paint_area_is_invalid_over_occupied_cells() {
    let mut grid = Grid::new(3);
    grid.mark_area_occupied(area(0, 0, 1, 1), 5);
    assert!(!grid.is_valid_paint_area(area(1, 1, 2, 2)));
    assert!(grid.is_valid_paint_area(area(2, 2, 3, 3)));
    assert!(!grid.is_valid_paint_area(area(1, 1, 2, 2)));
}

#[test]
fn single_entity_needs_full_and_uniform_cover() {
    let mut grid = Grid::new(3);
    grid.mark_area_occupied(area(0, 0, 1, 1), 5);
    grid.mark_area_occupied(area(2, 0, 2, 1), 6);
    assert_eq!(grid.single_entity_in_area(area(0, 0, 1, 1)), Some(5));
    assert_eq!(grid.single_entity_in_area(area(0, 0, 0, 1)), Some(5));
    assert_eq!(grid.single_entity_in_area(area(1, 0, 2, 1)), None);
    assert_eq!(grid.single_entity_in_area(area(0, 0, 1, 2)), None);
    assert_eq!(grid.single_entity_in_area(area(3, 3, 4, 3)), None);
    assert_eq!(grid.single_entity_in_area(area(-1, -1, -1, -1)), None);
}

#[test]
fn out_of_bounds_is_an_error_in_words() {
    let grid = Grid::new(1);
    let error = grid.entity_at(cell(2, 0)).unwrap_err();
    assert_eq!(error.message(), "invalid index for the grid: index out of bounds");
    assert_eq!(GridBoundsError.message(), error.message());
    assert!(grid.contains_cell(cell(-1, 1)));
    assert!(!grid.contains_cell(cell(0, -2)));
}

#[test]
fn the_city_grid_has_its_radius_on_either_side_of_the_origin() {
    assert_eq!(GRID_DIAMETER, 2 * GRID_RADIUS + 1);
    assert_eq!(NUM_CELLS, GRID_DIAMETER * GRID_DIAMETER);
    let grid = Grid::new(GRID_RADIUS);
    assert!(grid.is_valid_paint_area(area(-GRID_RADIUS, -GRID_RADIUS, GRID_RADIUS, GRID_RADIUS)));
    assert!(grid.entity_at(cell(GRID_RADIUS + 1, 0)).is_err());
}

#[test]
fn an_entity_can_take_a_second_area_and_leaves_both() {
    let mut grid = Grid::new(3);
    grid.mark_area_occupied(area(0, 0, 0, 0), 4);
    grid.mark_area_occupied(area(2, 2, 3, 2), 4);
    grid.mark_area_occupied(area(-3, -3, -3, -3), 5);
    assert_eq!(grid.single_entity_in_area(area(2, 2, 3, 2)), Some(4));
    grid.erase(4);
    assert_eq!(grid.entity_at(cell(0, 0)).unwrap(), None);
    assert_eq!(grid.entity_at(cell(3, 2)).unwrap(), None);
    assert_eq!(grid.entity_at(cell(-3, -3)).unwrap(), Some(5));
}
