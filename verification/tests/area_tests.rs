use city_traffic::grid::grid_area::GridArea;
use city_traffic::grid::grid_cell::GridCell;
use city_traffic::grid::orientation::{GAxis, GDir};

fn area(min_x: i32, min_y: i32, max_x: i32, max_y: i32) -> GridArea {
    GridArea::new(GridCell::new(min_x, min_y), GridCell::new(max_x, max_y))
}

fn cells_of(area: GridArea) -> Vec<GridCell> {
    let mut walk = area.iter();
    let mut cells = Vec::new();
    while let Some(cell) = walk.next() {
        cells.push(cell);
    }
    cells
}

#[test]
fn area_at_a_point_with_even_extents() {
    let x: f32 = 2.5;
    let z: f32 = 3.5;
    let cell = GridCell::new(x.floor() as i32, z.floor() as i32);
    let area = GridArea::at(cell, 2, 2);
    assert_eq!(area.min, GridCell::new(2, 3));
    assert_eq!(area.max, GridCell::new(3, 4));
    assert_eq!(area.dimensions(), (2, 2));
    assert_eq!(area.cell_dimensions(), (2, 2));
}

#[test]
fn area_at_a_point_with_odd_and_mixed_extents() {
    let area = GridArea::at(GridCell::new(0, 0), 3, 1);
    assert_eq!(area, GridArea::new(GridCell::new(-1, 0), GridCell::new(1, 0)));
    let area = GridArea::at(GridCell::new(-4, 7), 4, 5);
    assert_eq!(area, GridArea::new(GridCell::new(-5, 5), GridCell::new(-2, 9)));
    assert_eq!(area.dimensions(), (4, 5));
    assert!(area.contains_cell(GridCell::new(-4, 7)));
}

#[test]
fn walk_yields_every_cell_once_row_by_row() {
    let area = area(-1, 2, 1, 3);
    let cells = cells_of(area);
    assert_eq!(
        cells,
        vec![
            GridCell::new(-1, 2),
            GridCell::new(0, 2),
            GridCell::new(1, 2),
            GridCell::new(-1, 3),
            GridCell::new(0, 3),
            GridCell::new(1, 3),
        ]
    );
    let (w, h) = area.dimensions();
    assert_eq!(cells.len() as i32, w * h);
    for (i, a) in cells.iter().enumerate() {
        assert!(area.contains_cell(*a));
        for b in &cells[i + 1..] {
            assert_ne!(a, b);
        }
    }
}

#[test]
fn walk_over_one_cell_and_over_a_line() {
    assert_eq!(cells_of(area(5, 5, 5, 5)), vec![GridCell::new(5, 5)]);
    assert_eq!(cells_of(area(0, 0, 0, 2)).len(), 3);
    let mut walk = area(1, 1, 1, 1).iter();
    assert_eq!(walk.next(), Some(GridCell::new(1, 1)));
    assert_eq!(walk.next(), None);
    assert_eq!(walk.next(), None);
}

#[test]
fn strips_around_an_area() {
    let a = area(0, 0, 2, 1);
    assert_eq!(a.adjacent_top(), area(0, 2, 2, 2));
    assert_eq!(a.adjacent_bottom(), area(0, -1, 2, -1));
    assert_eq!(a.adjacent_left(), area(-1, 0, -1, 1));
    assert_eq!(a.adjacent_right(), area(3, 0, 3, 1));
    assert_eq!(a.adjacent(GDir::West), a.adjacent_left());
    let mut around = a.adjacent_areas();
    assert_eq!(around.next(), Some((a.adjacent_top(), GDir::North)));
    assert_eq!(around.next(), Some((a.adjacent_bottom(), GDir::South)));
    assert_eq!(around.next(), Some((a.adjacent_left(), GDir::West)));
    assert_eq!(around.next(), Some((a.adjacent_right(), GDir::East)));
    assert_eq!(around.next(), None);
}

#[test]
fn union_is_the_smallest_area_around_both() {
    assert_eq!(area(0, 0, 1, 1).union(area(3, -2, 4, 0)), area(0, -2, 4, 1));
    assert_eq!(area(0, 0, 5, 5).union(area(1, 1, 2, 2)), area(0, 0, 5, 5));
}

#[test]
fn directions_and_their_slots() {
    assert_eq!(GDir::North.inverse(), GDir::South);
    assert_eq!(GDir::East.inverse(), GDir::West);
    assert_eq!(GDir::West.inverse().inverse(), GDir::West);
    assert_eq!(
        [GDir::North.index(), GDir::South.index(), GDir::West.index(), GDir::East.index()],
        [0, 1, 2, 3]
    );
    assert_eq!(
        [
            GDir::North.binary_index(),
            GDir::South.binary_index(),
            GDir::West.binary_index(),
            GDir::East.binary_index()
        ],
        [0, 1, 0, 1]
    );
    assert_eq!(GDir::from_index(2), GDir::West);
    assert_eq!(GDir::South.axis(), GAxis::Z);
    assert_eq!(GAxis::X.end_direction(1), GDir::East);
    assert_eq!(GAxis::Z.end_direction(0), GDir::North);
    assert_eq!(GDir::North.unit_step(), (0, 1));
    assert_eq!(GDir::West.unit_step(), (1, 0));
    assert_eq!(GAxis::default(), GAxis::X);
}
