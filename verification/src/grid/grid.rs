use crate::collections::cell_index::CellIndex;
use crate::grid::grid_area::{lemma_cell_at, lemma_cell_count, lemma_index_of, GridArea};
use crate::grid::grid_cell::GridCell;
use vstd::prelude::*;

verus! {

/// The radius of the grid that the city is built on.
pub const GRID_RADIUS: i32 = 100;

/// The number of cells along one side of that grid.
pub const GRID_DIAMETER: i32 = 201;

/// The number of cells of that grid.
pub const NUM_CELLS: i32 = 40401;

/// The largest radius that a grid can have: the number of its cells
/// has to fit in a `usize` of 32 bits.
pub const MAX_GRID_RADIUS: i32 = 32767;

/// A cell outside the grid was asked for.
#[derive(Debug, Clone, Copy)]
pub struct GridBoundsError;

impl GridBoundsError {
    /// The error in words.
    pub fn message(&self) -> (text: &'static str)
        ensures
            text@ == "invalid index for the grid: index out of bounds"@,
    {
        "invalid index for the grid: index out of bounds"
    }
}

/// What a grid is to its users: a square of cells around the origin, and
/// for each occupied cell the entity that occupies it.
pub struct GridView {
    pub radius: int,
    pub occupied: Map<GridCell, u64>,
}

impl GridView {
    pub open spec fn in_bounds(self, cell: GridCell) -> bool {
        -self.radius <= cell.x <= self.radius && -self.radius <= cell.y <= self.radius
    }

    /// The entity that occupies `cell`, if any.
    pub open spec fn occupant(self, cell: GridCell) -> Option<u64> {
        if self.occupied.contains_key(cell) {
            Some(self.occupied[cell])
        } else {
            None
        }
    }

    /// Whether `entity` occupies any cell.
    pub open spec fn holds(self, entity: u64) -> bool {
        exists|cell: GridCell| #[trigger] self.occupant(cell) == Some(entity)
    }

    /// Every cell of `area` is inside the grid and free.
    pub open spec fn valid_paint_area(self, area: GridArea) -> bool {
        forall|cell: GridCell| #[trigger]
            area.contains(cell) ==> self.in_bounds(cell) && self.occupant(cell) is None
    }

    /// Every cell of `area` is occupied by `entity`.
    pub open spec fn uniform(self, area: GridArea, entity: u64) -> bool {
        forall|cell: GridCell| #[trigger]
            area.contains(cell) ==> self.occupant(cell) == Some(entity)
    }

    /// The entity that occupies every cell of `area`, if one does.
    pub open spec fn single_entity(self, area: GridArea) -> Option<u64> {
        if exists|entity: u64| self.uniform(area, entity) {
            Some(choose|entity: u64| self.uniform(area, entity))
        } else {
            None
        }
    }

    /// The grid after `entity` has taken every cell of `area`.
    pub open spec fn mark(self, area: GridArea, entity: u64) -> GridView {
        GridView {
            radius: self.radius,
            occupied: Map::new(
                |cell: GridCell| area.contains(cell) || self.occupied.contains_key(cell),
                |cell: GridCell|
                    if area.contains(cell) {
                        entity
                    } else {
                        self.occupied[cell]
                    },
            ),
        }
    }

    /// The grid after `entity` has left every cell that it occupied.
    pub open spec fn erase(self, entity: u64) -> GridView {
        GridView {
            radius: self.radius,
            occupied: Map::new(
                |cell: GridCell|
                    self.occupied.contains_key(cell) && self.occupied[cell] != entity,
                |cell: GridCell| self.occupied[cell],
            ),
        }
    }

    /// Only cells inside the grid are occupied.
    pub open spec fn wf(self) -> bool {
        &&& 0 <= self.radius
        &&& forall|cell: GridCell| #[trigger]
            self.occupied.contains_key(cell) ==> self.in_bounds(cell)
    }
}

/// A bounded square of cells around the origin, each free or occupied by
/// one entity, with a list per entity of the cells that it occupies.
#[derive(Debug)]
pub struct Grid {
    entities: Vec<Option<u64>>,
    addresses: CellIndex,
    radius: i32,
}

impl View for Grid {
    type V = GridView;

    closed spec fn view(&self) -> GridView {
        GridView {
            radius: self.radius as int,
            occupied: Map::new(
                |cell: GridCell| self.bounds().contains(cell) && self.slot(cell) is Some,
                |cell: GridCell| self.slot(cell).unwrap(),
            ),
        }
    }
}

impl Grid {
    /// The square of cells that the grid covers.
    pub closed spec fn bounds(&self) -> GridArea {
        GridArea {
            min: GridCell { x: (-self.radius) as i32, y: (-self.radius) as i32 },
            max: GridCell { x: self.radius, y: self.radius },
        }
    }

    spec fn slot(&self, cell: GridCell) -> Option<u64> {
        self.entities@[self.bounds().index_of(cell)]
    }

    /// The grid is as large as its radius says, and the list of an entity
    /// holds exactly the cells that bear its handle.
    pub closed spec fn wf(&self) -> bool {
        &&& 0 <= self.radius <= MAX_GRID_RADIUS
        &&& self.entities@.len() == self.bounds().cell_count()
        &&& forall|cell: GridCell| #[trigger]
            self.bounds().contains(cell) ==> match self.slot(cell) {
                Some(entity) => self.addresses@.contains_key(entity)
                    && self.addresses@[entity].contains(cell),
                None => true,
            }
        &&& forall|entity: u64, i: int|
            self.addresses@.contains_key(entity) && 0 <= i < self.addresses@[entity].len() ==> {
                &&& self.bounds().contains(#[trigger] self.addresses@[entity][i])
                &&& self.slot(self.addresses@[entity][i]) == Some(entity)
            }
    }

    /// A valid grid looks valid from outside, and its bounds are those of
    /// its view.
    pub proof fn lemma_view_wf(&self)
        requires
            self.wf(),
        ensures
            self@.wf(),
            self@.radius <= MAX_GRID_RADIUS,
            self.bounds().wf(),
            forall|cell: GridCell| self.bounds().contains(cell) == self@.in_bounds(cell),
            forall|area: GridArea|
                area.wf() && self@.in_bounds(area.min) && self@.in_bounds(area.max)
                    ==> area.has_margin(),
    {
    }

    /// A grid of `(2 * radius + 1)` cells along each side, all free. The
    /// cells have coordinates from `-radius` to `radius`.
    pub fn new(radius: i32) -> (grid: Self)
        requires
            0 <= radius <= MAX_GRID_RADIUS,
        ensures
            grid.wf(),
            grid@.radius == radius,
            grid@.occupied == Map::<GridCell, u64>::empty(),
    {
        let diameter: usize = (2 * radius + 1) as usize;
        assert(diameter * diameter <= 65535 * 65535) by (nonlinear_arith)
            requires
                diameter <= 65535,
        ;
        let count: usize = diameter * diameter;
        let mut entities: Vec<Option<u64>> = Vec::new();
        let mut i: usize = 0;
        while i < count
            invariant
                i <= count,
                entities@.len() == i,
                forall|j: int| 0 <= j < i ==> entities@[j] is None,
            decreases count - i,
        {
            entities.push(None);
            i = i + 1;
        }
        let grid = Self { entities, addresses: CellIndex::new(), radius };
        proof {
            assert(grid.bounds().width() == diameter);
            assert(grid.bounds().height() == diameter);
            assert(grid.addresses@ =~= Map::empty());
            assert forall|cell: GridCell| #[trigger]
                grid.bounds().contains(cell) implies grid.slot(cell) is None by {
                lemma_index_of(grid.bounds(), cell);
            }
            assert(grid@.occupied =~= Map::<GridCell, u64>::empty());
        }
        grid
    }

    /// Whether `cell` is a cell of the grid.
    pub fn contains_cell(&self, cell: GridCell) -> (inside: bool)
        requires
            self.wf(),
        ensures
            inside == self@.in_bounds(cell),
    {
        -self.radius <= cell.x && cell.x <= self.radius && -self.radius <= cell.y && cell.y
            <= self.radius
    }

    /// The entity that occupies `cell`, or an error for a cell outside
    /// the grid.
    pub fn entity_at(&self, cell: GridCell) -> (found: Result<Option<u64>, GridBoundsError>)
        requires
            self.wf(),
        ensures
            match found {
                Ok(occupant) => self@.in_bounds(cell) && occupant == self@.occupant(cell),
                Err(_) => !self@.in_bounds(cell),
            },
    {
        if self.contains_cell(cell) {
            let index = self.coordinate(cell);
            Ok(self.entities[index])
        } else {
            Err(GridBoundsError)
        }
    }

    /// Whether `cell` is occupied, or an error for a cell outside the
    /// grid.
    pub fn is_occupied(&self, cell: GridCell) -> (found: Result<bool, GridBoundsError>)
        requires
            self.wf(),
        ensures
            match found {
                Ok(occupied) => self@.in_bounds(cell) && occupied == (self@.occupant(cell)
                    is Some),
                Err(_) => !self@.in_bounds(cell),
            },
    {
        match self.entity_at(cell) {
            Ok(entity_slot) => Ok(entity_slot.is_some()),
            Err(e) => Err(e),
        }
    }

    /// Whether every cell of `area` is inside the grid and free.
    pub fn is_valid_paint_area(&self, area: GridArea) -> (valid: bool)
        requires
            self.wf(),
            area.wf(),
        ensures
            valid == self@.valid_paint_area(area),
    {
        let mut walk = area.iter();
        loop
            invariant
                self.wf(),
                area.wf(),
                walk.wf(),
                walk.area() == area,
                forall|j: int|
                    0 <= j < walk.position() ==> self@.in_bounds(#[trigger] area.cells()[j])
                        && self@.occupant(area.cells()[j]) is None,
            ensures
                walk.position() == area.cell_count(),
            decreases area.cell_count() - walk.position(),
        {
            match walk.next() {
                Some(cell) => {
                    match self.is_occupied(cell) {
                        Ok(occupancy) => {
                            if occupancy {
                                return false;
                            }
                        },
                        Err(_) => {
                            return false;
                        },
                    }
                },
                None => {
                    break ;
                },
            }
        }
        proof {
            assert forall|cell: GridCell| #[trigger] area.contains(cell) implies self@.in_bounds(
                cell,
            ) && self@.occupant(cell) is None by {
                lemma_index_of(area, cell);
            }
        }
        true
    }

    /// The one entity that occupies every cell of `area`, or `None` when
    /// a cell of it is free, outside the grid or occupied by another
    /// entity than the rest.
    pub fn single_entity_in_area(&self, area: GridArea) -> (found: Option<u64>)
        requires
            self.wf(),
            area.wf(),
        ensures
            forall|entity: u64| found == Some(entity) <==> self@.uniform(area, entity),
            found == self@.single_entity(area),
    {
        let mut output: Option<u64> = None;
        let mut walk = area.iter();
        loop
            invariant
                self.wf(),
                area.wf(),
                walk.wf(),
                walk.area() == area,
                output is None <==> walk.position() == 0,
                forall|j: int|
                    0 <= j < walk.position() ==> self@.occupant(#[trigger] area.cells()[j])
                        == output,
            ensures
                walk.position() == area.cell_count(),
            decreases area.cell_count() - walk.position(),
        {
            match walk.next() {
                Some(cell) => {
                    match self.entity_at(cell) {
                        Ok(Some(entity)) => {
                            match output {
                                Some(unique) => {
                                    if unique != entity {
                                        proof {
                                            lemma_cell_at(area, 0);
                                            assert(area.contains(area.cells()[0]));
                                            assert(area.contains(cell));
                                        }
                                        return None;
                                    }
                                },
                                None => {
                                    output = Some(entity);
                                },
                            }
                        },
                        Ok(None) => {
                            return None;
                        },
                        Err(_) => {
                            return None;
                        },
                    }
                },
                None => {
                    break ;
                },
            }
        }
        proof {
            lemma_cell_count(area);
            lemma_cell_at(area, 0);
            assert(area.contains(area.cells()[0]));
            assert forall|cell: GridCell| #[trigger] area.contains(cell) implies self@.occupant(
                cell,
            ) == output by {
                lemma_index_of(area, cell);
            }
            let entity = output.unwrap();
            assert(self@.uniform(area, entity));
            lemma_uniform_unique(self@, area, entity, self@.single_entity(area).unwrap());
        }
        output
    }

    /// Gives every cell of `area` to `entity` and adds those cells to the
    /// list of `entity`. The area has to be a valid paint area.
    pub fn mark_area_occupied(&mut self, area: GridArea, entity: u64)
        requires
            old(self).wf(),
            area.wf(),
            old(self)@.valid_paint_area(area),
        ensures
            final(self).wf(),
            final(self)@ == old(self)@.mark(area, entity),
    {
        let mut list: Vec<GridCell> = match self.addresses.remove(entity) {
            Some(cells) => cells,
            None => Vec::new(),
        };
        let ghost bounds = old(self).bounds();
        let ghost slots = old(self).entities@;
        let ghost old_list = list@;
        proof {
            old(self).lemma_view_wf();
        }
        let mut walk = area.iter();
        loop
            invariant
                area.wf(),
                walk.wf(),
                walk.area() == area,
                old(self).wf(),
                bounds == old(self).bounds(),
                bounds == self.bounds(),
                bounds.wf(),
                slots == old(self).entities@,
                self.radius == old(self).radius,
                self.addresses@ == old(self).addresses@.remove(entity),
                self.entities@.len() == slots.len(),
                forall|cell: GridCell| #[trigger] area.contains(cell) ==> bounds.contains(cell),
                list@.len() == old_list.len() + walk.position(),
                forall|i: int| 0 <= i < old_list.len() ==> list@[i] == old_list[i],
                forall|j: int|
                    0 <= j < walk.position() ==> list@[old_list.len() + j]
                        == #[trigger] area.cells()[j],
                forall|cell: GridCell| #[trigger]
                    bounds.contains(cell) ==> self.entities@[bounds.index_of(cell)]
                        == if area.contains(cell) && area.index_of(cell) < walk.position() {
                        Some(entity)
                    } else {
                        slots[bounds.index_of(cell)]
                    },
            ensures
                walk.position() == area.cell_count(),
            decreases area.cell_count() - walk.position(),
        {
            let ghost position = walk.position();
            match walk.next() {
                Some(cell) => {
                    proof {
                        lemma_index_of(bounds, cell);
                        lemma_cell_at(area, position);
                    }
                    let index = self.coordinate(cell);
                    self.entities[index] = Some(entity);
                    list.push(cell);
                    proof {
                        assert forall|other: GridCell| #[trigger]
                            bounds.contains(other) implies self.entities@[bounds.index_of(other)]
                            == if area.contains(other) && area.index_of(other) < position + 1 {
                            Some(entity)
                        } else {
                            slots[bounds.index_of(other)]
                        } by {
                            lemma_index_of(bounds, other);
                            if area.contains(other) {
                                lemma_index_of(area, other);
                            }
                        }
                    }
                },
                None => {
                    break ;
                },
            }
        }
        let ghost final_list = list@;
        self.addresses.insert(entity, list);
        proof {
            assert(self.bounds() == bounds);
            assert forall|cell: GridCell| #[trigger]
                bounds.contains(cell) implies self.slot(cell) == if area.contains(cell) {
                Some(entity)
            } else {
                old(self).slot(cell)
            } by {
                if area.contains(cell) {
                    lemma_index_of(area, cell);
                }
            }
            assert forall|cell: GridCell| #[trigger] bounds.contains(cell) implies match self.slot(
                cell,
            ) {
                Some(holder) => self.addresses@.contains_key(holder)
                    && self.addresses@[holder].contains(cell),
                None => true,
            } by {
                if area.contains(cell) {
                    lemma_index_of(area, cell);
                    let j = area.index_of(cell);
                    assert(final_list[old_list.len() + j] == area.cells()[j]);
                } else if old(self).slot(cell) == Some(entity) {
                    assert(old(self).addresses@[entity].contains(cell));
                    let k = choose|k: int| 0 <= k < old_list.len() && old_list[k] == cell;
                    assert(final_list[k] == cell);
                } else {
                    assert(old(self).bounds().contains(cell));
                }
            }
            assert forall|holder: u64, i: int|
                self.addresses@.contains_key(holder) && 0 <= i
                    < self.addresses@[holder].len() implies {
                &&& bounds.contains(#[trigger] self.addresses@[holder][i])
                &&& self.slot(self.addresses@[holder][i]) == Some(holder)
            } by {
                if holder == entity {
                    if i < old_list.len() {
                        assert(final_list[i] == old_list[i]);
                        let cell = old(self).addresses@[entity][i];
                        assert(old(self).bounds().contains(cell));
                        assert(old(self).slot(cell) == Some(entity));
                        assert(old(self)@.occupant(cell) == Some(entity));
                    } else {
                        let j = i - old_list.len();
                        assert(final_list[old_list.len() + j] == area.cells()[j]);
                        lemma_cell_at(area, j);
                    }
                } else {
                    let cell = old(self).addresses@[holder][i];
                    assert(old(self).bounds().contains(cell));
                    assert(old(self).slot(cell) == Some(holder));
                    assert(old(self)@.occupant(cell) == Some(holder));
                }
            }
            assert(self@.occupied =~= old(self)@.mark(area, entity).occupied);
        }
    }

    /// Frees every cell that `entity` occupies and drops its list. Does
    /// nothing for an entity that occupies no cell.
    pub fn erase(&mut self, entity: u64)
        requires
            old(self).wf(),
        ensures
            final(self).wf(),
            final(self)@ == old(self)@.erase(entity),
            !old(self)@.holds(entity) ==> final(self)@ == old(self)@,
    {
        let ghost bounds = old(self).bounds();
        let ghost slots = old(self).entities@;
        proof {
            old(self).lemma_view_wf();
        }
        match self.addresses.remove(entity) {
            Some(address_list) => {
                let mut i: usize = 0;
                while i < address_list.len()
                    invariant
                        i <= address_list@.len(),
                        old(self).wf(),
                        bounds == old(self).bounds(),
                        bounds == self.bounds(),
                        bounds.wf(),
                        slots == old(self).entities@,
                        address_list@ == old(self).addresses@[entity],
                        old(self).addresses@.contains_key(entity),
                        self.radius == old(self).radius,
                        self.addresses@ == old(self).addresses@.remove(entity),
                        self.entities@.len() == slots.len(),
                        forall|cell: GridCell| #[trigger]
                            bounds.contains(cell) ==> self.entities@[bounds.index_of(cell)]
                                == if exists|k: int| 0 <= k < i && address_list@[k] == cell {
                                None
                            } else {
                                slots[bounds.index_of(cell)]
                            },
                    decreases address_list@.len() - i,
                {
                    let cell = address_list[i];
                    proof {
                        assert(old(self).bounds().contains(
                            old(self).addresses@[entity][i as int],
                        ));
                        lemma_index_of(bounds, cell);
                    }
                    let index = self.coordinate(cell);
                    self.entities[index] = None;
                    proof {
                        assert forall|other: GridCell| #[trigger]
                            bounds.contains(other) implies self.entities@[bounds.index_of(other)]
                            == if exists|k: int| 0 <= k < i + 1 && address_list@[k] == other {
                            None
                        } else {
                            slots[bounds.index_of(other)]
                        } by {
                            lemma_index_of(bounds, other);
                            if other == cell {
                                assert(address_list@[i as int] == other);
                            } else {
                                if exists|k: int| 0 <= k < i + 1 && address_list@[k] == other {
                                    let k = choose|k: int|
                                        0 <= k < i + 1 && address_list@[k] == other;
                                    assert(0 <= k < i && address_list@[k] == other);
                                }
                            }
                        }
                    }
                    i = i + 1;
                }
                proof {
                    assert forall|cell: GridCell| #[trigger]
                        bounds.contains(cell) implies self.slot(cell) == if old(self).slot(cell)
                        == Some(entity) {
                        None
                    } else {
                        old(self).slot(cell)
                    } by {
                        if old(self).slot(cell) == Some(entity) {
                            assert(old(self).bounds().contains(cell));
                            assert(old(self).addresses@[entity].contains(cell));
                            let k = choose|k: int|
                                0 <= k < address_list@.len() && address_list@[k] == cell;
                            assert(0 <= k < i && address_list@[k] == cell);
                        } else {
                            if exists|k: int| 0 <= k < i && address_list@[k] == cell {
                                let k = choose|k: int| 0 <= k < i && address_list@[k] == cell;
                                assert(old(self).slot(old(self).addresses@[entity][k]) == Some(
                                    entity,
                                ));
                            }
                        }
                    }
                    assert forall|cell: GridCell| #[trigger] bounds.contains(cell) implies match self.slot(
                        cell,
                    ) {
                        Some(holder) => self.addresses@.contains_key(holder)
                            && self.addresses@[holder].contains(cell),
                        None => true,
                    } by {
                        assert(old(self).bounds().contains(cell));
                    }
                    assert forall|holder: u64, j: int|
                        self.addresses@.contains_key(holder) && 0 <= j
                            < self.addresses@[holder].len() implies {
                        &&& bounds.contains(#[trigger] self.addresses@[holder][j])
                        &&& self.slot(self.addresses@[holder][j]) == Some(holder)
                    } by {
                        let cell = old(self).addresses@[holder][j];
                        assert(old(self).bounds().contains(cell));
                        assert(old(self).slot(cell) == Some(holder));
                    }
                    assert(self@.occupied =~= old(self)@.erase(entity).occupied);
                }
            },
            None => {
                proof {
                    assert(self.addresses@ =~= old(self).addresses@);
                    assert forall|cell: GridCell| #[trigger]
                        bounds.contains(cell) implies old(self).slot(cell) != Some(entity) by {
                        assert(old(self).bounds().contains(cell));
                    }
                    assert(self@.occupied =~= old(self)@.erase(entity).occupied);
                }
            },
        }
        proof {
            if !old(self)@.holds(entity) {
                assert forall|cell: GridCell|
                    old(self)@.occupied.contains_key(cell) implies old(self)@.occupied[cell]
                    != entity by {
                    assert(old(self)@.occupant(cell) == Some(old(self)@.occupied[cell]));
                }
                assert(self@.occupied =~= old(self)@.occupied);
            }
        }
    }

    /// The place of a cell of the grid in the list of its cells.
    fn coordinate(&self, cell: GridCell) -> (index: usize)
        requires
            0 <= self.radius <= MAX_GRID_RADIUS,
            self.entities@.len() == self.bounds().cell_count(),
            self.bounds().contains(cell),
        ensures
            index == self.bounds().index_of(cell),
            index < self.entities@.len(),
    {
        proof {
            lemma_index_of(self.bounds(), cell);
        }
        let diameter: usize = (2 * self.radius + 1) as usize;
        let row: usize = (cell.y + self.radius) as usize;
        let column: usize = (cell.x + self.radius) as usize;
        assert(row * diameter + column < diameter * diameter <= 65535 * 65535)
            by (nonlinear_arith)
            requires
                row < diameter,
                column < diameter,
                diameter <= 65535,
        ;
        assert(row * diameter <= row * diameter + column) by (nonlinear_arith)
            requires
                0 <= column,
        ;
        row * diameter + column
    }
}

/// An entity that takes a valid paint area and is then erased leaves the
/// grid as it was: no cell of the area stays occupied and no cell outside
/// it changes. The entity must not occupy any cell beforehand, since
/// erasing frees every cell that it holds.
pub proof fn lemma_mark_then_erase(grid: GridView, area: GridArea, entity: u64)
    requires
        grid.valid_paint_area(area),
        !grid.holds(entity),
    ensures
        grid.mark(area, entity).erase(entity) == grid,
        forall|cell: GridCell|
            area.contains(cell) ==> grid.mark(area, entity).erase(entity).occupant(cell) is None,
        forall|cell: GridCell|
            !area.contains(cell) ==> grid.mark(area, entity).erase(entity).occupant(cell)
                == grid.occupant(cell),
{
    let after = grid.mark(area, entity).erase(entity);
    assert forall|cell: GridCell| grid.occupied.contains_key(cell) implies grid.occupied[cell]
        != entity by {
        assert(grid.occupant(cell) == Some(grid.occupied[cell]));
    }
    assert forall|cell: GridCell| area.contains(cell) implies !grid.occupied.contains_key(
        cell,
    ) by {
        assert(grid.occupant(cell) is None);
    }
    assert(after.occupied =~= grid.occupied);
}

/// Marking a valid paint area gives its cells to the entity, leaves
/// every other cell as it was and keeps the grid valid.
pub proof fn lemma_mark_occupies(grid: GridView, area: GridArea, entity: u64)
    requires
        grid.wf(),
        grid.valid_paint_area(area),
    ensures
        grid.mark(area, entity).wf(),
        grid.mark(area, entity).uniform(area, entity),
        forall|cell: GridCell|
            !area.contains(cell) ==> grid.mark(area, entity).occupant(cell) == grid.occupant(
                cell,
            ),
        area.wf() ==> !grid.mark(area, entity).valid_paint_area(area),
{
    let after = grid.mark(area, entity);
    assert forall|cell: GridCell| #[trigger] after.occupied.contains_key(cell) implies after.in_bounds(
        cell,
    ) by {
        if area.contains(cell) {
        } else {
            assert(grid.occupied.contains_key(cell));
        }
    }
    if area.wf() {
        assert(area.contains(area.min));
        assert(after.occupant(area.min) is Some);
    }
}

/// Erasing an entity frees exactly the cells that it held.
pub proof fn lemma_erase_frees(grid: GridView, entity: u64)
    requires
        grid.wf(),
    ensures
        grid.erase(entity).wf(),
        !grid.erase(entity).holds(entity),
        forall|cell: GridCell|
            grid.erase(entity).occupant(cell) == if grid.occupant(cell) == Some(entity) {
                None
            } else {
                grid.occupant(cell)
            },
        grid.erase(entity).erase(entity) == grid.erase(entity),
{
    let after = grid.erase(entity);
    assert forall|cell: GridCell| #[trigger] after.occupied.contains_key(cell) implies after.in_bounds(
        cell,
    ) by {
        assert(grid.occupied.contains_key(cell));
    }
    assert(after.erase(entity).occupied =~= after.occupied);
}

/// At most one entity occupies every cell of an area; an area in which
/// two cells differ in what they hold, or in which a cell is free, is
/// occupied uniformly by none.
pub proof fn lemma_uniform_unique(grid: GridView, area: GridArea, first: u64, second: u64)
    requires
        area.wf(),
        grid.uniform(area, first),
    ensures
        grid.uniform(area, second) ==> first == second,
        forall|cell: GridCell| area.contains(cell) ==> grid.occupant(cell) == Some(first),
{
    assert(area.contains(area.min));
}

/// An area is a valid paint area exactly if each of its cells is inside
/// the grid and none of them is occupied; what a grid says of an area
/// depends on nothing but the grid and the area, so that asking twice
/// gives the same answer.
pub proof fn lemma_valid_paint_area(grid: GridView, area: GridArea)
    ensures
        grid.valid_paint_area(area) <==> (forall|cell: GridCell| #[trigger]
            area.contains(cell) ==> grid.in_bounds(cell)) && (forall|cell: GridCell| #[trigger]
            area.contains(cell) ==> !grid.occupied.contains_key(cell)),
{
    if grid.valid_paint_area(area) {
        assert forall|cell: GridCell| #[trigger] area.contains(cell) implies !grid.occupied.contains_key(
            cell,
        ) by {
            assert(grid.occupant(cell) is None);
        }
    }
}

/// An area with a free cell, or with two cells that different entities
/// occupy, is occupied as a whole by no entity.
pub proof fn lemma_single_entity_none(grid: GridView, area: GridArea, one: GridCell, other: GridCell)
    requires
        area.contains(one),
        area.contains(other),
        grid.occupant(one) is None || grid.occupant(one) != grid.occupant(other),
    ensures
        grid.single_entity(area) is None,
        forall|entity: u64| !grid.uniform(area, entity),
{
}

/// An area of at least one cell that one entity occupies as a whole is
/// occupied as a whole by that entity and no other.
pub proof fn lemma_single_entity_some(grid: GridView, area: GridArea, entity: u64)
    requires
        area.wf(),
    ensures
        grid.single_entity(area) == Some(entity) <==> grid.uniform(area, entity),
{
    if grid.uniform(area, entity) {
        lemma_uniform_unique(grid, area, entity, grid.single_entity(area).unwrap());
    }
}

} // verus!
