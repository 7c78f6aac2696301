use crate::grid::grid_cell::GridCell;
use crate::grid::orientation::GDir;
use vstd::arithmetic::div_mod::{lemma_fundamental_div_mod, lemma_fundamental_div_mod_converse};
use vstd::prelude::*;

verus! {

/// An inclusive rectangle of cells, from `min` to `max`.
#[derive(Copy, Clone, Debug, PartialEq, Eq, Structural)]
pub struct GridArea {
    pub min: GridCell,
    pub max: GridCell,
}

impl GridArea {
    /// An area holds at least one cell: it is at least one cell wide and
    /// one cell high.
    pub open spec fn wf(self) -> bool {
        self.min.x <= self.max.x && self.min.y <= self.max.y
    }

    /// The number of cells along `x`.
    pub open spec fn width(self) -> int {
        self.max.x - self.min.x + 1
    }

    /// The number of cells along `y`.
    pub open spec fn height(self) -> int {
        self.max.y - self.min.y + 1
    }

    pub open spec fn contains(self, cell: GridCell) -> bool {
        self.min.x <= cell.x <= self.max.x && self.min.y <= cell.y <= self.max.y
    }

    /// Every cell of `self` is a cell of `other`.
    pub open spec fn within(self, other: GridArea) -> bool {
        other.min.x <= self.min.x && self.max.x <= other.max.x && other.min.y <= self.min.y
            && self.max.y <= other.max.y
    }

    /// The two areas share no cell.
    pub open spec fn disjoint(self, other: GridArea) -> bool {
        self.max.x < other.min.x || other.max.x < self.min.x || self.max.y < other.min.y
            || other.max.y < self.min.y
    }

    /// All four neighbouring strips have coordinates that an `i32` holds.
    pub open spec fn has_margin(self) -> bool {
        i32::MIN < self.min.x && self.max.x < i32::MAX && i32::MIN < self.min.y && self.max.y
            < i32::MAX
    }

    pub open spec fn cell_count(self) -> int {
        self.width() * self.height()
    }

    /// The cell with number `i` when the area is walked row by row, each
    /// row from `min.x` to `max.x`, the rows from `min.y` to `max.y`.
    pub open spec fn cell_at(self, i: int) -> GridCell {
        GridCell {
            x: (self.min.x + i % self.width()) as i32,
            y: (self.min.y + i / self.width()) as i32,
        }
    }

    /// The number that `cell` has in that walk.
    pub open spec fn index_of(self, cell: GridCell) -> int {
        (cell.y - self.min.y) * self.width() + (cell.x - self.min.x)
    }

    /// The cells of the area in the order in which `iter` yields them.
    pub open spec fn cells(self) -> Seq<GridCell> {
        Seq::new(self.cell_count() as nat, |i: int| self.cell_at(i))
    }

    /// The strip one cell deep that lies against the side `dir`.
    pub open spec fn spec_adjacent(self, dir: GDir) -> GridArea {
        match dir {
            GDir::North => GridArea {
                min: GridCell { x: self.min.x, y: (self.max.y + 1) as i32 },
                max: GridCell { x: self.max.x, y: (self.max.y + 1) as i32 },
            },
            GDir::South => GridArea {
                min: GridCell { x: self.min.x, y: (self.min.y - 1) as i32 },
                max: GridCell { x: self.max.x, y: (self.min.y - 1) as i32 },
            },
            GDir::West => GridArea {
                min: GridCell { x: (self.min.x - 1) as i32, y: self.min.y },
                max: GridCell { x: (self.min.x - 1) as i32, y: self.max.y },
            },
            GDir::East => GridArea {
                min: GridCell { x: (self.max.x + 1) as i32, y: self.min.y },
                max: GridCell { x: (self.max.x + 1) as i32, y: self.max.y },
            },
        }
    }

    pub open spec fn spec_union(self, other: GridArea) -> GridArea {
        GridArea {
            min: GridCell {
                x: if self.min.x <= other.min.x { self.min.x } else { other.min.x },
                y: if self.min.y <= other.min.y { self.min.y } else { other.min.y },
            },
            max: GridCell {
                x: if self.max.x >= other.max.x { self.max.x } else { other.max.x },
                y: if self.max.y >= other.max.y { self.max.y } else { other.max.y },
            },
        }
    }

    pub fn new(min: GridCell, max: GridCell) -> (area: Self)
        ensures
            area.min == min,
            area.max == max,
    {
        Self { min, max }
    }

    /// The area of `width` by `height` cells laid around `cell`. With an
    /// odd extent the cell is the middle one; with an even extent the
    /// area reaches one cell further towards the larger coordinates.
    pub fn at(cell: GridCell, width: i32, height: i32) -> (area: Self)
        requires
            width >= 1,
            height >= 1,
            i32::MIN <= cell.x - (width - 1) / 2,
            cell.x + width / 2 <= i32::MAX,
            i32::MIN <= cell.y - (height - 1) / 2,
            cell.y + height / 2 <= i32::MAX,
        ensures
            area.min.x == cell.x - (width - 1) / 2,
            area.max.x == cell.x + width / 2,
            area.min.y == cell.y - (height - 1) / 2,
            area.max.y == cell.y + height / 2,
            area.wf(),
            area.width() == width,
            area.height() == height,
            area.contains(cell),
    {
        let mut min_x: i32 = cell.x;
        let mut max_x: i32 = cell.x;
        let mut min_y: i32 = cell.y;
        let mut max_y: i32 = cell.y;

        if width % 2 != 0 {
            let radius: i32 = (width - 1) / 2;
            min_x = min_x - radius;
            max_x = max_x + radius;
        } else {
            let radius: i32 = width / 2;
            min_x = min_x - (radius - 1);
            max_x = max_x + radius;
        }

        if height % 2 != 0 {
            let radius: i32 = (height - 1) / 2;
            min_y = min_y - radius;
            max_y = max_y + radius;
        } else {
            let radius: i32 = height / 2;
            min_y = min_y - (radius - 1);
            max_y = max_y + radius;
        }

        Self { min: GridCell::new(min_x, min_y), max: GridCell::new(max_x, max_y) }
    }

    /// Width and height in cells.
    pub fn cell_dimensions(&self) -> (dims: (i32, i32))
        requires
            self.wf(),
            self.width() <= i32::MAX,
            self.height() <= i32::MAX,
        ensures
            dims.0 == self.width(),
            dims.1 == self.height(),
            dims.0 >= 1,
            dims.1 >= 1,
    {
        ((self.max.x - self.min.x) + 1, (self.max.y - self.min.y) + 1)
    }

    /// Width and height in grid units; a cell is one unit wide and high.
    pub fn dimensions(&self) -> (dims: (i32, i32))
        requires
            self.wf(),
            self.width() <= i32::MAX,
            self.height() <= i32::MAX,
        ensures
            dims.0 == self.width(),
            dims.1 == self.height(),
    {
        self.cell_dimensions()
    }

    /// Whether `cell` lies in the area.
    pub fn contains_cell(&self, cell: GridCell) -> (inside: bool)
        ensures
            inside == self.contains(cell),
    {
        self.min.x <= cell.x && cell.x <= self.max.x && self.min.y <= cell.y && cell.y
            <= self.max.y
    }

    /// The smallest area that holds both.
    pub fn union(&self, other: GridArea) -> (area: GridArea)
        ensures
            area == self.spec_union(other),
            self.within(area),
            other.within(area),
            self.wf() ==> area.wf(),
    {
        GridArea {
            min: GridCell {
                x: if self.min.x <= other.min.x { self.min.x } else { other.min.x },
                y: if self.min.y <= other.min.y { self.min.y } else { other.min.y },
            },
            max: GridCell {
                x: if self.max.x >= other.max.x { self.max.x } else { other.max.x },
                y: if self.max.y >= other.max.y { self.max.y } else { other.max.y },
            },
        }
    }

    /// The row of cells just below the area's smallest `y`.
    pub fn adjacent_bottom(&self) -> (area: GridArea)
        requires
            self.min.y > i32::MIN,
        ensures
            area == self.spec_adjacent(GDir::South),
    {
        let new_y: i32 = self.min.y - 1;
        GridArea { min: GridCell::new(self.min.x, new_y), max: GridCell::new(self.max.x, new_y) }
    }

    /// The row of cells just above the area's largest `y`.
    pub fn adjacent_top(&self) -> (area: GridArea)
        requires
            self.max.y < i32::MAX,
        ensures
            area == self.spec_adjacent(GDir::North),
    {
        let new_y: i32 = self.max.y + 1;
        GridArea { min: GridCell::new(self.min.x, new_y), max: GridCell::new(self.max.x, new_y) }
    }

    /// The column of cells just before the area's smallest `x`.
    pub fn adjacent_left(&self) -> (area: GridArea)
        requires
            self.min.x > i32::MIN,
        ensures
            area == self.spec_adjacent(GDir::West),
    {
        let new_x: i32 = self.min.x - 1;
        GridArea { min: GridCell::new(new_x, self.min.y), max: GridCell::new(new_x, self.max.y) }
    }

    /// The column of cells just after the area's largest `x`.
    pub fn adjacent_right(&self) -> (area: GridArea)
        requires
            self.max.x < i32::MAX,
        ensures
            area == self.spec_adjacent(GDir::East),
    {
        let new_x: i32 = self.max.x + 1;
        GridArea { min: GridCell::new(new_x, self.min.y), max: GridCell::new(new_x, self.max.y) }
    }

    /// The strip against the side that the road network labels `dir`:
    /// north is the top, south the bottom, west the left, east the right.
    pub fn adjacent(&self, dir: GDir) -> (area: GridArea)
        requires
            self.has_margin(),
        ensures
            area == self.spec_adjacent(dir),
    {
        match dir {
            GDir::North => self.adjacent_top(),
            GDir::South => self.adjacent_bottom(),
            GDir::West => self.adjacent_left(),
            GDir::East => self.adjacent_right(),
        }
    }

    /// A walk over the cells of the area, in the order of `cells`.
    pub fn iter(&self) -> (it: GridAreaIterator)
        requires
            self.wf(),
        ensures
            it.wf(),
            it.area() == *self,
            it.position() == 0,
    {
        proof {
            lemma_cell_count(*self);
        }
        GridAreaIterator { area: *self, current: self.min, done: false }
    }

    /// A walk over the four neighbouring strips: top, bottom, left, right.
    pub fn adjacent_areas(&self) -> (it: GridAdjacentAreasIterator)
        requires
            self.has_margin(),
        ensures
            it.area() == *self,
            it.position() == 0,
            it.wf(),
    {
        GridAdjacentAreasIterator { area: *self, index: 0 }
    }
}

/// The state of a walk over the cells of an area.
pub struct GridAreaIterator {
    area: GridArea,
    current: GridCell,
    done: bool,
}

impl GridAreaIterator {
    pub closed spec fn area(self) -> GridArea {
        self.area
    }

    /// How many cells the walk has yielded.
    pub closed spec fn position(self) -> int {
        if self.done {
            self.area.cell_count()
        } else {
            self.area.index_of(self.current)
        }
    }

    pub closed spec fn wf(self) -> bool {
        self.area.wf() && (self.done || self.area.contains(self.current))
    }

    /// The next cell of the walk, or `None` when every cell was yielded.
    pub fn next(&mut self) -> (cell: Option<GridCell>)
        requires
            old(self).wf(),
        ensures
            final(self).wf(),
            final(self).area() == old(self).area(),
            match cell {
                Some(c) => {
                    &&& 0 <= old(self).position() < old(self).area().cell_count()
                    &&& c == old(self).area().cells()[old(self).position()]
                    &&& old(self).area().contains(c)
                    &&& final(self).position() == old(self).position() + 1
                },
                None => {
                    &&& old(self).position() == old(self).area().cell_count()
                    &&& final(self).position() == old(self).position()
                },
            },
    {
        if self.done {
            return None;
        }
        let cell = self.current;
        proof {
            lemma_cell_count(self.area);
            lemma_index_of(self.area, cell);
        }
        if self.current.x < self.area.max.x {
            self.current = GridCell::new(self.current.x + 1, self.current.y);
            proof {
                lemma_index_of_step(self.area, cell, self.current);
            }
        } else if self.current.y < self.area.max.y {
            self.current = GridCell::new(self.area.min.x, self.current.y + 1);
            proof {
                lemma_index_of_step(self.area, cell, self.current);
            }
        } else {
            self.done = true;
            proof {
                lemma_index_of_last(self.area);
            }
        }
        Some(cell)
    }
}

/// The state of a walk over the four strips around an area.
pub struct GridAdjacentAreasIterator {
    area: GridArea,
    index: usize,
}

impl GridAdjacentAreasIterator {
    pub closed spec fn area(self) -> GridArea {
        self.area
    }

    /// How many strips the walk has yielded.
    pub closed spec fn position(self) -> int {
        self.index as int
    }

    pub closed spec fn wf(self) -> bool {
        self.area.has_margin() && self.index <= 4
    }

    /// The direction of the strip with number `i`.
    pub open spec fn direction_at(i: int) -> GDir {
        GDir::spec_from_index(i)
    }

    /// The next strip with the direction that it lies in, or `None` after
    /// the fourth.
    pub fn next(&mut self) -> (item: Option<(GridArea, GDir)>)
        requires
            old(self).wf(),
        ensures
            final(self).wf(),
            final(self).area() == old(self).area(),
            match item {
                Some((strip, dir)) => {
                    &&& old(self).position() < 4
                    &&& dir == Self::direction_at(old(self).position())
                    &&& strip == old(self).area().spec_adjacent(dir)
                    &&& final(self).position() == old(self).position() + 1
                },
                None => old(self).position() == 4 && final(self).position() == 4,
            },
    {
        if self.index >= 4 {
            return None;
        }
        let dir = GDir::from_index(self.index);
        let strip = self.area.adjacent(dir);
        self.index = self.index + 1;
        Some((strip, dir))
    }
}

/// An area that is at least one cell wide and high holds at least one
/// cell.
pub proof fn lemma_cell_count(area: GridArea)
    requires
        area.wf(),
    ensures
        area.cell_count() >= 1,
        area.cell_count() >= area.width(),
        area.cells().len() == area.cell_count(),
{
    assert(area.width() * area.height() >= area.width()) by (nonlinear_arith)
        requires
            area.width() >= 1,
            area.height() >= 1,
    ;
}

/// A cell of the area has a number below the cell count, and the cell
/// with that number is the cell itself.
pub proof fn lemma_index_of(area: GridArea, cell: GridCell)
    requires
        area.wf(),
        area.contains(cell),
    ensures
        0 <= area.index_of(cell) < area.cell_count(),
        area.cell_at(area.index_of(cell)) == cell,
        area.cells()[area.index_of(cell)] == cell,
{
    let w = area.width();
    let h = area.height();
    let row = cell.y - area.min.y;
    let col = cell.x - area.min.x;
    assert(0 <= row * w + col < w * h) by (nonlinear_arith)
        requires
            0 <= row < h,
            0 <= col < w,
    ;
    lemma_fundamental_div_mod_converse(row * w + col, w, row, col);
}

/// The cell with number `i` lies in the area and has the number `i`.
pub proof fn lemma_cell_at(area: GridArea, i: int)
    requires
        area.wf(),
        0 <= i < area.cell_count(),
    ensures
        area.contains(area.cell_at(i)),
        area.index_of(area.cell_at(i)) == i,
        area.cells()[i] == area.cell_at(i),
{
    let w = area.width();
    let h = area.height();
    lemma_fundamental_div_mod(i, w);
    assert(0 <= i % w < w);
    assert(0 <= i / w < h) by (nonlinear_arith)
        requires
            0 <= i < w * h,
            w >= 1,
            i == w * (i / w) + i % w,
            0 <= i % w < w,
    ;
    assert(w * (i / w) == (i / w) * w) by (nonlinear_arith);
}

proof fn lemma_index_of_step(area: GridArea, from: GridCell, to: GridCell)
    requires
        area.wf(),
        area.contains(from),
        (to.x == from.x + 1 && to.y == from.y && from.x < area.max.x) || (to.x == area.min.x
            && to.y == from.y + 1 && from.x == area.max.x && from.y < area.max.y),
    ensures
        area.contains(to),
        area.index_of(to) == area.index_of(from) + 1,
{
    let w = area.width();
    let row = from.y - area.min.y;
    assert((row + 1) * w == row * w + w) by (nonlinear_arith);
}

proof fn lemma_index_of_last(area: GridArea)
    requires
        area.wf(),
    ensures
        area.index_of(area.max) + 1 == area.cell_count(),
{
    let w = area.width();
    let h = area.height();
    assert((h - 1) * w + (w - 1) + 1 == w * h) by (nonlinear_arith);
}

/// Walking an area yields each of its cells once and nothing else: the
/// walk is as long as width times height, no two of its positions hold
/// the same cell, and a cell is in the walk exactly if the area contains
/// it.
pub proof fn lemma_cells_exact(area: GridArea)
    requires
        area.wf(),
    ensures
        area.cells().len() == area.width() * area.height(),
        forall|i: int, j: int|
            0 <= i < j < area.cells().len() ==> area.cells()[i] != area.cells()[j],
        forall|cell: GridCell| area.contains(cell) <==> area.cells().contains(cell),
{
    lemma_cell_count(area);
    assert forall|i: int, j: int| 0 <= i < j < area.cells().len() implies area.cells()[i]
        != area.cells()[j] by {
        lemma_cell_at(area, i);
        lemma_cell_at(area, j);
    }
    assert forall|cell: GridCell| area.contains(cell) <==> area.cells().contains(cell) by {
        if area.contains(cell) {
            lemma_index_of(area, cell);
            assert(area.cells()[area.index_of(cell)] == cell);
        }
        if area.cells().contains(cell) {
            let i = choose|i: int| 0 <= i < area.cells().len() && area.cells()[i] == cell;
            lemma_cell_at(area, i);
        }
    }
}

} // verus!
