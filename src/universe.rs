use vstd::prelude::*;
use crate::cell::Cell;
use crate::grid::{GridModel, next_cell, lemma_index, lemma_coord};
use crate::random::draw_bit;
use crate::pattern::{pulsar_coords, pulsar_coordinates};

verus! {

/// Why an operation on the grid was refused; a refused call leaves the grid
/// as it was.
#[derive(Clone, Copy, Debug, PartialEq, Eq, Structural)]
pub enum GridError {
    /// A row or column outside the grid.
    OutOfRange,
    /// Dimensions that do not match the cells given, or whose product does
    /// not fit in 32 bits.
    InvalidDimension,
}

/// A toroidal grid of cells, stored row-major.
pub struct Universe {
    width: u32,
    height: u32,
    cells: Vec<Cell>,
}

/// Side of the grids that `new` and `random_universe` build.
pub const DEFAULT_SIDE: u32 = 100;

/// The starting state that `new` gives position `i`: alive when `i` is even
/// or a multiple of 7.
pub open spec fn default_cell(i: int) -> Cell {
    if i % 2 == 0 || i % 7 == 0 { Cell::Alive } else { Cell::Dead }
}

/// The cell that a random draw stands for: 0 gives Alive, anything else Dead.
pub open spec fn cell_of_draw(d: u32) -> Cell {
    if d == 0 { Cell::Alive } else { Cell::Dead }
}

/// The glyph that renders a cell.
pub open spec fn glyph(c: Cell) -> char {
    match c {
        Cell::Dead => '\u{25fb}',
        Cell::Alive => '\u{25fc}',
    }
}

/// The text of row `row`, first `n` cells: a space and a glyph per cell.
pub open spec fn row_text(m: GridModel, row: int, n: nat) -> Seq<char>
    decreases n,
{
    if n == 0 {
        Seq::empty()
    } else {
        row_text(m, row, (n - 1) as nat) + seq![' ', glyph(m.at(row, n - 1))]
    }
}

/// The text of the first `n` rows, each ended by a newline.
pub open spec fn grid_text(m: GridModel, n: nat) -> Seq<char>
    decreases n,
{
    if n == 0 {
        Seq::empty()
    } else {
        grid_text(m, (n - 1) as nat) + row_text(m, n - 1, m.width) + seq!['\n']
    }
}

impl View for Universe {
    type V = GridModel;

    closed spec fn view(&self) -> GridModel {
        GridModel { width: self.width as nat, height: self.height as nat, cells: self.cells@ }
    }
}

impl Universe {
    /// The grid is well formed: see `GridModel::wf`.
    pub open spec fn inv(&self) -> bool {
        self@.wf()
    }

    fn get_index(&self, row: u32, column: u32) -> (r: usize)
        requires
            self.inv(),
            row < self@.height,
            column < self@.width,
        ensures
            r as int == self@.index(row as int, column as int),
            r < self@.cells.len(),
    {
        proof {
            lemma_index(self.width as nat, row as int, column as int, self.height as nat);
        }
        (row * self.width + column) as usize
    }

    /// What the neighbor at offset `(dr, dc)` adds to the count of `(row, column)`.
    fn neighbor_weight(&self, row: u32, column: u32, dr: u32, dc: u32) -> (r: u8)
        requires
            self.inv(),
            row < self@.height,
            column < self@.width,
            dr <= self@.height,
            dc <= self@.width,
        ensures
            r as nat == self@.neighbor_weight(row as int, column as int, dr as int, dc as int),
            r <= 1,
    {
        if dr == 0 && dc == 0 {
            return 0;
        }
        let neighbor_row = ((row as u64 + dr as u64) % self.height as u64) as u32;
        let neighbor_col = ((column as u64 + dc as u64) % self.width as u64) as u32;
        let idx = self.get_index(neighbor_row, neighbor_col);
        self.cells[idx].weight()
    }

    fn live_neighbor_count(&self, row: u32, column: u32) -> (r: u8)
        requires
            self.inv(),
            row < self@.height,
            column < self@.width,
        ensures
            r as nat == self@.live_neighbors(row as int, column as int),
    {
        let up = self.height - 1;
        let left = self.width - 1;
        let mut count: u8 = 0;
        count = count + self.neighbor_weight(row, column, up, left);
        count = count + self.neighbor_weight(row, column, up, 0);
        count = count + self.neighbor_weight(row, column, up, 1);
        count = count + self.neighbor_weight(row, column, 0, left);
        count = count + self.neighbor_weight(row, column, 0, 0);
        count = count + self.neighbor_weight(row, column, 0, 1);
        count = count + self.neighbor_weight(row, column, 1, left);
        count = count + self.neighbor_weight(row, column, 1, 0);
        count = count + self.neighbor_weight(row, column, 1, 1);
        count
    }

    /// The rules of the game for one cell.
    fn next_state(cell: Cell, live_neighbors: u8) -> (r: Cell)
        ensures
            r == next_cell(cell, live_neighbors as nat),
    {
        match (cell, live_neighbors) {
            (Cell::Alive, x) if x < 2 => Cell::Dead,
            (Cell::Alive, 2) | (Cell::Alive, 3) => Cell::Alive,
            (Cell::Alive, x) if x > 3 => Cell::Dead,
            (Cell::Dead, 3) => Cell::Alive,
            (otherwise, _) => otherwise,
        }
    }

    /// Advances the grid one generation. Every new cell is computed from the
    /// old grid; the old cells are replaced only once all are computed.
    pub fn tick(&mut self)
        requires
            old(self).inv(),
        ensures
            final(self).inv(),
            final(self)@ == old(self)@.next_generation(),
            final(self)@.cells.len() == final(self)@.width * final(self)@.height,
    {
        let ghost w = self.width as int;
        let ghost h = self.height as int;
        let mut next: Vec<Cell> = Vec::new();
        let mut row: u32 = 0;
        while row < self.height
            invariant
                self.inv(),
                self@ == old(self)@,
                w == self@.width,
                h == self@.height,
                row <= h,
                next@.len() == row * w,
                forall|i: int| 0 <= i < next@.len() ==> #[trigger] next@[i] == self@.next_at(i),
            decreases h - row,
        {
            let mut col: u32 = 0;
            while col < self.width
                invariant
                    self.inv(),
                    self@ == old(self)@,
                    w == self@.width,
                    h == self@.height,
                    row < h,
                    col <= w,
                    next@.len() == row * w + col,
                    forall|i: int| 0 <= i < next@.len() ==> #[trigger] next@[i] == self@.next_at(i),
                decreases w - col,
            {
                let idx = self.get_index(row, col);
                let cell = self.cells[idx];
                let live_neighbors = self.live_neighbor_count(row, col);
                proof {
                    lemma_index(self.width as nat, row as int, col as int, self.height as nat);
                }
                next.push(Universe::next_state(cell, live_neighbors));
                col = col + 1;
            }
            assert(row * w + w == (row + 1) * w) by (nonlinear_arith);
            row = row + 1;
        }
        assert(h * w == w * h) by (nonlinear_arith);
        assert(next@ =~= self@.next_generation().cells);
        self.cells = next;
    }

    /// A grid of the given size holding the given cells, row-major. Fails
    /// with `InvalidDimension` when the cells are not `width * height` in
    /// number, or that product does not fit in 32 bits.
    pub fn from_cells(width: u32, height: u32, cells: Vec<Cell>) -> (r: Result<Universe, GridError>)
        ensures
            r is Ok <==> (width * height <= u32::MAX && cells@.len() == width * height),
            r is Ok ==> r->Ok_0.inv() && r->Ok_0@ == (GridModel { width: width as nat, height: height as nat, cells: cells@ }),
            r is Err ==> r == Err::<Universe, GridError>(GridError::InvalidDimension),
    {
        assert(width as int * height as int <= u64::MAX) by (nonlinear_arith)
            requires width <= u32::MAX, height <= u32::MAX;
        let size = width as u64 * height as u64;
        if size > u32::MAX as u64 || cells.len() as u64 != size {
            return Err(GridError::InvalidDimension);
        }
        Ok(Universe { width, height, cells })
    }

    /// The cell that a random draw stands for: 0 gives Alive, anything else Dead.
    pub fn cell_from_draw(draw: u32) -> (r: Cell)
        ensures
            r == cell_of_draw(draw),
    {
        if draw == 0 { Cell::Alive } else { Cell::Dead }
    }

    /// A 100 by 100 grid where position `i` is alive exactly when `i` is
    /// even or a multiple of 7.
    pub fn new() -> (r: Universe)
        ensures
            r.inv(),
            r@.width == DEFAULT_SIDE,
            r@.height == DEFAULT_SIDE,
            r@.cells == Seq::new((DEFAULT_SIDE * DEFAULT_SIDE) as nat, |i: int| default_cell(i)),
    {
        let width = DEFAULT_SIDE;
        let height = DEFAULT_SIDE;
        let mut cells: Vec<Cell> = Vec::new();
        let mut i: u32 = 0;
        while i < width * height
            invariant
                width == DEFAULT_SIDE,
                height == DEFAULT_SIDE,
                i <= width * height,
                cells@ == Seq::new(i as nat, |j: int| default_cell(j)),
            decreases width * height - i,
        {
            let cell = if i % 2 == 0 || i % 7 == 0 { Cell::Alive } else { Cell::Dead };
            cells.push(cell);
            i = i + 1;
            assert(cells@ =~= Seq::new(i as nat, |j: int| default_cell(j)));
        }
        Universe { width, height, cells }
    }

    /// A 100 by 100 grid where each cell is Alive or Dead as a fair random
    /// bit decides.
    pub fn random_universe() -> (r: Universe)
        ensures
            r.inv(),
            r@.width == DEFAULT_SIDE,
            r@.height == DEFAULT_SIDE,
    {
        let width = DEFAULT_SIDE;
        let height = DEFAULT_SIDE;
        let mut cells: Vec<Cell> = Vec::new();
        let mut i: u32 = 0;
        while i < width * height
            invariant
                width == DEFAULT_SIDE,
                height == DEFAULT_SIDE,
                i <= width * height,
                cells@.len() == i,
            decreases width * height - i,
        {
            cells.push(Universe::cell_from_draw(draw_bit()));
            i = i + 1;
        }
        Universe { width, height, cells }
    }

    /// The grid as text: one line per row, each cell written as a space and
    /// a glyph (empty square for Dead, filled square for Alive).
    pub fn render(&self) -> (r: String)
        requires
            self.inv(),
        ensures
            r@ == grid_text(self@, self@.height),
    {
        let mut text = String::new();
        let mut row: u32 = 0;
        while row < self.height
            invariant
                self.inv(),
                row <= self@.height,
                text@ == grid_text(self@, row as nat),
            decreases self@.height - row,
        {
            let mut col: u32 = 0;
            while col < self.width
                invariant
                    self.inv(),
                    row < self@.height,
                    col <= self@.width,
                    text@ == grid_text(self@, row as nat) + row_text(self@, row as int, col as nat),
                decreases self@.width - col,
            {
                let idx = self.get_index(row, col);
                let piece = match self.cells[idx] {
                    Cell::Dead => " \u{25fb}",
                    Cell::Alive => " \u{25fc}",
                };
                proof {
                    reveal_strlit(" \u{25fb}");
                    reveal_strlit(" \u{25fc}");
                }
                text.append(piece);
                col = col + 1;
                assert(text@ =~= grid_text(self@, row as nat) + row_text(self@, row as int, col as nat));
            }
            text.append("\n");
            proof {
                reveal_strlit("\n");
            }
            row = row + 1;
            assert(text@ =~= grid_text(self@, row as nat));
        }
        text
    }

    /// The cells, row-major.
    pub fn get_cells(&self) -> (r: &[Cell])
        ensures
            r@ == self@.cells,
    {
        self.cells.as_slice()
    }

    /// Makes every listed `(row, column)` alive. Fails with `OutOfRange`,
    /// changing nothing, when one of them lies off the grid.
    pub fn set_cells(&mut self, cells: &[(u32, u32)]) -> (r: Result<(), GridError>)
        requires
            old(self).inv(),
        ensures
            final(self).inv(),
            r is Ok <==> old(self)@.all_in_range(cells@),
            r is Ok ==> final(self)@ == old(self)@.with_alive(cells@),
            r is Err ==> r == Err::<(), GridError>(GridError::OutOfRange) && final(self)@ == old(self)@,
    {
        let mut k: usize = 0;
        while k < cells.len()
            invariant
                self.inv(),
                self@ == old(self)@,
                k <= cells@.len(),
                forall|j: int| 0 <= j < k ==> self@.in_range(#[trigger] cells@[j].0 as int, cells@[j].1 as int),
            decreases cells@.len() - k,
        {
            let (row, col) = cells[k];
            if row >= self.height || col >= self.width {
                return Err(GridError::OutOfRange);
            }
            k = k + 1;
        }
        let ghost start = self@;
        let mut k: usize = 0;
        while k < cells.len()
            invariant
                self.inv(),
                start.wf(),
                start.all_in_range(cells@),
                k <= cells@.len(),
                self@.width == start.width,
                self@.height == start.height,
                self@.cells.len() == start.cells.len(),
                forall|i: int| 0 <= i < start.cells.len() ==> #[trigger] self@.cells[i] == (
                    if cells@.take(k as int).contains(start.coord_of(i)) { Cell::Alive } else { start.cells[i] }),
            decreases cells@.len() - k,
        {
            let (row, col) = cells[k];
            assert(start.in_range(cells@[k as int].0 as int, cells@[k as int].1 as int));
            let idx = self.get_index(row, col);
            self.cells.set(idx, Cell::Alive);
            proof {
                lemma_index(start.width, row as int, col as int, start.height);
                assert(cells@.take(k + 1) =~= cells@.take(k as int).push((row, col)));
                assert forall|i: int| 0 <= i < start.cells.len() implies #[trigger] self@.cells[i] == (
                    if cells@.take(k + 1).contains(start.coord_of(i)) { Cell::Alive } else { start.cells[i] }) by {
                    lemma_coord(start.width, start.height, i);
                    let t = cells@.take(k as int);
                    if start.coord_of(i) == (row, col) {
                        assert(cells@.take(k + 1)[k as int] == (row, col));
                    } else {
                        assert(i != idx);
                        if t.push((row, col)).contains(start.coord_of(i)) {
                            let j = choose|j: int| 0 <= j < t.len() + 1 && t.push((row, col))[j] == start.coord_of(i);
                            assert(t[j] == start.coord_of(i));
                        }
                    }
                }
            }
            k = k + 1;
        }
        assert(cells@.take(cells@.len() as int) =~= cells@);
        assert(self@.cells =~= start.with_alive(cells@).cells);
        Ok(())
    }

    /// Sets every cell to Dead.
    pub fn kill_universe(&mut self)
        requires
            old(self).inv(),
        ensures
            final(self).inv(),
            final(self)@ == GridModel::dead(old(self)@.width, old(self)@.height),
    {
        let mut i: usize = 0;
        while i < self.cells.len()
            invariant
                self.inv(),
                self@.width == old(self)@.width,
                self@.height == old(self)@.height,
                i <= self@.cells.len(),
                forall|j: int| 0 <= j < i ==> #[trigger] self@.cells[j] == Cell::Dead,
            decreases self@.cells.len() - i,
        {
            self.cells.set(i, Cell::Dead);
            i = i + 1;
        }
        assert(self@.cells =~= GridModel::dead(self@.width, self@.height).cells);
    }

    /// Flips the cell at `(row, column)`. Fails with `OutOfRange`, changing
    /// nothing, when the coordinate lies off the grid.
    pub fn toggle_cell(&mut self, row: u32, column: u32) -> (r: Result<(), GridError>)
        requires
            old(self).inv(),
        ensures
            final(self).inv(),
            r is Ok <==> old(self)@.in_range(row as int, column as int),
            r is Ok ==> final(self)@ == old(self)@.toggled(row as int, column as int),
            r is Err ==> r == Err::<(), GridError>(GridError::OutOfRange) && final(self)@ == old(self)@,
    {
        if row >= self.height || column >= self.width {
            return Err(GridError::OutOfRange);
        }
        let idx = self.get_index(row, column);
        let mut cell = self.cells[idx];
        cell.toggle();
        self.cells.set(idx, cell);
        Ok(())
    }

    /// Stamps a pulsar anchored at `(row, column)`: every cell of
    /// `pulsar_coords` becomes alive, the others keep their state. Fails
    /// with `OutOfRange`, changing nothing, when the anchor lies off the grid.
    pub fn create_pulsar(&mut self, row: u32, column: u32) -> (r: Result<(), GridError>)
        requires
            old(self).inv(),
        ensures
            final(self).inv(),
            r is Ok <==> old(self)@.in_range(row as int, column as int),
            r is Ok ==> final(self)@ == old(self)@.with_alive(
                pulsar_coords(row as int, column as int, old(self)@.height, old(self)@.width),
            ),
            r is Err ==> r == Err::<(), GridError>(GridError::OutOfRange) && final(self)@ == old(self)@,
    {
        if row >= self.height || column >= self.width {
            return Err(GridError::OutOfRange);
        }
        let pulsar = pulsar_coordinates(row, column, self.height, self.width);
        assert(self@.all_in_range(pulsar@));
        self.set_cells(pulsar.as_slice())
    }

    pub fn width(&self) -> (r: u32)
        ensures
            r as nat == self@.width,
    {
        self.width
    }

    pub fn height(&self) -> (r: u32)
        ensures
            r as nat == self@.height,
    {
        self.height
    }

    /// `count` dead cells.
    fn dead_cells(count: u32) -> (r: Vec<Cell>)
        ensures
            r@ == Seq::new(count as nat, |i: int| Cell::Dead),
    {
        let mut cells: Vec<Cell> = Vec::new();
        let mut i: u32 = 0;
        while i < count
            invariant
                i <= count,
                cells@ == Seq::new(i as nat, |j: int| Cell::Dead),
            decreases count - i,
        {
            cells.push(Cell::Dead);
            i = i + 1;
            assert(cells@ =~= Seq::new(i as nat, |j: int| Cell::Dead));
        }
        cells
    }

    /// Changes the width and resets every cell to Dead: the pattern on the
    /// grid is discarded.
    pub fn set_width(&mut self, width: u32)
        requires
            old(self).inv(),
            width * old(self)@.height <= u32::MAX,
        ensures
            final(self).inv(),
            final(self)@ == GridModel::dead(width as nat, old(self)@.height),
    {
        self.width = width;
        self.cells = Universe::dead_cells(width * self.height);
    }

    /// Changes the height and resets every cell to Dead: the pattern on the
    /// grid is discarded.
    pub fn set_height(&mut self, height: u32)
        requires
            old(self).inv(),
            old(self)@.width * height <= u32::MAX,
        ensures
            final(self).inv(),
            final(self)@ == GridModel::dead(old(self)@.width, height as nat),
    {
        self.height = height;
        self.cells = Universe::dead_cells(self.width * height);
    }
}

} // verus!
