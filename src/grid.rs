use vstd::prelude::*;
use crate::cell::{Cell, flipped, weight};

verus! {

/// The mathematical picture of a grid: its dimensions and its cells in
/// row-major order (the cell at `(row, col)` sits at `row * width + col`).
pub struct GridModel {
    pub width: nat,
    pub height: nat,
    pub cells: Seq<Cell>,
}

/// What one generation makes of a cell with `n` live neighbors.
pub open spec fn next_cell(c: Cell, n: nat) -> Cell {
    match c {
        Cell::Alive => if n == 2 || n == 3 { Cell::Alive } else { Cell::Dead },
        Cell::Dead => if n == 3 { Cell::Alive } else { Cell::Dead },
    }
}

impl GridModel {
    /// One cell per position, and every position addressable with 32 bits.
    pub open spec fn wf(self) -> bool {
        &&& self.cells.len() == self.width * self.height
        &&& self.width * self.height <= u32::MAX
    }

    pub open spec fn in_range(self, row: int, col: int) -> bool {
        0 <= row < self.height && 0 <= col < self.width
    }

    pub open spec fn index(self, row: int, col: int) -> int {
        row * self.width + col
    }

    pub open spec fn at(self, row: int, col: int) -> Cell {
        self.cells[self.index(row, col)]
    }

    /// What the cell reached from `(row, col)` by the offset `(dr, dc)`,
    /// wrapping round both edges, adds to the count; the zero offset is
    /// the cell itself and adds nothing.
    pub open spec fn neighbor_weight(self, row: int, col: int, dr: int, dc: int) -> nat {
        if dr == 0 && dc == 0 {
            0
        } else {
            weight(self.at((row + dr) % (self.height as int), (col + dc) % (self.width as int)))
        }
    }

    /// Live cells among the eight toroidal neighbors of `(row, col)`: row
    /// offsets `height - 1, 0, 1` against column offsets `width - 1, 0, 1`.
    pub open spec fn live_neighbors(self, row: int, col: int) -> nat {
        let up = self.height - 1;
        let left = self.width - 1;
        self.neighbor_weight(row, col, up, left) + self.neighbor_weight(row, col, up, 0)
            + self.neighbor_weight(row, col, up, 1) + self.neighbor_weight(row, col, 0, left)
            + self.neighbor_weight(row, col, 0, 0) + self.neighbor_weight(row, col, 0, 1)
            + self.neighbor_weight(row, col, 1, left) + self.neighbor_weight(row, col, 1, 0)
            + self.neighbor_weight(row, col, 1, 1)
    }

    /// The cell at position `i` one generation on.
    pub open spec fn next_at(self, i: int) -> Cell {
        next_cell(
            self.cells[i],
            self.live_neighbors(i / (self.width as int), i % (self.width as int)),
        )
    }

    /// The grid one generation on, every cell computed from this one.
    pub open spec fn next_generation(self) -> GridModel {
        GridModel {
            width: self.width,
            height: self.height,
            cells: Seq::new(self.cells.len(), |i: int| self.next_at(i)),
        }
    }

    /// A grid of the given size with every cell dead.
    pub open spec fn dead(width: nat, height: nat) -> GridModel {
        GridModel { width, height, cells: Seq::new(width * height, |i: int| Cell::Dead) }
    }

    /// The row and column of position `i`.
    pub open spec fn coord_of(self, i: int) -> (u32, u32) {
        ((i / (self.width as int)) as u32, (i % (self.width as int)) as u32)
    }

    /// This grid with every listed coordinate made alive.
    pub open spec fn with_alive(self, coords: Seq<(u32, u32)>) -> GridModel {
        GridModel {
            width: self.width,
            height: self.height,
            cells: Seq::new(
                self.cells.len(),
                |i: int|
                    if coords.contains(self.coord_of(i)) {
                        Cell::Alive
                    } else {
                        self.cells[i]
                    },
            ),
        }
    }

    /// This grid with the cell at `(row, col)` flipped.
    pub open spec fn toggled(self, row: int, col: int) -> GridModel {
        GridModel {
            cells: self.cells.update(self.index(row, col), flipped(self.at(row, col))),
            ..self
        }
    }

    /// Every coordinate of the list lies on the grid.
    pub open spec fn all_in_range(self, coords: Seq<(u32, u32)>) -> bool {
        forall|k: int| 0 <= k < coords.len() ==> self.in_range(#[trigger] coords[k].0 as int, coords[k].1 as int)
    }

    /// The positions of the live cells.
    pub open spec fn alive_set(self) -> Set<(u32, u32)> {
        Set::new(|p: (u32, u32)| self.in_range(p.0 as int, p.1 as int) && self.at(p.0 as int, p.1 as int) == Cell::Alive)
    }
}

/// 1 for true, 0 for false.
pub open spec fn b2n(b: bool) -> nat {
    if b { 1 } else { 0 }
}

/// How far `a` lies past `start` going round a circle of `n` positions.
pub open spec fn disp(a: int, start: int, n: nat) -> int {
    (a - start) % (n as int)
}

/// How many of the positions before, at and after displacement `d` lie in a
/// band of `len` positions starting at displacement 0, on a circle of `n`.
pub open spec fn band_count(d: int, len: int, n: int) -> nat {
    b2n((d + n - 1) % n < len) + b2n(d < len) + b2n((d + 1) % n < len)
}

impl GridModel {
    /// The live cells are exactly those in the `lr` rows from `r0` and the
    /// `lc` columns from `c0`, wrapping round the edges.
    pub open spec fn is_rect(self, r0: int, lr: int, c0: int, lc: int) -> bool {
        forall|a: int, b: int|
            self.in_range(a, b) ==> ((#[trigger] self.at(a, b) == Cell::Alive) <==> (disp(a, r0, self.height) < lr
                && disp(b, c0, self.width) < lc))
    }
}

/// Row-major position of an in-range coordinate, and back.
pub proof fn lemma_index(width: nat, row: int, col: int, height: nat)
    requires
        0 <= row < height,
        0 <= col < width,
    ensures
        0 <= row * width + col < width * height,
        (row * width + col) / (width as int) == row,
        (row * width + col) % (width as int) == col,
{
    assert(0 <= row * width + col < width * height) by (nonlinear_arith)
        requires 0 <= row < height, 0 <= col < width;
    vstd::arithmetic::div_mod::lemma_fundamental_div_mod_converse(row * width + col, width as int, row, col);
}

/// A position splits into an in-range row and column.
pub proof fn lemma_coord(width: nat, height: nat, i: int)
    requires
        0 <= i < width * height,
    ensures
        0 <= i / (width as int) < height,
        0 <= i % (width as int) < width,
        (i / (width as int)) * width + i % (width as int) == i,
{
    assert(width > 0) by (nonlinear_arith) requires 0 <= i < width * height;
    vstd::arithmetic::div_mod::lemma_fundamental_div_mod(i, width as int);
    let q = i / (width as int);
    let r = i % (width as int);
    assert(q * width + r == i) by (nonlinear_arith) requires i == width * q + r;
    assert(0 <= q < height) by (nonlinear_arith)
        requires q * width + r == i, 0 <= r < width, 0 <= i < width * height, width > 0;
}

} // verus!
