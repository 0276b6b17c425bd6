use vstd::prelude::*;

verus! {

/// The state of one square of the grid.
#[derive(Clone, Copy, Debug, PartialEq, Eq, Structural)]
pub enum Cell {
    Dead,
    Alive,
}

/// The other state.
pub open spec fn flipped(c: Cell) -> Cell {
    match c {
        Cell::Dead => Cell::Alive,
        Cell::Alive => Cell::Dead,
    }
}

/// How much a cell adds to a live-neighbor count: 1 when alive, else 0.
pub open spec fn weight(c: Cell) -> nat {
    match c {
        Cell::Dead => 0,
        Cell::Alive => 1,
    }
}

impl Cell {
    /// Flips Dead to Alive and Alive to Dead.
    pub fn toggle(&mut self)
        ensures
            *final(self) == flipped(*old(self)),
    {
        *self = match *self {
            Cell::Dead => Cell::Alive,
            Cell::Alive => Cell::Dead,
        };
    }

    /// 1 for a live cell, 0 for a dead one.
    pub fn weight(&self) -> (r: u8)
        ensures
            r as nat == weight(*self),
    {
        match *self {
            Cell::Dead => 0,
            Cell::Alive => 1,
        }
    }
}

} // verus!
