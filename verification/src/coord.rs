//! Squares as pairs of integers, on and off the board.

use vstd::prelude::*;
use crate::direction::Direction;

verus! {

/// A place on the unbounded grid. The board is the part of it where both
/// numbers lie in `0..8`; a walk that leaves the board passes through
/// coordinates outside it.
pub struct Coord {
    pub file: int,
    pub rank: int,
}

impl Coord {
    /// The place on the given file and rank.
    pub open spec fn at(file: int, rank: int) -> Coord {
        Coord { file, rank }
    }

    /// Both axes lie in `0..8`.
    pub open spec fn on_board(self) -> bool {
        0 <= self.file < 8 && 0 <= self.rank < 8
    }

    /// The place `dx` files and `dy` ranks away.
    pub open spec fn shift(self, dx: int, dy: int) -> Coord {
        Coord { file: self.file + dx, rank: self.rank + dy }
    }

    /// The place `n` steps away in direction `d`.
    pub open spec fn toward(self, d: Direction, n: int) -> Coord {
        self.shift(n * d.dx(), n * d.dy())
    }
}

} // verus!
