//! The two sides of the game.

use vstd::prelude::*;
use crate::direction::Direction;

verus! {

/// The side a piece belongs to.
#[derive(Copy, Clone, PartialEq, Eq, Structural, Debug)]
pub enum Color {
    White,
    Black,
}

impl Color {
    /// The factor applied to every step of a move template: templates are
    /// written as White moves, and Black's steps are mirrored.
    pub open spec fn sign(self) -> int {
        match self {
            Color::White => 1,
            Color::Black => -1,
        }
    }

    /// A displacement as this side plays it: White's as written, Black's
    /// negated.
    pub open spec fn mirror(self, v: int) -> int {
        match self {
            Color::White => v,
            Color::Black => -v,
        }
    }

    /// The direction in which this side takes a step that a template
    /// writes as `d`: White as written, Black turned round.
    pub open spec fn faces(self, d: Direction) -> Direction {
        match self {
            Color::White => d,
            Color::Black => d.reversed(),
        }
    }

    /// The other side.
    pub open spec fn opponent(self) -> Color {
        match self {
            Color::White => Color::Black,
            Color::Black => Color::White,
        }
    }

    /// The factor by which this side's steps are multiplied: `1` for White,
    /// `-1` for Black.
    pub fn direction(&self) -> (d: isize)
        ensures
            d == self.sign(),
    {
        match self {
            Color::White => 1,
            Color::Black => -1,
        }
    }

    /// The side that moves after this one.
    pub fn opposite(&self) -> (c: Color)
        ensures
            c == self.opponent(),
    {
        match self {
            Color::White => Color::Black,
            Color::Black => Color::White,
        }
    }
}

} // verus!
