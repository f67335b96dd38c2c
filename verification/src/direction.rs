//! The eight unit steps a piece can take on the grid.

use vstd::prelude::*;

verus! {

/// One step to a neighbouring square, named as White sees the board:
/// `Up` is towards higher ranks, `Right` towards higher files.
#[derive(Copy, Clone, PartialEq, Eq, Structural, Debug)]
pub enum Direction {
    Up,
    Down,
    Left,
    Right,
    UpLeft,
    UpRight,
    DownLeft,
    DownRight,
}

impl Direction {
    /// Change of file made by one step.
    pub open spec fn dx(self) -> int {
        match self {
            Direction::Up | Direction::Down => 0,
            Direction::Left | Direction::UpLeft | Direction::DownLeft => -1,
            Direction::Right | Direction::UpRight | Direction::DownRight => 1,
        }
    }

    /// Change of rank made by one step.
    pub open spec fn dy(self) -> int {
        match self {
            Direction::Left | Direction::Right => 0,
            Direction::Down | Direction::DownLeft | Direction::DownRight => -1,
            Direction::Up | Direction::UpLeft | Direction::UpRight => 1,
        }
    }

    /// The step that undoes this one.
    pub open spec fn reversed(self) -> Direction {
        match self {
            Direction::Up => Direction::Down,
            Direction::Down => Direction::Up,
            Direction::Left => Direction::Right,
            Direction::Right => Direction::Left,
            Direction::UpLeft => Direction::DownRight,
            Direction::UpRight => Direction::DownLeft,
            Direction::DownLeft => Direction::UpRight,
            Direction::DownRight => Direction::UpLeft,
        }
    }

    pub fn delta_x(&self) -> (d: isize)
        ensures
            d == self.dx(),
    {
        match self {
            Direction::Up => 0,
            Direction::Down => 0,
            Direction::Left => -1,
            Direction::Right => 1,
            Direction::UpLeft => -1,
            Direction::UpRight => 1,
            Direction::DownLeft => -1,
            Direction::DownRight => 1,
        }
    }

    pub fn delta_y(&self) -> (d: isize)
        ensures
            d == self.dy(),
    {
        match self {
            Direction::Up => 1,
            Direction::Down => -1,
            Direction::Left => 0,
            Direction::Right => 0,
            Direction::UpLeft => 1,
            Direction::UpRight => 1,
            Direction::DownLeft => -1,
            Direction::DownRight => -1,
        }
    }

    pub fn backwards(&self) -> (d: Direction)
        ensures
            d == self.reversed(),
    {
        match self {
            Direction::Up => Direction::Down,
            Direction::Down => Direction::Up,
            Direction::Left => Direction::Right,
            Direction::Right => Direction::Left,
            Direction::UpLeft => Direction::DownRight,
            Direction::UpRight => Direction::DownLeft,
            Direction::DownLeft => Direction::UpRight,
            Direction::DownRight => Direction::UpLeft,
        }
    }

    /// Reversing a step negates both of its deltas, and reversing twice
    /// gives the step back.
    pub proof fn lemma_reversed(self)
        ensures
            self.reversed().dx() == -self.dx(),
            self.reversed().dy() == -self.dy(),
            self.reversed().reversed() == self,
    {
    }
}

} // verus!
