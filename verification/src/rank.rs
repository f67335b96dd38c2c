//! The vertical axis of the board.

use std::convert::TryFrom;
use vstd::prelude::*;
use vstd::std_specs::cmp::PartialEqSpecImpl;
use vstd::std_specs::convert::FromSpecImpl;
use vstd::std_specs::convert::TryFromSpecImpl;

verus! {

/// A rank (row) of the board, counted from 0 (rank 1) to 7 (rank 8).
///
/// The number is public, so a `Rank` can hold a value that is off the board;
/// [`Rank::wf`] says that it does not. Every conversion into a `Rank`
/// yields a well-formed one or fails.
#[derive(Copy, Clone, PartialEq, Eq, Structural, Debug)]
pub struct Rank(pub usize);

/// The rank that a digit names: `'1'` to `'8'` stand for 0 to 7, and no
/// other character names a rank.
pub open spec fn rank_of_char(c: char) -> Option<usize> {
    if '1' <= c && c <= '8' {
        Some((c as u32 - '1' as u32) as usize)
    } else {
        None
    }
}

/// The digit of a rank: `'1'` for 0 up to `'8'` for 7, and a blank for a
/// number that is off the board.
pub open spec fn char_of_rank(n: usize) -> char {
    if n < 8 {
        ('1' as u32 + n) as char
    } else {
        ' '
    }
}

impl Rank {
    /// The rank lies on the board.
    pub open spec fn wf(self) -> bool {
        self.0 < 8
    }

    /// A digit names at most one rank, and that rank's digit is the one
    /// that named it.
    pub proof fn lemma_digit_round_trip(c: char)
        ensures
            rank_of_char(c) matches Some(n) ==> n < 8 && char_of_rank(n) == c,
    {
    }

    /// The digit of a rank on the board names that rank.
    pub proof fn lemma_number_round_trip(self)
        requires
            self.wf(),
        ensures
            rank_of_char(char_of_rank(self.0)) == Some(self.0),
    {
    }
}

impl TryFrom<usize> for Rank {
    type Error = ();

    fn try_from(value: usize) -> (r: Result<Self, Self::Error>) {
        if value < 8 {
            return Ok(Rank(value));
        }
        Err(())
    }
}

impl TryFromSpecImpl<usize> for Rank {
    open spec fn obeys_try_from_spec() -> bool {
        true
    }

    /// A number is a rank exactly when it is below 8.
    open spec fn try_from_spec(value: usize) -> Result<Self, ()> {
        if value < 8 {
            Ok(Rank(value))
        } else {
            Err(())
        }
    }
}

impl TryFrom<isize> for Rank {
    type Error = ();

    fn try_from(value: isize) -> (r: Result<Self, Self::Error>) {
        if 0 <= value && value < 8 {
            return Ok(Rank(value as usize));
        }
        Err(())
    }
}

impl TryFromSpecImpl<isize> for Rank {
    open spec fn obeys_try_from_spec() -> bool {
        true
    }

    /// A signed number is a rank exactly when it lies in `0..8`.
    open spec fn try_from_spec(value: isize) -> Result<Self, ()> {
        if 0 <= value < 8 {
            Ok(Rank(value as usize))
        } else {
            Err(())
        }
    }
}

impl TryFrom<char> for Rank {
    type Error = ();

    fn try_from(value: char) -> (r: Result<Self, Self::Error>) {
        match value {
            '1' => Ok(Rank(0)),
            '2' => Ok(Rank(1)),
            '3' => Ok(Rank(2)),
            '4' => Ok(Rank(3)),
            '5' => Ok(Rank(4)),
            '6' => Ok(Rank(5)),
            '7' => Ok(Rank(6)),
            '8' => Ok(Rank(7)),
            _ => Err(()),
        }
    }
}

impl TryFromSpecImpl<char> for Rank {
    open spec fn obeys_try_from_spec() -> bool {
        true
    }

    /// A character is a rank exactly when it is one of the digits
    /// `'1'` to `'8'`.
    open spec fn try_from_spec(value: char) -> Result<Self, ()> {
        match rank_of_char(value) {
            Some(n) => Ok(Rank(n)),
            None => Err(()),
        }
    }
}

impl From<Rank> for usize {
    fn from(rank: Rank) -> (n: Self) {
        rank.0
    }
}

impl FromSpecImpl<Rank> for usize {
    open spec fn obeys_from_spec() -> bool {
        true
    }

    open spec fn from_spec(rank: Rank) -> usize {
        rank.0
    }
}

impl From<Rank> for isize {
    fn from(rank: Rank) -> (n: Self) {
        #[verifier::truncate]
        (rank.0 as isize)
    }
}

impl FromSpecImpl<Rank> for isize {
    open spec fn obeys_from_spec() -> bool {
        true
    }

    /// The rank's number; a number too large for `isize` wraps round.
    open spec fn from_spec(rank: Rank) -> isize {
        rank.0 as isize
    }
}

impl From<Rank> for char {
    fn from(rank: Rank) -> (c: Self) {
        match rank.0 {
            0 => '1',
            1 => '2',
            2 => '3',
            3 => '4',
            4 => '5',
            5 => '6',
            6 => '7',
            7 => '8',
            _ => ' ',
        }
    }
}

impl FromSpecImpl<Rank> for char {
    open spec fn obeys_from_spec() -> bool {
        true
    }

    open spec fn from_spec(rank: Rank) -> char {
        char_of_rank(rank.0)
    }
}

impl PartialEq<usize> for Rank {
    fn eq(&self, other: &usize) -> (r: bool) {
        let Rank(num) = self;
        *num == *other
    }
}

impl PartialEqSpecImpl<usize> for Rank {
    open spec fn obeys_eq_spec() -> bool {
        true
    }

    /// A rank equals a number when that number is its index.
    open spec fn eq_spec(&self, other: &usize) -> bool {
        self.0 == *other
    }
}

} // verus!
