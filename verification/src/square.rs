//! Squares of the board and what stands on them.

use vstd::prelude::*;
use vstd::string::*;
use crate::coord::Coord;
use crate::file::{File, char_of_file, file_of_char};
use crate::piece::Piece;
use crate::rank::{Rank, char_of_rank, rank_of_char};

verus! {

/// A rank and a file, without an occupant: where a piece stands or stood.
#[derive(Copy, Clone, PartialEq, Eq, Structural, Debug)]
pub struct Position {
    pub rank: Rank,
    pub file: File,
}

impl Position {
    /// The position as a pair of integers.
    pub open spec fn coord(self) -> Coord {
        Coord { file: self.file.0 as int, rank: self.rank.0 as int }
    }
}

/// A square: its rank and file, and the piece on it, if any.
///
/// A square made by [`Square::new`] or [`Square::from_str`] is empty and
/// serves to name a place; the squares that a board hands out carry their
/// occupant.
#[derive(Copy, Clone, PartialEq, Debug)]
pub struct Square {
    pub rank: Rank,
    pub file: File,
    pub piece: Option<Piece>,
}

impl Square {
    /// The square's place as a pair of integers.
    pub open spec fn coord(self) -> Coord {
        Coord { file: self.file.0 as int, rank: self.rank.0 as int }
    }

    /// The square lies on the board.
    pub open spec fn wf(self) -> bool {
        self.rank.wf() && self.file.wf()
    }

    /// The square that a text names: a file letter followed by a rank
    /// digit, and nothing else.
    pub open spec fn parse(text: Seq<char>) -> Option<Square> {
        if text.len() == 2 && file_of_char(text[0]) is Some && rank_of_char(text[1]) is Some {
            Some(
                Square {
                    rank: Rank(rank_of_char(text[1]).unwrap()),
                    file: File(file_of_char(text[0]).unwrap()),
                    piece: None,
                },
            )
        } else {
            None
        }
    }

    /// An empty square at the given rank and file.
    pub fn new(rank: Rank, file: File) -> (square: Square)
        ensures
            square == (Square { rank, file, piece: None }),
    {
        Square { rank: rank, file: file, piece: None }
    }

    /// Reads a square from algebraic notation such as `"A2"`.
    ///
    /// Succeeds exactly on a capital file letter `A`–`H` followed by a rank
    /// digit `1`–`8`; the square returned is empty and on the board.
    pub fn from_str(square: &str) -> (r: Result<Square, ()>)
        ensures
            r.ok() == Square::parse(square@),
            r matches Ok(s) ==> s.wf(),
    {
        if square.unicode_len() != 2 {
            return Err(());
        }
        let rank = match Rank::try_from(square.get_char(1)) {
            Ok(rank) => rank,
            Err(_) => {
                return Err(());
            },
        };
        let file = match File::try_from(square.get_char(0)) {
            Ok(file) => file,
            Err(_) => {
                return Err(());
            },
        };
        Ok(Square { rank: rank, file: file, piece: None })
    }

    /// Whether no piece stands on the square.
    pub fn is_empty(&self) -> (b: bool)
        ensures
            b == (self.piece is None),
    {
        self.piece.is_none()
    }

    /// The square in algebraic notation, such as `"A2"`: the letter of its
    /// file and the digit of its rank, with a blank for either that is off
    /// the board.
    pub fn notation(&self) -> (text: String)
        ensures
            text@ == seq![char_of_file(self.file.0), char_of_rank(self.rank.0)],
    {
        proof {
            reveal_strlit("A");
            reveal_strlit("B");
            reveal_strlit("C");
            reveal_strlit("D");
            reveal_strlit("E");
            reveal_strlit("F");
            reveal_strlit("G");
            reveal_strlit("H");
            reveal_strlit("1");
            reveal_strlit("2");
            reveal_strlit("3");
            reveal_strlit("4");
            reveal_strlit("5");
            reveal_strlit("6");
            reveal_strlit("7");
            reveal_strlit("8");
            reveal_strlit(" ");
        }
        let file = match self.file.0 {
            0 => "A",
            1 => "B",
            2 => "C",
            3 => "D",
            4 => "E",
            5 => "F",
            6 => "G",
            7 => "H",
            _ => " ",
        };
        let rank = match self.rank.0 {
            0 => "1",
            1 => "2",
            2 => "3",
            3 => "4",
            4 => "5",
            5 => "6",
            6 => "7",
            7 => "8",
            _ => " ",
        };
        let text = String::from_str(file).concat(rank);
        assert(text@ =~= seq![char_of_file(self.file.0), char_of_rank(self.rank.0)]);
        text
    }

    /// The square's rank and file.
    pub fn position(&self) -> (p: Position)
        ensures
            p == (Position { rank: self.rank, file: self.file }),
            p.coord() == self.coord(),
    {
        Position { rank: self.rank, file: self.file }
    }
}

} // verus!
