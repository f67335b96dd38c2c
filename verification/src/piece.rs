//! Pieces and the templates of their moves.

use vstd::prelude::*;
use vstd::string::*;
use crate::color::Color;
use crate::direction::Direction;
use crate::file::File;
use crate::name::Name;
use crate::rank::Rank;
use crate::square::{Position, Square};

verus! {

/// A piece: its side and kind, whether it has moved, and where it stood
/// before its last move and stands now.
///
/// Two pieces are equal when all five fields are.
#[derive(Copy, Clone, PartialEq, Eq, Structural, Debug)]
pub struct Piece {
    pub color: Color,
    pub name: Name,
    pub moved: bool,
    pub prev_square: Position,
    pub curr_square: Position,
}

/// The templates held in a vector of vectors, as sequences.
pub open spec fn templates(v: Seq<Vec<Direction>>) -> Seq<Seq<Direction>> {
    v.map_values(|t: Vec<Direction>| t@)
}

impl Name {
    /// The kind slides: its templates are played again and again along the
    /// same line until something stops them.
    pub open spec fn slides(self) -> bool {
        self == Name::Queen || self == Name::Rook || self == Name::Bishop
    }

    /// The kind jumps: pieces on the squares that a template passes over
    /// do not stop it.
    pub open spec fn jumps(self) -> bool {
        self == Name::Knight
    }

    /// The kind captures by templates of its own: its ordinary templates
    /// end on empty squares only, its capture templates on enemy pieces
    /// only.
    pub open spec fn captures_apart(self) -> bool {
        self == Name::Pawn
    }

    /// The kind slides in direction `d`: a queen in all eight, a rook along
    /// ranks and files, a bishop along diagonals.
    pub open spec fn slides_along(self, d: Direction) -> bool {
        match self {
            Name::Queen => true,
            Name::Rook => d.dx() == 0 || d.dy() == 0,
            Name::Bishop => d.dx() != 0 && d.dy() != 0,
            _ => false,
        }
    }

    /// The templates by which a piece of this kind moves, as White plays
    /// them. Only a pawn's depend on whether it has moved.
    pub open spec fn move_templates(self, moved: bool) -> Seq<Seq<Direction>> {
        match self {
            Name::King | Name::Queen => seq![
                seq![Direction::Up],
                seq![Direction::Down],
                seq![Direction::Left],
                seq![Direction::Right],
                seq![Direction::UpLeft],
                seq![Direction::UpRight],
                seq![Direction::DownLeft],
                seq![Direction::DownRight],
            ],
            Name::Rook => seq![
                seq![Direction::Up],
                seq![Direction::Down],
                seq![Direction::Left],
                seq![Direction::Right],
            ],
            Name::Bishop => seq![
                seq![Direction::UpLeft],
                seq![Direction::UpRight],
                seq![Direction::DownLeft],
                seq![Direction::DownRight],
            ],
            Name::Knight => seq![
                seq![Direction::UpLeft, Direction::Up],
                seq![Direction::UpLeft, Direction::Left],
                seq![Direction::UpRight, Direction::Up],
                seq![Direction::UpRight, Direction::Right],
                seq![Direction::DownLeft, Direction::Down],
                seq![Direction::DownLeft, Direction::Left],
                seq![Direction::DownRight, Direction::Down],
                seq![Direction::DownRight, Direction::Right],
            ],
            Name::Pawn => if moved {
                seq![seq![Direction::Up]]
            } else {
                seq![seq![Direction::Up], seq![Direction::Up, Direction::Up]]
            },
        }
    }

    /// The templates by which a piece of this kind captures: a pawn's two
    /// forward diagonals, and for every other kind its ordinary templates.
    pub open spec fn capture_templates(self, moved: bool) -> Seq<Seq<Direction>> {
        match self {
            Name::Pawn => seq![seq![Direction::UpLeft], seq![Direction::UpRight]],
            _ => self.move_templates(moved),
        }
    }
}

impl Piece {
    /// The templates of the piece's ordinary moves.
    pub open spec fn move_templates(self) -> Seq<Seq<Direction>> {
        self.name.move_templates(self.moved)
    }

    /// The templates of the piece's captures.
    pub open spec fn capture_templates(self) -> Seq<Seq<Direction>> {
        self.name.capture_templates(self.moved)
    }

    /// A piece that has not moved, standing on `square`.
    pub fn new(color: Color, name: Name, square: Square) -> (piece: Piece)
        ensures
            piece == (Piece {
                color,
                name,
                moved: false,
                prev_square: Position { rank: square.rank, file: square.file },
                curr_square: Position { rank: square.rank, file: square.file },
            }),
    {
        Piece {
            color: color,
            name: name,
            moved: false,
            prev_square: square.position(),
            curr_square: square.position(),
        }
    }

    /// A white piece of the given kind that has not moved, on A1: a piece
    /// made only to be asked for the rules of its kind.
    pub fn simple(name: Name) -> (piece: Piece)
        ensures
            piece == (Piece {
                color: Color::White,
                name,
                moved: false,
                prev_square: Position { rank: Rank(0), file: File(0) },
                curr_square: Position { rank: Rank(0), file: File(0) },
            }),
    {
        let square = Position { rank: Rank(0), file: File(0) };
        Piece {
            color: Color::White,
            name: name,
            moved: false,
            prev_square: square,
            curr_square: square,
        }
    }

    /// The templates of the piece's ordinary moves.
    pub fn moves(&self) -> (r: Vec<Vec<Direction>>)
        ensures
            templates(r@) == self.move_templates(),
    {
        let r = match self.name {
            Name::King | Name::Queen => vec![
                vec![Direction::Up],
                vec![Direction::Down],
                vec![Direction::Left],
                vec![Direction::Right],
                vec![Direction::UpLeft],
                vec![Direction::UpRight],
                vec![Direction::DownLeft],
                vec![Direction::DownRight],
            ],
            Name::Rook => vec![
                vec![Direction::Up],
                vec![Direction::Down],
                vec![Direction::Left],
                vec![Direction::Right],
            ],
            Name::Bishop => vec![
                vec![Direction::UpLeft],
                vec![Direction::UpRight],
                vec![Direction::DownLeft],
                vec![Direction::DownRight],
            ],
            Name::Knight => vec![
                vec![Direction::UpLeft, Direction::Up],
                vec![Direction::UpLeft, Direction::Left],
                vec![Direction::UpRight, Direction::Up],
                vec![Direction::UpRight, Direction::Right],
                vec![Direction::DownLeft, Direction::Down],
                vec![Direction::DownLeft, Direction::Left],
                vec![Direction::DownRight, Direction::Down],
                vec![Direction::DownRight, Direction::Right],
            ],
            Name::Pawn => {
                if self.moved {
                    vec![vec![Direction::Up]]
                } else {
                    vec![vec![Direction::Up], vec![Direction::Up, Direction::Up]]
                }
            },
        };
        assert(templates(r@) =~~= self.move_templates());
        r
    }

    /// The templates of the piece's captures.
    pub fn capture_moves(&self) -> (r: Vec<Vec<Direction>>)
        ensures
            templates(r@) == self.capture_templates(),
    {
        match self.name {
            Name::Pawn => {
                let r = vec![vec![Direction::UpLeft], vec![Direction::UpRight]];
                assert(templates(r@) =~~= self.capture_templates());
                r
            },
            _ => self.moves(),
        }
    }

    /// The piece as text: the letter of its kind.
    pub fn symbol(&self) -> (text: &'static str)
        ensures
            text@ == seq![self.name.letter()],
    {
        proof {
            reveal_strlit("K");
            reveal_strlit("Q");
            reveal_strlit("R");
            reveal_strlit("B");
            reveal_strlit("N");
            reveal_strlit("P");
        }
        let text = match self.name {
            Name::King => "K",
            Name::Queen => "Q",
            Name::Rook => "R",
            Name::Bishop => "B",
            Name::Knight => "N",
            Name::Pawn => "P",
        };
        assert(text@ =~= seq![self.name.letter()]);
        text
    }

    /// Whether the piece captures by templates of its own (a pawn).
    pub fn special_capture_move(&self) -> (b: bool)
        ensures
            b == self.name.captures_apart(),
    {
        match self.name {
            Name::Pawn => true,
            _ => false,
        }
    }

    /// Whether the piece slides (queen, rook, bishop).
    pub fn repetetive_moves(&self) -> (b: bool)
        ensures
            b == self.name.slides(),
    {
        match self.name {
            Name::King | Name::Knight | Name::Pawn => false,
            Name::Queen | Name::Rook | Name::Bishop => true,
        }
    }

    /// Whether the piece jumps (a knight).
    pub fn can_jump(&self) -> (b: bool)
        ensures
            b == self.name.jumps(),
    {
        match self.name {
            Name::Knight => true,
            _ => false,
        }
    }
}

} // verus!
