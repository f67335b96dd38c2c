//! The board: an 8×8 grid of squares, the pieces on it, and its picture.

use vstd::prelude::*;
use vstd::string::*;
use crate::color::Color;
use crate::coord::Coord;
use crate::file::File;
use crate::name::Name;
use crate::piece::Piece;
use crate::rank::{Rank, char_of_rank};
use crate::square::{Position, Square};
use crate::walk::{Placement, on_board};

verus! {

/// The kind of piece that starts on a file of the back rank.
pub open spec fn back_rank(file: int) -> Name {
    if file == 0 || file == 7 {
        Name::Rook
    } else if file == 1 || file == 6 {
        Name::Knight
    } else if file == 2 || file == 5 {
        Name::Bishop
    } else if file == 3 {
        Name::Queen
    } else {
        Name::King
    }
}

/// The piece that starts the game on `c`, for `c` on one of the four
/// outer ranks: White on ranks 0 and 1, Black on ranks 6 and 7, pawns on
/// the inner two of these. No piece has moved.
pub open spec fn initial_piece(c: Coord) -> Piece {
    let here = Position { rank: Rank(c.rank as usize), file: File(c.file as usize) };
    Piece {
        color: if c.rank <= 1 {
            Color::White
        } else {
            Color::Black
        },
        name: if c.rank == 1 || c.rank == 6 {
            Name::Pawn
        } else {
            back_rank(c.file)
        },
        moved: false,
        prev_square: here,
        curr_square: here,
    }
}

/// The placement from which a game starts.
pub open spec fn initial_placement() -> Placement {
    Map::new(
        |c: Coord| c.on_board() && (c.rank <= 1 || c.rank >= 6),
        |c: Coord| initial_piece(c),
    )
}

/// The placement with the occupant of `c` set: a piece put there, or the
/// square cleared.
pub open spec fn put(p: Placement, c: Coord, occupant: Option<Piece>) -> Placement {
    match occupant {
        Some(piece) => p.insert(c, piece),
        None => p.remove(c),
    }
}

/// The piece after a move from `from` to `to`: it has moved, stood on
/// `from` and stands on `to`.
pub open spec fn relocated(piece: Piece, from: Position, to: Position) -> Piece {
    Piece { moved: true, prev_square: from, curr_square: to, ..piece }
}

/// The character that shows a square: the letter of the piece on it, or a
/// dot.
pub open spec fn square_char(p: Placement, c: Coord) -> char {
    if p.dom().contains(c) {
        p[c].name.letter()
    } else {
        '.'
    }
}

/// One line of the picture of a board: the digit of the rank, its eight
/// squares from file A to file H, and a line feed.
pub open spec fn rank_line(p: Placement, rank: int) -> Seq<char> {
    Seq::new(
        10,
        |i: int|
            if i == 0 {
                char_of_rank(rank as usize)
            } else if i == 9 {
                '\n'
            } else {
                square_char(p, Coord::at(i - 1, rank))
            },
    )
}

/// The picture of a board from the top down to `rank`: the line of file
/// letters, then the lines of the ranks from the eighth down.
pub open spec fn picture_down_to(p: Placement, rank: int) -> Seq<char>
    decreases 8 - rank,
{
    if rank >= 8 {
        " ABCDEFGH\n"@
    } else {
        picture_down_to(p, rank + 1) + rank_line(p, rank)
    }
}

/// The picture of a board: ten lines of text, White's side at the bottom.
pub open spec fn picture(p: Placement) -> Seq<char> {
    picture_down_to(p, 0)
}


/// An 8×8 grid of squares. The board owns every square and the piece on it.
pub struct Board {
    height: usize,
    width: usize,
    board: Vec<Vec<Square>>,
}

impl View for Board {
    type V = Placement;

    /// Which piece stands where.
    closed spec fn view(&self) -> Placement {
        grid_view(self.board@)
    }
}

impl Board {
    /// The grid has eight rows of eight squares, and each square knows its
    /// own rank and file.
    pub closed spec fn wf(&self) -> bool {
        &&& self.height == 8
        &&& self.width == 8
        &&& grid_wf(self.board@)
    }

    /// The square of the board at `c`, with its occupant.
    pub open spec fn cell(&self, c: Coord) -> Square {
        Square {
            rank: Rank(c.rank as usize),
            file: File(c.file as usize),
            piece: if self@.dom().contains(c) {
                Some(self@[c])
            } else {
                None
            },
        }
    }

    /// `square` is a true copy of a square of this board: it lies on the
    /// board and carries the occupant that the board has there.
    pub open spec fn holds(&self, square: Square) -> bool {
        square.wf() && square == self.cell(square.coord())
    }

    /// Every occupied square of a board lies on it.
    pub proof fn lemma_view_on_board(&self)
        ensures
            on_board(self@),
    {
    }

    /// A board set up for the start of a game.
    pub fn new() -> (b: Board)
        ensures
            b.wf(),
            b@ == initial_placement(),
    {
        let width: usize = 8;
        let height: usize = 8;

        let mut board: Vec<Vec<Square>> = Vec::with_capacity(height);
        let mut i: usize = 0;
        while i < height
            invariant
                width == 8,
                height == 8,
                i <= height,
                board@.len() == i,
                forall|r: int, f: int|
                    0 <= r < i && 0 <= f < 8 ==> (#[trigger] board@[r]@[f]) == (Square {
                        rank: Rank(r as usize),
                        file: File(f as usize),
                        piece: None,
                    }),
                forall|r: int| 0 <= r < i ==> (#[trigger] board@[r])@.len() == 8,
            decreases height - i,
        {
            let mut row: Vec<Square> = Vec::with_capacity(width);
            let mut j: usize = 0;
            while j < width
                invariant
                    width == 8,
                    j <= width,
                    row@.len() == j,
                    forall|f: int|
                        0 <= f < j ==> (#[trigger] row@[f]) == (Square {
                            rank: Rank(i),
                            file: File(f as usize),
                            piece: None,
                        }),
                decreases width - j,
            {
                row.push(Square::new(Rank(i), File(j)));
                j += 1;
            }
            board.push(row);
            i += 1;
        }

        Board::initialize(&mut board, height, width);

        let b = Board { width: width, height: height, board: board };
        assert(b@ =~= initial_placement());
        b
    }

    /// Puts the pieces of both sides on an empty grid.
    fn initialize(board: &mut Vec<Vec<Square>>, height: usize, width: usize)
        requires
            height == 8,
            width == 8,
            grid_wf(old(board)@),
            forall|c: Coord|
                c.on_board() ==> (#[trigger] old(board)@[c.rank]@[c.file]).piece is None,
        ensures
            grid_wf(final(board)@),
            grid_view(final(board)@) == initial_placement(),
    {
        let names = vec![
            Name::Rook,
            Name::Knight,
            Name::Bishop,
            Name::Queen,
            Name::King,
            Name::Bishop,
            Name::Knight,
            Name::Rook,
        ];

        let mut i: usize = 0;
        while i < width
            invariant
                width == 8,
                i <= width,
                names@.len() == 8,
                forall|f: int| 0 <= f < 8 ==> #[trigger] names@[f] == back_rank(f),
                grid_wf(board@),
                forall|c: Coord|
                    c.on_board() ==> (#[trigger] board@[c.rank]@[c.file]).piece == (if c.file < i
                        && (c.rank <= 1 || c.rank >= 6) {
                        Some(initial_piece(c))
                    } else {
                        None
                    }),
            decreases width - i,
        {
            let white_pawn = Piece::new(Color::White, Name::Pawn, board[1][i]);
            let black_pawn = Piece::new(Color::Black, Name::Pawn, board[6][i]);
            let white_piece = Piece::new(Color::White, names[i], board[0][i]);
            let black_piece = Piece::new(Color::Black, names[i], board[7][i]);
            board[1][i].piece = Some(white_pawn);
            board[6][i].piece = Some(black_pawn);
            board[0][i].piece = Some(white_piece);
            board[7][i].piece = Some(black_piece);
            i += 1;
        }
        assert(grid_view(board@) =~= initial_placement());
    }

    /// Whether the board is well-formed. A board made by [`Board::new`] is,
    /// and stays so unless a square handed out by [`Board::get_mut`] is given
    /// another rank or file.
    pub fn is_well_formed(&self) -> (b: bool)
        ensures
            b == self.wf(),
    {
        if self.height != 8 || self.width != 8 || self.board.len() != 8 {
            return false;
        }
        let mut r: usize = 0;
        while r < 8
            invariant
                r <= 8,
                self.board@.len() == 8,
                forall|i: int| 0 <= i < r ==> (#[trigger] self.board@[i])@.len() == 8,
                forall|i: int, f: int|
                    0 <= i < r && 0 <= f < 8 ==> (#[trigger] self.board@[i]@[f]).coord()
                        == Coord::at(f, i),
            decreases 8 - r,
        {
            if self.board[r].len() != 8 {
                return false;
            }
            let mut f: usize = 0;
            while f < 8
                invariant
                    r < 8,
                    f <= 8,
                    self.board@.len() == 8,
                    self.board@[r as int]@.len() == 8,
                    forall|j: int|
                        0 <= j < f ==> (#[trigger] self.board@[r as int]@[j]).coord() == Coord::at(
                            j,
                            r as int,
                        ),
                decreases 8 - f,
            {
                if self.board[r][f].rank.0 != r || self.board[r][f].file.0 != f {
                    assert(self.board@[r as int]@[f as int].coord() != Coord::at(
                        f as int,
                        r as int,
                    ));
                    return false;
                }
                f += 1;
            }
            r += 1;
        }
        true
    }

    /// The square of the board at the rank and file of `square`.
    pub fn get(&self, square: Square) -> (cell: &Square)
        requires
            self.wf(),
            square.wf(),
        ensures
            *cell == self.cell(square.coord()),
    {
        &self.board[usize::from(square.rank)][usize::from(square.file)]
    }

    /// The square of the board at the rank and file of `square`, to be
    /// changed in place. Whatever is written to its occupant is what the
    /// board holds there afterwards; the board stays well-formed exactly
    /// when the square's rank and file are left as they were.
    pub fn get_mut(&mut self, square: Square) -> (cell: &mut Square)
        requires
            old(self).wf(),
            square.wf(),
        ensures
            *cell == old(self).cell(square.coord()),
            final(self)@ == put(old(self)@, square.coord(), final(cell).piece),
            final(self).wf() <==> final(cell).coord() == square.coord(),
    {
        &mut self.board[usize::from(square.rank)][usize::from(square.file)]
    }

    /// The picture of the board as text, for printing: a line of file
    /// letters, then one line for each rank from the eighth down to the
    /// first, with its digit, and for each square the letter of the piece on
    /// it or a dot.
    pub fn render(&self) -> (text: String)
        requires
            self.wf(),
        ensures
            text@ == picture(self@),
    {
        let ghost p = self@;
        let mut text = String::from_str(" ABCDEFGH\n");
        let mut i: usize = self.height;
        while i > 0
            invariant
                self.wf(),
                p == self@,
                i <= 8,
                text@ == picture_down_to(p, i as int),
            decreases i,
        {
            i -= 1;
            let ghost above = text@;
            proof {
                reveal_strlit("1");
                reveal_strlit("2");
                reveal_strlit("3");
                reveal_strlit("4");
                reveal_strlit("5");
                reveal_strlit("6");
                reveal_strlit("7");
                reveal_strlit("8");
                reveal_strlit("\n");
            }
            let digit = match i {
                0 => "1",
                1 => "2",
                2 => "3",
                3 => "4",
                4 => "5",
                5 => "6",
                6 => "7",
                _ => "8",
            };
            text.append(digit);
            let mut j: usize = 0;
            while j < self.width
                invariant
                    self.wf(),
                    p == self@,
                    i < 8,
                    j <= 8,
                    text@ == above + rank_line(p, i as int).take(1 + j),
                decreases 8 - j,
            {
                let ghost so_far = text@;
                let square = self.get(Square::new(Rank(i), File(j)));
                proof {
                    reveal_strlit(".");
                }
                let shown = if !square.is_empty() {
                    square.piece.unwrap().symbol()
                } else {
                    "."
                };
                assert(shown@ =~= seq![square_char(p, Coord::at(j as int, i as int))]);
                text.append(shown);
                assert(text@ =~= so_far.push(square_char(p, Coord::at(j as int, i as int))));
                assert(rank_line(p, i as int).take(2 + j) == rank_line(p, i as int).take(
                    1 + j,
                ).push(square_char(p, Coord::at(j as int, i as int))));
                j += 1;
            }
            text.append("\n");
            assert(text@ == above + rank_line(p, i as int));
        }
        text
    }

    /// Moves the occupant of `from_square` to `to_square`, whatever stands
    /// there and whatever the rules of the game say of such a move. The
    /// square left is empty afterwards; the piece has moved, stood on
    /// `from_square` and stands on `to_square`. With no piece to move, the
    /// destination is emptied.
    pub fn move_piece(&mut self, from_square: Square, to_square: Square)
        requires
            old(self).wf(),
            from_square.wf(),
            to_square.wf(),
        ensures
            final(self).wf(),
            final(self)@ == (if old(self)@.dom().contains(from_square.coord()) {
                old(self)@.remove(from_square.coord()).insert(
                    to_square.coord(),
                    relocated(
                        old(self)@[from_square.coord()],
                        Position { rank: from_square.rank, file: from_square.file },
                        Position { rank: to_square.rank, file: to_square.file },
                    ),
                )
            } else {
                old(self)@.remove(to_square.coord())
            }),
    {
        let from = self.get_mut(from_square);
        let piece = from.piece.take();
        let to = self.get_mut(to_square);
        to.piece = match piece {
            Some(piece) => Some(
                Piece {
                    color: piece.color,
                    name: piece.name,
                    moved: true,
                    prev_square: from_square.position(),
                    curr_square: to_square.position(),
                },
            ),
            None => None,
        };
    }

    /// Takes the piece on `square`, if any, off the board.
    pub fn capture_piece(&mut self, square: Square)
        requires
            old(self).wf(),
            square.wf(),
        ensures
            final(self).wf(),
            final(self)@ == old(self)@.remove(square.coord()),
    {
        let square = self.get_mut(square);
        square.piece = None;
    }
}

/// A grid of eight rows of eight squares, each with its own rank and file.
spec fn grid_wf(grid: Seq<Vec<Square>>) -> bool {
    &&& grid.len() == 8
    &&& forall|r: int| 0 <= r < 8 ==> (#[trigger] grid[r])@.len() == 8
    &&& forall|r: int, f: int|
        0 <= r < 8 && 0 <= f < 8 ==> (#[trigger] grid[r]@[f]).coord() == Coord::at(f, r)
}

/// The occupants of a grid, by coordinate.
spec fn grid_view(grid: Seq<Vec<Square>>) -> Placement {
    Map::new(
        |c: Coord| c.on_board() && grid[c.rank]@[c.file].piece is Some,
        |c: Coord| grid[c.rank]@[c.file].piece.unwrap(),
    )
}

} // verus!
