//! A game in progress: the board, whose turn it is, and the piece that
//! moved last.

use vstd::prelude::*;
use vstd::string::*;
use crate::board::{Board, relocated};
use crate::moves::coords;
use crate::color::Color;
use crate::coord::Coord;
use crate::name::Name;
use crate::piece::Piece;
use crate::square::{Position, Square};
use crate::walk::{Placement, is_legal_move};

verus! {

/// The refusal of a move from an empty square.
pub open spec fn no_piece_text() -> Seq<char> {
    "There is no piece to move"@
}

/// The refusal of a move of a piece of the side that is not to move.
pub open spec fn opponents_piece_text() -> Seq<char> {
    "You can't move the opponent's piece"@
}

/// The refusal of a move onto a piece of the mover's own side.
pub open spec fn own_piece_text() -> Seq<char> {
    "You can't take your own piece"@
}

/// The refusal of a capture in passing by a piece that is no pawn.
pub open spec fn only_pawns_text() -> Seq<char> {
    "Only pawns are allowed to perform en passant"@
}

/// The refusal of a capture in passing that is none.
pub open spec fn not_en_passant_text() -> Seq<char> {
    "Not a valid en passant"@
}

/// The refusal of a move that the rules of the piece do not allow.
pub open spec fn cannot_move_text(name: Name) -> Seq<char> {
    match name {
        Name::King => "The king cannot move to that position"@,
        Name::Queen => "The queen cannot move to that position"@,
        Name::Rook => "The rook cannot move to that position"@,
        Name::Bishop => "The bishop cannot move to that position"@,
        Name::Knight => "The knight cannot move to that position"@,
        Name::Pawn => "The pawn cannot move to that position"@,
    }
}

/// Why the side to move may not move from `from` to `to`, or `None` if it
/// may. The reasons are tried in this order: no piece stands on `from`; the
/// piece is the opponent's; `to` is no legal destination of the piece, in
/// which case the refusal says so of a destination held by the mover's own
/// piece, and names the kind of piece otherwise.
pub open spec fn move_refusal(p: Placement, turn: Color, from: Coord, to: Coord) -> Option<
    Seq<char>,
> {
    if !p.dom().contains(from) {
        Some(no_piece_text())
    } else if p[from].color != turn {
        Some(opponents_piece_text())
    } else if is_legal_move(p, from, to) {
        None
    } else if p.dom().contains(to) && p[to].color == turn {
        Some(own_piece_text())
    } else {
        Some(cannot_move_text(p[from].name))
    }
}

/// The square of the pawn that a capture in passing from `from` to `to`
/// takes: beside the capturing pawn, on the file it moves to.
pub open spec fn passed_pawn(from: Coord, to: Coord) -> Coord {
    Coord::at(to.file, from.rank)
}

/// The side to move may capture in passing from `from` to `to`, a pawn of
/// its own standing on `from`: `to` is diagonally ahead of the pawn, and the
/// square beside the pawn on the file of `to` holds an enemy pawn that is
/// the piece that moved last.
pub open spec fn is_en_passant(
    p: Placement,
    turn: Color,
    moved_last: Option<Piece>,
    from: Coord,
    to: Coord,
) -> bool {
    let passed = passed_pawn(from, to);
    &&& to.rank == from.rank + turn.sign()
    &&& to.file == from.file + 1 || to.file == from.file - 1
    &&& p.dom().contains(passed)
    &&& moved_last == Some(p[passed])
    &&& p[passed].color != turn
    &&& p[passed].name == Name::Pawn
}

/// Why the side to move may not capture in passing from `from` to `to`, or
/// `None` if it may. The reasons are tried in this order: no piece stands on
/// `from`; the piece is no pawn; the pawn is the opponent's; the move is no
/// capture in passing.
pub open spec fn en_passant_refusal(
    p: Placement,
    turn: Color,
    moved_last: Option<Piece>,
    from: Coord,
    to: Coord,
) -> Option<Seq<char>> {
    if !p.dom().contains(from) {
        Some(no_piece_text())
    } else if p[from].name != Name::Pawn {
        Some(only_pawns_text())
    } else if p[from].color != turn {
        Some(opponents_piece_text())
    } else if is_en_passant(p, turn, moved_last, from, to) {
        None
    } else {
        Some(not_en_passant_text())
    }
}

/// A game in progress.
pub struct Game {
    board: Board,
    turn: Color,
    moved_last: Option<Piece>,
}

impl View for Game {
    type V = Placement;

    /// Which piece stands where.
    closed spec fn view(&self) -> Placement {
        self.board@
    }
}

impl Game {
    /// The board of the game is well-formed.
    pub closed spec fn wf(&self) -> bool {
        self.board.wf()
    }

    /// The side to move.
    pub closed spec fn to_move(&self) -> Color {
        self.turn
    }

    /// The piece that moved last, as it stood after its move; `None` before
    /// the first move.
    pub closed spec fn last_moved(&self) -> Option<Piece> {
        self.moved_last
    }

    /// A game at its start: the pieces set up, White to move.
    pub fn new() -> (game: Game)
        ensures
            game.wf(),
            game@ == crate::board::initial_placement(),
            game.to_move() == Color::White,
            game.last_moved() is None,
    {
        let board = Board::new();

        Game { board: board, turn: Color::White, moved_last: None }
    }

    /// Whether the board of the game is well-formed. It is in every game
    /// made by [`Game::new`] and played by the functions of this type.
    pub fn is_well_formed(&self) -> (b: bool)
        ensures
            b == self.wf(),
    {
        self.board.is_well_formed()
    }

    /// The board of the game.
    pub fn board(&self) -> (board: &Board)
        requires
            self.wf(),
        ensures
            board.wf(),
            board@ == self@,
    {
        &self.board
    }

    /// The side to move.
    pub fn turn(&self) -> (turn: Color)
        ensures
            turn == self.to_move(),
    {
        self.turn
    }

    /// The picture of the board as text, for printing.
    pub fn render_board(&self) -> (text: String)
        requires
            self.wf(),
        ensures
            text@ == crate::board::picture(self@),
    {
        self.board.render()
    }

    /// Moves the piece on `from_square` to `to_square` for the side to
    /// move, if that is a legal destination of the piece, taking what stands
    /// there. The turn then passes to the other side. A move that is refused
    /// changes nothing, and the error says why.
    pub fn move_piece(&mut self, from_square: Square, to_square: Square) -> (r: Result<(), String>)
        requires
            old(self).wf(),
            from_square.wf(),
            to_square.wf(),
        ensures
            final(self).wf(),
            match move_refusal(
                old(self)@,
                old(self).to_move(),
                from_square.coord(),
                to_square.coord(),
            ) {
                Some(text) => {
                    &&& r matches Err(e) && e@ == text
                    &&& *final(self) == *old(self)
                },
                None => {
                    let moved = relocated(
                        old(self)@[from_square.coord()],
                        Position { rank: from_square.rank, file: from_square.file },
                        Position { rank: to_square.rank, file: to_square.file },
                    );
                    &&& r is Ok
                    &&& final(self)@ == old(self)@.remove(from_square.coord()).insert(
                        to_square.coord(),
                        moved,
                    )
                    &&& final(self).to_move() == old(self).to_move().opponent()
                    &&& final(self).last_moved() == Some(moved)
                },
            },
    {
        if self.board.get(from_square).is_empty() {
            return Err("There is no piece to move".to_string());
        }
        let piece = self.board.get(from_square).piece.unwrap();

        if piece.color != self.turn {
            return Err("You can't move the opponent's piece".to_string());
        }
        // the piece must be allowed to go there

        let legal_moves = self.board.legal_moves(from_square);
        if !contains_square(&legal_moves, to_square) {
            let target = self.board.get(to_square);
            if !target.is_empty() && target.piece.unwrap().color == self.turn {
                return Err("You can't take your own piece".to_string());
            }
            return Err(
                match piece.name {
                    Name::King => "The king cannot move to that position".to_string(),
                    Name::Queen => "The queen cannot move to that position".to_string(),
                    Name::Rook => "The rook cannot move to that position".to_string(),
                    Name::Bishop => "The bishop cannot move to that position".to_string(),
                    Name::Knight => "The knight cannot move to that position".to_string(),
                    Name::Pawn => "The pawn cannot move to that position".to_string(),
                },
            );
        }
        if !self.board.get(to_square).is_empty() {
            // take the opponent's piece
            self.board.capture_piece(to_square);
        }
        self.board.move_piece(from_square, to_square);

        self.moved_last = self.board.get(to_square).piece;

        self.turn = self.turn.opposite();

        Ok(())
    }

    /// Captures in passing: moves the pawn on `from_square` of the side to
    /// move diagonally ahead to `to_square` and takes the enemy pawn beside
    /// it, on the file of `to_square`, if that pawn is the piece that moved
    /// last. The turn then passes to the other side. A capture that is
    /// refused changes nothing, and the error says why.
    pub fn en_passant(&mut self, from_square: Square, to_square: Square) -> (r: Result<(), String>)
        requires
            old(self).wf(),
            from_square.wf(),
            to_square.wf(),
        ensures
            final(self).wf(),
            match en_passant_refusal(
                old(self)@,
                old(self).to_move(),
                old(self).last_moved(),
                from_square.coord(),
                to_square.coord(),
            ) {
                Some(text) => {
                    &&& r matches Err(e) && e@ == text
                    &&& *final(self) == *old(self)
                },
                None => {
                    let moved = relocated(
                        old(self)@[from_square.coord()],
                        Position { rank: from_square.rank, file: from_square.file },
                        Position { rank: to_square.rank, file: to_square.file },
                    );
                    &&& r is Ok
                    &&& final(self)@ == old(self)@.remove(from_square.coord()).insert(
                        to_square.coord(),
                        moved,
                    ).remove(passed_pawn(from_square.coord(), to_square.coord()))
                    &&& final(self).to_move() == old(self).to_move().opponent()
                    &&& final(self).last_moved() == Some(moved)
                },
            },
    {
        let from_rank = usize::from(from_square.rank);
        let from_file = usize::from(from_square.file);

        let to_rank = usize::from(to_square.rank);
        let to_file = usize::from(to_square.file);

        if self.board.get(from_square).is_empty() {
            return Err("There is no piece to move".to_string());
        }
        let pawn = self.board.get(from_square).piece.unwrap();

        if pawn.name != Name::Pawn {
            return Err("Only pawns are allowed to perform en passant".to_string());
        }
        if pawn.color != self.turn {
            return Err("You can't move the opponent's piece".to_string());
        }
        if pawn.color == Color::White {
            if to_rank != from_rank + 1 {
                return Err("Not a valid en passant".to_string());
            }
        } else {
            if to_rank + 1 != from_rank {
                return Err("Not a valid en passant".to_string());
            }
        }
        if to_file != from_file + 1 && to_file + 1 != from_file {
            return Err("Not a valid en passant".to_string());
        }
        let captured = *self.board.get(Square::new(from_square.rank, to_square.file));

        if captured.is_empty() {
            return Err("Not a valid en passant".to_string());
        }
        let captured_piece = captured.piece.unwrap();
        match self.moved_last {
            Some(last) => {
                if captured_piece != last {
                    return Err("Not a valid en passant".to_string());
                }
            },
            None => {
                return Err("Not a valid en passant".to_string());
            },
        }
        if captured_piece.color == self.turn || captured_piece.name != Name::Pawn {
            return Err("Not a valid en passant".to_string());
        }
        // the square that the pawn moves to needs no check: the captured
        // pawn has just passed over it

        self.board.move_piece(from_square, to_square);

        self.board.capture_piece(captured);

        self.moved_last = self.board.get(to_square).piece;

        self.turn = self.turn.opposite();

        Ok(())
    }
}

/// Whether one of `squares` has the rank and file of `square`.
fn contains_square(squares: &Vec<Square>, square: Square) -> (found: bool)
    ensures
        found == coords(squares@).contains(square.coord()),
{
    let mut i: usize = 0;
    while i < squares.len()
        invariant
            i <= squares.len(),
            forall|n: int| 0 <= n < i ==> (#[trigger] squares@[n]).coord() != square.coord(),
        decreases squares.len() - i,
    {
        if squares[i].rank == square.rank && squares[i].file == square.file {
            assert(squares@[i as int].coord() == square.coord());
            return true;
        }
        i += 1;
    }
    false
}

} // verus!
