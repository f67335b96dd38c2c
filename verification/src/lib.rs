//! Move generation and attack detection for chess on an 8×8 board.
//!
//! Every piece moves by templates: short sequences of steps that are played
//! from the square of the piece, once or, for a sliding piece, again and
//! again. [`walk`] says what such a walk reaches on a given placement of
//! pieces; [`moves`] searches a [`board::Board`] for the legal destinations
//! of a piece and for the attackers of a square, and is proved to find
//! exactly those; [`laws`] states what this comes to for each kind of piece.
//! [`game::Game`] plays moves in turn on a board.
//!
//! The engine does not know of check, castling or promotion.

pub mod board;
pub mod color;
pub mod coord;
pub mod direction;
pub mod file;
pub mod game;
pub mod laws;
pub mod moves;
pub mod name;
pub mod piece;
pub mod rank;
pub mod rays;
pub mod square;
pub mod walk;
