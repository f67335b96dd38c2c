//! The six kinds of piece.

use vstd::prelude::*;

verus! {

/// The kind of a piece.
#[derive(Copy, Clone, PartialEq, Eq, Structural, Debug)]
pub enum Name {
    King,
    Queen,
    Rook,
    Bishop,
    Knight,
    Pawn,
}

impl Name {
    /// Every kind of piece, once each.
    pub open spec fn every() -> Seq<Name> {
        seq![Name::King, Name::Queen, Name::Rook, Name::Bishop, Name::Knight, Name::Pawn]
    }

    /// The letter that stands for the kind.
    pub open spec fn letter(self) -> char {
        match self {
            Name::King => 'K',
            Name::Queen => 'Q',
            Name::Rook => 'R',
            Name::Bishop => 'B',
            Name::Knight => 'N',
            Name::Pawn => 'P',
        }
    }

    /// The six kinds, in the order king, queen, rook, bishop, knight, pawn.
    pub fn all() -> (names: Vec<Name>)
        ensures
            names@ == Name::every(),
    {
        let names = vec![
            Name::King,
            Name::Queen,
            Name::Rook,
            Name::Bishop,
            Name::Knight,
            Name::Pawn,
        ];
        assert(names@ =~= Name::every());
        names
    }

    /// `every()` lists each kind.
    pub proof fn lemma_every_is_complete(name: Name)
        ensures
            exists|i: int| 0 <= i < Name::every().len() && Name::every()[i] == name,
    {
        let i: int = match name {
            Name::King => 0,
            Name::Queen => 1,
            Name::Rook => 2,
            Name::Bishop => 3,
            Name::Knight => 4,
            Name::Pawn => 5,
        };
        assert(Name::every()[i] == name);
    }
}

} // verus!
