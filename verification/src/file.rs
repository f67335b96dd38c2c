//! The horizontal axis of the board.

use std::convert::TryFrom;
use vstd::prelude::*;
use vstd::std_specs::cmp::PartialEqSpecImpl;
use vstd::std_specs::convert::FromSpecImpl;
use vstd::std_specs::convert::TryFromSpecImpl;

verus! {

/// A file (column) of the board, counted from 0 (file A) to 7 (file H).
///
/// The number is public, so a `File` can hold a value that is off the board;
/// [`File::wf`] says that it does not. Every conversion into a `File`
/// yields a well-formed one or fails.
#[derive(Copy, Clone, PartialEq, Eq, Structural, Debug)]
pub struct File(pub usize);

/// The file that a letter names: `'A'` to `'H'` stand for 0 to 7, and no
/// other character names a file.
pub open spec fn file_of_char(c: char) -> Option<usize> {
    if 'A' <= c && c <= 'H' {
        Some((c as u32 - 'A' as u32) as usize)
    } else {
        None
    }
}

/// The letter of a file: `'A'` for 0 up to `'H'` for 7, and a blank for a
/// number that is off the board.
pub open spec fn char_of_file(n: usize) -> char {
    if n < 8 {
        ('A' as u32 + n) as char
    } else {
        ' '
    }
}

impl File {
    /// The file lies on the board.
    pub open spec fn wf(self) -> bool {
        self.0 < 8
    }

    /// A letter names at most one file, and that file's letter is the one
    /// that named it.
    pub proof fn lemma_letter_round_trip(c: char)
        ensures
            file_of_char(c) matches Some(n) ==> n < 8 && char_of_file(n) == c,
    {
    }

    /// The letter of a file on the board names that file.
    pub proof fn lemma_number_round_trip(self)
        requires
            self.wf(),
        ensures
            file_of_char(char_of_file(self.0)) == Some(self.0),
    {
    }
}

impl TryFrom<usize> for File {
    type Error = ();

    fn try_from(value: usize) -> (r: Result<Self, Self::Error>) {
        if value < 8 {
            return Ok(File(value));
        }
        Err(())
    }
}

impl TryFromSpecImpl<usize> for File {
    open spec fn obeys_try_from_spec() -> bool {
        true
    }

    /// A number is a file exactly when it is below 8.
    open spec fn try_from_spec(value: usize) -> Result<Self, ()> {
        if value < 8 {
            Ok(File(value))
        } else {
            Err(())
        }
    }
}

impl TryFrom<isize> for File {
    type Error = ();

    fn try_from(value: isize) -> (r: Result<Self, Self::Error>) {
        if 0 <= value && value < 8 {
            return Ok(File(value as usize));
        }
        Err(())
    }
}

impl TryFromSpecImpl<isize> for File {
    open spec fn obeys_try_from_spec() -> bool {
        true
    }

    /// A signed number is a file exactly when it lies in `0..8`.
    open spec fn try_from_spec(value: isize) -> Result<Self, ()> {
        if 0 <= value < 8 {
            Ok(File(value as usize))
        } else {
            Err(())
        }
    }
}

impl TryFrom<char> for File {
    type Error = ();

    fn try_from(value: char) -> (r: Result<Self, Self::Error>) {
        match value {
            'A' => Ok(File(0)),
            'B' => Ok(File(1)),
            'C' => Ok(File(2)),
            'D' => Ok(File(3)),
            'E' => Ok(File(4)),
            'F' => Ok(File(5)),
            'G' => Ok(File(6)),
            'H' => Ok(File(7)),
            _ => Err(()),
        }
    }
}

impl TryFromSpecImpl<char> for File {
    open spec fn obeys_try_from_spec() -> bool {
        true
    }

    /// A character is a file exactly when it is one of the capital
    /// letters `'A'` to `'H'`.
    open spec fn try_from_spec(value: char) -> Result<Self, ()> {
        match file_of_char(value) {
            Some(n) => Ok(File(n)),
            None => Err(()),
        }
    }
}

impl From<File> for usize {
    fn from(file: File) -> (n: Self) {
        file.0
    }
}

impl FromSpecImpl<File> for usize {
    open spec fn obeys_from_spec() -> bool {
        true
    }

    open spec fn from_spec(file: File) -> usize {
        file.0
    }
}

impl From<File> for isize {
    fn from(file: File) -> (n: Self) {
        #[verifier::truncate]
        (file.0 as isize)
    }
}

impl FromSpecImpl<File> for isize {
    open spec fn obeys_from_spec() -> bool {
        true
    }

    /// The file's number; a number too large for `isize` wraps round.
    open spec fn from_spec(file: File) -> isize {
        file.0 as isize
    }
}

impl From<File> for char {
    fn from(file: File) -> (c: Self) {
        match file.0 {
            0 => 'A',
            1 => 'B',
            2 => 'C',
            3 => 'D',
            4 => 'E',
            5 => 'F',
            6 => 'G',
            7 => 'H',
            _ => ' ',
        }
    }
}

impl FromSpecImpl<File> for char {
    open spec fn obeys_from_spec() -> bool {
        true
    }

    open spec fn from_spec(file: File) -> char {
        char_of_file(file.0)
    }
}

impl PartialEq<usize> for File {
    fn eq(&self, other: &usize) -> (r: bool) {
        let File(num) = self;
        *num == *other
    }
}

impl PartialEqSpecImpl<usize> for File {
    open spec fn obeys_eq_spec() -> bool {
        true
    }

    /// A file equals a number when that number is its index.
    open spec fn eq_spec(&self, other: &usize) -> bool {
        self.0 == *other
    }
}

} // verus!
