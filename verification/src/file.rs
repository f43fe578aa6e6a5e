//! The files of the board, a to h.

use vstd::prelude::*;

verus! {

/// A file of the board.
#[derive(Copy, Clone, PartialEq, Eq, Debug, Structural)]
pub enum File {
    A,
    B,
    C,
    D,
    E,
    F,
    G,
    H,
}

impl File {
    /// The number of the file: 0 for a ... 7 for h.
    pub open spec fn number(self) -> int {
        match self {
            File::A => 0,
            File::B => 1,
            File::C => 2,
            File::D => 3,
            File::E => 4,
            File::F => 5,
            File::G => 6,
            File::H => 7,
        }
    }

    /// The letter of the file, in lower case.
    pub open spec fn letter(self) -> char {
        match self {
            File::A => 'a',
            File::B => 'b',
            File::C => 'c',
            File::D => 'd',
            File::E => 'e',
            File::F => 'f',
            File::G => 'g',
            File::H => 'h',
        }
    }

    /// The file with the given lower-case letter, if there is one.
    pub open spec fn of_letter(value: char) -> Option<File> {
        if value == 'a' {
            Some(File::A)
        } else if value == 'b' {
            Some(File::B)
        } else if value == 'c' {
            Some(File::C)
        } else if value == 'd' {
            Some(File::D)
        } else if value == 'e' {
            Some(File::E)
        } else if value == 'f' {
            Some(File::F)
        } else if value == 'g' {
            Some(File::G)
        } else if value == 'h' {
            Some(File::H)
        } else {
            None
        }
    }

    /// The letter of the file, in lower case.
    pub fn to_char(self) -> (r: char)
        ensures
            r == self.letter(),
            File::of_letter(r) == Some(self),
    {
        match self {
            File::A => 'a',
            File::B => 'b',
            File::C => 'c',
            File::D => 'd',
            File::E => 'e',
            File::F => 'f',
            File::G => 'g',
            File::H => 'h',
        }
    }

    /// The file with the given lower-case letter; none for any other character.
    pub fn from_char(value: char) -> (r: Option<File>)
        ensures
            r == File::of_letter(value),
    {
        match value {
            'a' => Some(File::A),
            'b' => Some(File::B),
            'c' => Some(File::C),
            'd' => Some(File::D),
            'e' => Some(File::E),
            'f' => Some(File::F),
            'g' => Some(File::G),
            'h' => Some(File::H),
            _ => None,
        }
    }

    /// The number of the file: 0 for a ... 7 for h.
    pub fn index(self) -> (r: usize)
        ensures
            r as int == self.number(),
            r < 8,
    {
        match self {
            File::A => 0,
            File::B => 1,
            File::C => 2,
            File::D => 3,
            File::E => 4,
            File::F => 5,
            File::G => 6,
            File::H => 7,
        }
    }
}

} // verus!
