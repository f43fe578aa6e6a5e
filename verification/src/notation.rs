//! Square names such as `e2`: a file letter, then a rank digit.

use vstd::prelude::*;
use vstd::string::StrSliceExecFns;
use crate::fen::rank_of;

verus! {

/// The number of the file with the given letter, in either case.
pub open spec fn file_number(c: char) -> Option<int> {
    if c == 'a' || c == 'A' {
        Some(0)
    } else if c == 'b' || c == 'B' {
        Some(1)
    } else if c == 'c' || c == 'C' {
        Some(2)
    } else if c == 'd' || c == 'D' {
        Some(3)
    } else if c == 'e' || c == 'E' {
        Some(4)
    } else if c == 'f' || c == 'F' {
        Some(5)
    } else if c == 'g' || c == 'G' {
        Some(6)
    } else if c == 'h' || c == 'H' {
        Some(7)
    } else {
        None
    }
}

/// The index of the square that a text names by its first two characters:
/// a file letter `a` to `h`, in either case, and a rank digit `1` to `8`.
pub open spec fn square_named(s: Seq<char>) -> Option<int> {
    if s.len() >= 2 {
        match (file_number(s[0]), rank_of(s[1])) {
            (Some(file), Some(rank)) => Some(rank * 8 + file),
            _ => None,
        }
    } else {
        None
    }
}

/// Reads a file letter.
fn parse_file(c: char) -> (r: Option<usize>)
    ensures
        match r {
            Some(x) => file_number(c) == Some(x as int) && x < 8,
            None => file_number(c) is None,
        },
{
    match c {
        'a' | 'A' => Some(0),
        'b' | 'B' => Some(1),
        'c' | 'C' => Some(2),
        'd' | 'D' => Some(3),
        'e' | 'E' => Some(4),
        'f' | 'F' => Some(5),
        'g' | 'G' => Some(6),
        'h' | 'H' => Some(7),
        _ => None,
    }
}

/// Reads a rank digit.
fn parse_rank(c: char) -> (r: Option<usize>)
    ensures
        match r {
            Some(y) => rank_of(c) == Some(y as int) && y < 8,
            None => rank_of(c) is None,
        },
{
    match c {
        '1' => Some(0),
        '2' => Some(1),
        '3' => Some(2),
        '4' => Some(3),
        '5' => Some(4),
        '6' => Some(5),
        '7' => Some(6),
        '8' => Some(7),
        _ => None,
    }
}

/// The index of the square that the characters name, if they name one.
pub fn square_of_characters(name: &Vec<char>) -> (r: Option<usize>)
    ensures
        match r {
            Some(index) => square_named(name@) == Some(index as int) && index < 64,
            None => square_named(name@) is None,
        },
{
    if name.len() < 2 {
        return None;
    }
    match (parse_file(name[0]), parse_rank(name[1])) {
        (Some(file), Some(rank)) => Some(rank * 8 + file),
        _ => None,
    }
}

/// The index of the square that `move_notation` names, if it names one.
pub fn square_from_notation(move_notation: &str) -> (r: Option<usize>)
    ensures
        match r {
            Some(index) => square_named(move_notation@) == Some(index as int) && index < 64,
            None => square_named(move_notation@) is None,
        },
{
    if move_notation.unicode_len() < 2 {
        return None;
    }
    match (parse_file(move_notation.get_char(0)), parse_rank(move_notation.get_char(1))) {
        (Some(file), Some(rank)) => Some(rank * 8 + file),
        _ => None,
    }
}

/// The index of the square that `move_notation` names.
pub fn notation_to_index(move_notation: &str) -> (r: usize)
    requires
        square_named(move_notation@) is Some,
    ensures
        square_named(move_notation@) == Some(r as int),
        r < 64,
{
    match square_from_notation(move_notation) {
        Some(index) => index,
        None => 0,
    }
}

} // verus!
