//! The commands of a text front end: what a line of input asks for.

use vstd::prelude::*;
use vstd::string::StrSliceExecFns;
use crate::fen::{characters, field_views, fields, split_fields};
use crate::notation::{square_named, square_of_characters};
use crate::side::Side;

verus! {

/// What a line of input asks for.
#[derive(Copy, Clone, PartialEq, Eq, Debug, Structural)]
pub enum Command {
    /// `fen` and a position: start again from the position that the rest
    /// of the line describes.
    Fen,
    /// `move` or `m` and two squares: move the piece on the first to the second.
    Move(usize, usize),
    /// `attacks` or `a` and a square: show the piece there and where it may go.
    Attacks(usize),
    /// `pinned` and a side: show the pinned pieces of that side.
    Pinned(Side),
    /// `aa` and a side: show the squares on which that side is attacked.
    Attacked(Side),
    /// `white`: show the squares of White's pieces.
    White,
    /// `black`: show the squares of Black's pieces.
    Black,
    /// `state`: show the state of the game.
    State,
    /// `turn`: show the side to move.
    Turn,
    /// Anything else, and a command that lacks what it needs.
    Nothing,
}

/// The side that a word names: `white` or `w`, `black` or `b`.
pub open spec fn side_named(word: Seq<char>) -> Option<Side> {
    if word == "white"@ || word == "w"@ {
        Some(Side::White)
    } else if word == "black"@ || word == "b"@ {
        Some(Side::Black)
    } else {
        None
    }
}

/// What the words of a line ask for.
pub open spec fn command_of(words: Seq<Seq<char>>) -> Command {
    if words.len() == 0 {
        Command::Nothing
    } else if words[0] == "fen"@ {
        if words.len() > 1 {
            Command::Fen
        } else {
            Command::Nothing
        }
    } else if words[0] == "move"@ || words[0] == "m"@ {
        if words.len() > 2 {
            match (square_named(words[1]), square_named(words[2])) {
                (Some(from), Some(to)) => Command::Move(from as usize, to as usize),
                _ => Command::Nothing,
            }
        } else {
            Command::Nothing
        }
    } else if words[0] == "attacks"@ || words[0] == "a"@ {
        if words.len() > 1 {
            match square_named(words[1]) {
                Some(index) => Command::Attacks(index as usize),
                None => Command::Nothing,
            }
        } else {
            Command::Nothing
        }
    } else if words[0] == "pinned"@ {
        if words.len() > 1 {
            match side_named(words[1]) {
                Some(side) => Command::Pinned(side),
                None => Command::Nothing,
            }
        } else {
            Command::Nothing
        }
    } else if words[0] == "aa"@ {
        if words.len() > 1 {
            match side_named(words[1]) {
                Some(side) => Command::Attacked(side),
                None => Command::Nothing,
            }
        } else {
            Command::Nothing
        }
    } else if words[0] == "white"@ {
        Command::White
    } else if words[0] == "black"@ {
        Command::Black
    } else if words[0] == "state"@ {
        Command::State
    } else if words[0] == "turn"@ {
        Command::Turn
    } else {
        Command::Nothing
    }
}

/// Whether the word is the given text.
fn word_is(word: &Vec<char>, text: &str) -> (r: bool)
    ensures
        r == (word@ == text@),
{
    let n = text.unicode_len();
    if n != word.len() {
        return false;
    }
    let mut i: usize = 0;
    while i < n
        invariant
            i <= n,
            n == word.len(),
            n == text@.len(),
            forall|j: int| 0 <= j < i ==> word@[j] == text@[j],
        decreases n - i,
    {
        if text.get_char(i) != word[i] {
            return false;
        }
        i += 1;
    }
    proof {
        assert(word@ =~= text@);
    }
    true
}

/// Reads the name of a side.
fn parse_side_name(word: &Vec<char>) -> (r: Option<Side>)
    ensures
        r == side_named(word@),
{
    if word_is(word, "white") || word_is(word, "w") {
        Some(Side::White)
    } else if word_is(word, "black") || word_is(word, "b") {
        Some(Side::Black)
    } else {
        None
    }
}

/// What the line asks for: its first word names the command, the words
/// after it say to what it applies.
pub fn parse_command(line: &str) -> (r: Command)
    ensures
        r == command_of(fields(line@)),
{
    let chars = characters(line);
    let words = split_fields(&chars);
    proof {
        assert(field_views(words@).len() == words@.len());
        if words@.len() > 0 {
            assert(field_views(words@)[0] == words@[0]@);
        }
        if words@.len() > 1 {
            assert(field_views(words@)[1] == words@[1]@);
        }
        if words@.len() > 2 {
            assert(field_views(words@)[2] == words@[2]@);
        }
    }
    if words.len() == 0 {
        return Command::Nothing;
    }
    let first = &words[0];
    if word_is(first, "fen") {
        if words.len() > 1 {
            Command::Fen
        } else {
            Command::Nothing
        }
    } else if word_is(first, "move") || word_is(first, "m") {
        if words.len() > 2 {
            match (square_of_characters(&words[1]), square_of_characters(&words[2])) {
                (Some(from), Some(to)) => Command::Move(from, to),
                _ => Command::Nothing,
            }
        } else {
            Command::Nothing
        }
    } else if word_is(first, "attacks") || word_is(first, "a") {
        if words.len() > 1 {
            match square_of_characters(&words[1]) {
                Some(index) => Command::Attacks(index),
                None => Command::Nothing,
            }
        } else {
            Command::Nothing
        }
    } else if word_is(first, "pinned") {
        if words.len() > 1 {
            match parse_side_name(&words[1]) {
                Some(side) => Command::Pinned(side),
                None => Command::Nothing,
            }
        } else {
            Command::Nothing
        }
    } else if word_is(first, "aa") {
        if words.len() > 1 {
            match parse_side_name(&words[1]) {
                Some(side) => Command::Attacked(side),
                None => Command::Nothing,
            }
        } else {
            Command::Nothing
        }
    } else if word_is(first, "white") {
        Command::White
    } else if word_is(first, "black") {
        Command::Black
    } else if word_is(first, "state") {
        Command::State
    } else if word_is(first, "turn") {
        Command::Turn
    } else {
        Command::Nothing
    }
}

} // verus!
