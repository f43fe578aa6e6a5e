//! A chess rules engine: a bitboard position, legal-move generation with
//! check and pin detection, and the game state machine driven by moves.

pub mod bitboard;
pub mod board;
pub mod chess;
pub mod command;
pub mod coordinates;
pub mod dualboard;
pub mod fen;
pub mod file;
pub mod notation;
pub mod pieces;
pub mod position;
pub mod side;

pub use crate::bitboard::BitBoard;
pub use crate::board::Board;
pub use crate::chess::{Chess, State};
pub use crate::command::{parse_command, Command};
pub use crate::coordinates::CoordinateIterator;
pub use crate::dualboard::DualBoard;
pub use crate::fen::FenError;
pub use crate::file::File;
pub use crate::notation::{notation_to_index, square_from_notation};
pub use crate::pieces::{Piece, PieceType};
pub use crate::side::{CastlingAbility, Side};
