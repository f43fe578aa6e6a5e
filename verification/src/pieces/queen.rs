//! The queen: along ranks, files and diagonals.

use vstd::prelude::*;
use crate::bitboard::BitBoard;
use crate::board::Board;
use crate::pieces::{restrict_to_legal, bishop, rook, Piece, PieceType};

verus! {

/// The squares a queen attacks: those of a rook and those of a bishop on
/// her square.
pub fn get_attacked_squares(piece: &Piece, board: &Board) -> (r: BitBoard)
    requires
        board.placement_wf(),
    ensures
        r@ == board@.attack_targets(PieceType::Queen, piece.side(), piece.file(), piece.rank()),
{
    get_all_moves(piece, board)
}

/// The squares seen along all eight rays.
pub(crate) fn get_all_moves(piece: &Piece, board: &Board) -> (r: BitBoard)
    requires
        board.placement_wf(),
    ensures
        r@ == board@.attack_targets(PieceType::Queen, piece.side(), piece.file(), piece.rank()),
{
    let r = rook::get_all_moves(piece, board).union(bishop::get_all_moves(piece, board));
    proof {
        assert(r@ =~= board@.attack_targets(
            PieceType::Queen,
            piece.side(),
            piece.file(),
            piece.rank(),
        ));
    }
    r
}

/// The legal destinations of a queen: the squares it attacks that hold no
/// piece of its own side, as far as the king-safety rule allows them.
pub fn get_allowed_moves(piece: &Piece, board: &Board) -> (r: BitBoard)
    requires
        board.wf(),
        piece.kind() == PieceType::Queen,
    ensures
        r@ == board@.legal_targets(PieceType::Queen, piece.side(), piece.file(), piece.rank()),
{
    proof {
        board.lemma_wf();
    }
    restrict_to_legal(piece, board, get_attacked_squares(piece, board))
}

/// Whether the queen may legally go to the square `index`.
pub fn is_allowed_move(piece: &Piece, board: &Board, index: usize) -> (r: bool)
    requires
        board.wf(),
        piece.kind() == PieceType::Queen,
    ensures
        r == board@.legal_targets(
            PieceType::Queen,
            piece.side(),
            piece.file(),
            piece.rank(),
        ).contains(index as int),
{
    get_allowed_moves(piece, board).get(index)
}

} // verus!
