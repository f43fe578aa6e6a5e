//! The knight: eight fixed leaps.

use vstd::prelude::*;
use crate::bitboard::BitBoard;
use crate::board::Board;
use crate::pieces::{restrict_to_legal, set_offset, Piece, PieceType};

verus! {

/// The squares a knight attacks: each of its eight leaps that lands on the
/// board, whatever stands there or in between.
pub fn get_attacked_squares(piece: &Piece, board: &Board) -> (r: BitBoard)
    requires
        board.placement_wf(),
    ensures
        r@ == board@.attack_targets(PieceType::Knight, piece.side(), piece.file(), piece.rank()),
{
    let (x, y) = piece.get_pos_as_usize();
    let mut list = BitBoard::empty();
    set_offset(&mut list, x, y, -1, 2);
    set_offset(&mut list, x, y, 1, 2);
    set_offset(&mut list, x, y, 2, 1);
    set_offset(&mut list, x, y, 2, -1);
    set_offset(&mut list, x, y, 1, -2);
    set_offset(&mut list, x, y, -1, -2);
    set_offset(&mut list, x, y, -2, -1);
    set_offset(&mut list, x, y, -2, 1);
    proof {
        assert(list@ =~= board@.attack_targets(
            PieceType::Knight,
            piece.side(),
            piece.file(),
            piece.rank(),
        ));
    }
    list
}

/// The legal destinations of a knight: the squares it attacks that hold no
/// piece of its own side, as far as the king-safety rule allows them.
pub fn get_allowed_moves(piece: &Piece, board: &Board) -> (r: BitBoard)
    requires
        board.wf(),
        piece.kind() == PieceType::Knight,
    ensures
        r@ == board@.legal_targets(PieceType::Knight, piece.side(), piece.file(), piece.rank()),
{
    proof {
        board.lemma_wf();
    }
    restrict_to_legal(piece, board, get_attacked_squares(piece, board))
}

/// Whether the knight may legally go to the square `index`.
pub fn is_allowed_move(piece: &Piece, board: &Board, index: usize) -> (r: bool)
    requires
        board.wf(),
        piece.kind() == PieceType::Knight,
    ensures
        r == board@.legal_targets(
            PieceType::Knight,
            piece.side(),
            piece.file(),
            piece.rank(),
        ).contains(index as int),
{
    get_allowed_moves(piece, board).get(index)
}

} // verus!
