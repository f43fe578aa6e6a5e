//! The rook: along ranks and files.

use vstd::prelude::*;
use crate::bitboard::BitBoard;
use crate::board::Board;
use crate::pieces::{restrict_to_legal, Piece, PieceType};

verus! {

/// The squares a rook attacks: along its rank and file, in each of the
/// four directions up to and including the first occupied square.
pub fn get_attacked_squares(piece: &Piece, board: &Board) -> (r: BitBoard)
    requires
        board.placement_wf(),
    ensures
        r@ == board@.attack_targets(PieceType::Rook, piece.side(), piece.file(), piece.rank()),
{
    get_all_moves(piece, board)
}

/// The squares seen along the four straight rays.
pub(crate) fn get_all_moves(piece: &Piece, board: &Board) -> (r: BitBoard)
    requires
        board.placement_wf(),
    ensures
        r@ == board@.attack_targets(PieceType::Rook, piece.side(), piece.file(), piece.rank()),
{
    let pos = piece.get_pos_as_usize();
    let north = board.check_and_set_piece_iter(pos, (0, 1));
    let east = board.check_and_set_piece_iter(pos, (1, 0));
    let south = board.check_and_set_piece_iter(pos, (0, -1));
    let west = board.check_and_set_piece_iter(pos, (-1, 0));
    let r = north.union(east).union(south).union(west);
    proof {
        assert(r@ =~= board@.attack_targets(
            PieceType::Rook,
            piece.side(),
            piece.file(),
            piece.rank(),
        ));
    }
    r
}

/// The legal destinations of a rook: the squares it attacks that hold no
/// piece of its own side, as far as the king-safety rule allows them.
pub fn get_allowed_moves(piece: &Piece, board: &Board) -> (r: BitBoard)
    requires
        board.wf(),
        piece.kind() == PieceType::Rook,
    ensures
        r@ == board@.legal_targets(PieceType::Rook, piece.side(), piece.file(), piece.rank()),
{
    proof {
        board.lemma_wf();
    }
    restrict_to_legal(piece, board, get_attacked_squares(piece, board))
}

/// Whether the rook may legally go to the square `index`.
pub fn is_allowed_move(piece: &Piece, board: &Board, index: usize) -> (r: bool)
    requires
        board.wf(),
        piece.kind() == PieceType::Rook,
    ensures
        r == board@.legal_targets(
            PieceType::Rook,
            piece.side(),
            piece.file(),
            piece.rank(),
        ).contains(index as int),
{
    get_allowed_moves(piece, board).get(index)
}

} // verus!
