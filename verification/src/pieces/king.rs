//! The king: one step in any direction, and castling.

use vstd::prelude::*;
use crate::bitboard::BitBoard;
use crate::board::Board;
use crate::pieces::{set_offset, Piece, PieceType};
use crate::side::{CastlingAbility, Side};

verus! {

/// The squares a king attacks: each of the eight neighbouring squares that
/// lies on the board.
pub fn get_attacked_squares(piece: &Piece, board: &Board) -> (r: BitBoard)
    requires
        board.placement_wf(),
    ensures
        r@ == board@.attack_targets(PieceType::King, piece.side(), piece.file(), piece.rank()),
{
    let (x, y) = piece.get_pos_as_usize();
    let mut list = BitBoard::empty();
    set_offset(&mut list, x, y, 0, 1);
    set_offset(&mut list, x, y, -1, 1);
    set_offset(&mut list, x, y, -1, 0);
    set_offset(&mut list, x, y, -1, -1);
    set_offset(&mut list, x, y, 0, -1);
    set_offset(&mut list, x, y, 1, -1);
    set_offset(&mut list, x, y, 1, 0);
    set_offset(&mut list, x, y, 1, 1);
    proof {
        assert(list@ =~= board@.attack_targets(
            PieceType::King,
            piece.side(),
            piece.file(),
            piece.rank(),
        ));
    }
    list
}

/// Whether a piece of the given kind and side stands on the square `index`.
fn stands_on(board: &Board, index: usize, kind: PieceType, side: Side) -> (r: bool)
    requires
        board.placement_wf(),
        index < 64,
    ensures
        r == board@.holds(index as int % 8, index as int / 8, kind, side),
{
    proof {
        board.lemma_view_cells();
    }
    match board.get_piece_at_pos(index) {
        Some(found) => found.get_piece_type() == kind && found.get_color() == side,
        None => false,
    }
}

/// Whether `side` may castle to the king's wing.
pub fn can_castle_kingside(board: &Board, side: Side) -> (r: bool)
    requires
        board.wf(),
    ensures
        r == board@.can_castle_kingside(side),
{
    proof {
        board.lemma_wf();
        board.lemma_caches(side);
        board.lemma_view_cells();
    }
    let attacked = board.get_side_computed_boards(side).2;
    let combined = board.get_combined_piece_board();
    let row: usize = match side {
        Side::White => 0,
        Side::Black => 56,
    };
    proof {
        assert forall|i: int| row <= i < row + 8 implies (attacked.has(i) <==> board@.attacked_by(
            side.opposite(),
            i - row,
            side.home_rank(),
        )) && (combined.has(i) <==> board@.occupied(i - row, side.home_rank())) by {
            assert(attacked.has(i) == board@.attacked(side).contains(i));
            assert(combined.has(i) == combined@.contains(i));
            assert(i % 8 == i - row && i / 8 == side.home_rank());
        }
    }
    board.get_castling(side).has(CastlingAbility::King) && stands_on(
        board,
        row + 4,
        PieceType::King,
        side,
    ) && stands_on(board, row + 7, PieceType::Rook, side) && !combined.get(row + 5)
        && !combined.get(row + 6) && !attacked.get(row + 4) && !attacked.get(row + 5)
        && !attacked.get(row + 6)
}

/// Whether `side` may castle to the queen's wing.
pub fn can_castle_queenside(board: &Board, side: Side) -> (r: bool)
    requires
        board.wf(),
    ensures
        r == board@.can_castle_queenside(side),
{
    proof {
        board.lemma_wf();
        board.lemma_caches(side);
        board.lemma_view_cells();
    }
    let attacked = board.get_side_computed_boards(side).2;
    let combined = board.get_combined_piece_board();
    let row: usize = match side {
        Side::White => 0,
        Side::Black => 56,
    };
    proof {
        assert forall|i: int| row <= i < row + 8 implies (attacked.has(i) <==> board@.attacked_by(
            side.opposite(),
            i - row,
            side.home_rank(),
        )) && (combined.has(i) <==> board@.occupied(i - row, side.home_rank())) by {
            assert(attacked.has(i) == board@.attacked(side).contains(i));
            assert(combined.has(i) == combined@.contains(i));
            assert(i % 8 == i - row && i / 8 == side.home_rank());
        }
    }
    board.get_castling(side).has(CastlingAbility::Queen) && stands_on(
        board,
        row + 4,
        PieceType::King,
        side,
    ) && stands_on(board, row, PieceType::Rook, side) && !combined.get(row + 1) && !combined.get(
        row + 2,
    ) && !combined.get(row + 3) && !attacked.get(row + 4) && !attacked.get(row + 3)
        && !attacked.get(row + 2)
}

/// The legal destinations of a king: the neighbouring squares that hold no
/// piece of its own side, and the squares on which it lands by castling,
/// as far as the king-safety rule allows them.
pub fn get_allowed_moves(piece: &Piece, board: &Board) -> (r: BitBoard)
    requires
        board.wf(),
        piece.kind() == PieceType::King,
    ensures
        r@ == board@.legal_targets(PieceType::King, piece.side(), piece.file(), piece.rank()),
{
    proof {
        board.lemma_wf();
        board.lemma_side_board(piece.side());
        board.lemma_view_cells();
    }
    let side = piece.get_color();
    let (x, y) = piece.get_pos_as_usize();
    let open = board.get_opponent_and_empty_squares_board(side);
    let attack = get_attacked_squares(piece, board);
    let mut bitboard = attack.intersection(open);
    let ghost steps = bitboard;
    let home: usize = match side {
        Side::White => 0,
        Side::Black => 7,
    };
    let mut short = false;
    let mut long = false;
    if x == 4 && y == home {
        if can_castle_kingside(board, side) {
            bitboard.set(y * 8 + 6, true);
            short = true;
        }
        if can_castle_queenside(board, side) {
            bitboard.set(y * 8 + 2, true);
            long = true;
        }
    }
    let r = board.filter_king_safety(bitboard, piece);
    proof {
        let pos = board@;
        assert forall|t: int| 0 <= t < 64 implies (bitboard.has(t) <==> pos.reaches(
            PieceType::King,
            piece.side(),
            piece.file(),
            piece.rank(),
            t % 8,
            t / 8,
        )) by {
            assert(bitboard.has(t) == (steps.has(t) || (short && t == y * 8 + 6) || (long && t == y
                * 8 + 2)));
            assert(open.has(t) == open@.contains(t));
            assert(attack.has(t) == attack@.contains(t));
            assert(board.side_board(piece.side())@.contains(t) == pos.owned_by(
                t % 8,
                t / 8,
                piece.side(),
            ));
        }
        assert forall|t: int|
            r@.contains(t) <==> pos.legal_targets(
                PieceType::King,
                piece.side(),
                piece.file(),
                piece.rank(),
            ).contains(t) by {
            assert(r@.contains(t) == r.has(t));
        }
        assert(r@ =~= pos.legal_targets(
            PieceType::King,
            piece.side(),
            piece.file(),
            piece.rank(),
        ));
    }
    r
}

/// Whether the king may legally go to the square `index`.
pub fn is_allowed_move(piece: &Piece, board: &Board, index: usize) -> (r: bool)
    requires
        board.wf(),
        piece.kind() == PieceType::King,
    ensures
        r == board@.legal_targets(
            PieceType::King,
            piece.side(),
            piece.file(),
            piece.rank(),
        ).contains(index as int),
{
    get_allowed_moves(piece, board).get(index)
}

} // verus!
