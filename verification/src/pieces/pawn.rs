//! The pawn: advances straight, captures diagonally.

use vstd::prelude::*;
use crate::bitboard::BitBoard;
use crate::board::Board;
use crate::pieces::{set_offset, Piece, PieceType};
use crate::side::Side;

verus! {

/// The squares a pawn attacks: the two diagonally ahead of it, as far as
/// they lie on the board. The squares straight ahead are no threat.
pub fn get_attacked_squares(piece: &Piece, board: &Board) -> (r: BitBoard)
    requires
        board.placement_wf(),
    ensures
        r@ == board@.attack_targets(PieceType::Pawn, piece.side(), piece.file(), piece.rank()),
{
    let (x, y) = piece.get_pos_as_usize();
    let ahead: isize = match piece.get_color() {
        Side::White => 1,
        Side::Black => -1,
    };
    let mut list = BitBoard::empty();
    set_offset(&mut list, x, y, -1, ahead);
    set_offset(&mut list, x, y, 1, ahead);
    proof {
        assert(list@ =~= board@.attack_targets(
            PieceType::Pawn,
            piece.side(),
            piece.file(),
            piece.rank(),
        ));
    }
    list
}

/// The squares to which a pawn may advance: one rank ahead onto an empty
/// square, or two from its starting rank over an empty square onto an
/// empty square. The king-safety rule is not applied.
pub fn get_move_bitboard(piece: &Piece, board: &Board) -> (r: BitBoard)
    requires
        board.placement_wf(),
    ensures
        forall|t: int|
            #[trigger] r.has(t) <==> (0 <= t < 64 && board@.pawn_push(
                piece.side(),
                piece.file(),
                piece.rank(),
                t % 8,
                t / 8,
            )),
{
    let (x, y) = piece.get_pos_as_usize();
    let mut out = BitBoard::empty();
    proof {
        board.lemma_view_cells();
    }
    match piece.get_color() {
        Side::White => {
            if y < 7 {
                let one = (y + 1) * 8 + x;
                if board.is_empty(one) {
                    out.set(one, true);
                    if y == 1 {
                        let two = (y + 2) * 8 + x;
                        if board.is_empty(two) {
                            out.set(two, true);
                        }
                    }
                }
            }
        },
        Side::Black => {
            if y >= 1 {
                let one = (y - 1) * 8 + x;
                if board.is_empty(one) {
                    out.set(one, true);
                    if y == 6 {
                        let two = (y - 2) * 8 + x;
                        if board.is_empty(two) {
                            out.set(two, true);
                        }
                    }
                }
            }
        },
    }
    out
}

/// Adds to `out` the square `dx` files aside and `ahead` ranks on from
/// `(x, y)` when a pawn may capture there: on an opposing piece, or on the
/// en-passant target.
fn capture_square(
    out: &mut BitBoard,
    opponent: BitBoard,
    ep_target: Option<usize>,
    x: usize,
    y: usize,
    dx: isize,
    ahead: isize,
)
    requires
        x < 8,
        y < 8,
        dx == 1 || dx == -1,
        ahead == 1 || ahead == -1,
    ensures
        forall|j: int|
            #[trigger] final(out).has(j) == (old(out).has(j) || (0 <= j < 64 && j % 8 == x + dx && j
                / 8 == y + ahead && (opponent.has(j) || ep_target == Some(j as usize)))),
{
    let nx: isize = x as isize + dx;
    let ny: isize = y as isize + ahead;
    if nx >= 0 && ny >= 0 && nx < 8 && ny < 8 {
        let tx = nx as usize;
        let ty = ny as usize;
        let index = ty * 8 + tx;
        let taken = out.compare_and_set(opponent, true, tx, ty);
        if !taken {
            match ep_target {
                Some(target) => {
                    if target == index {
                        out.set(index, true);
                    }
                },
                None => {},
            }
        }
    }
}

/// The squares on which a pawn may capture: diagonally ahead, where an
/// opposing piece stands or the en-passant target lies. The king-safety
/// rule is not applied.
pub fn get_attack_bitboard(piece: &Piece, board: &Board) -> (r: BitBoard)
    requires
        board.placement_wf(),
    ensures
        forall|t: int|
            #[trigger] r.has(t) <==> (0 <= t < 64 && board@.pawn_capture(
                piece.side(),
                piece.file(),
                piece.rank(),
                t % 8,
                t / 8,
            )),
{
    let opponent = board.get_opponent_board(piece);
    let ep_target = board.get_ep_target();
    let (x, y) = piece.get_pos_as_usize();
    let ahead: isize = match piece.get_color() {
        Side::White => 1,
        Side::Black => -1,
    };
    let mut out = BitBoard::empty();
    capture_square(&mut out, opponent, ep_target, x, y, -1, ahead);
    capture_square(&mut out, opponent, ep_target, x, y, 1, ahead);
    proof {
        board.lemma_view_cells();
        board.lemma_side_board(piece.side().opposite());
        assert forall|t: int| #[trigger]
            out.has(t) <==> (0 <= t < 64 && board@.pawn_capture(
                piece.side(),
                piece.file(),
                piece.rank(),
                t % 8,
                t / 8,
            )) by {
            if 0 <= t < 64 {
                assert(opponent.has(t) == board.side_board(piece.side().opposite())@.contains(t));
                assert((t / 8) * 8 + t % 8 == t);
            }
        }
    }
    out
}

/// The squares within a pawn's reach, by advance or by capture, before the
/// king-safety rule.
pub fn get_all_moves(piece: &Piece, board: &Board) -> (r: BitBoard)
    requires
        board.placement_wf(),
    ensures
        forall|t: int|
            #[trigger] r.has(t) <==> (0 <= t < 64 && board@.reaches(
                PieceType::Pawn,
                piece.side(),
                piece.file(),
                piece.rank(),
                t % 8,
                t / 8,
            )),
{
    get_move_bitboard(piece, board).union(get_attack_bitboard(piece, board))
}

/// The legal destinations of a pawn: its advances and captures, as far as
/// the king-safety rule allows them.
pub fn get_allowed_moves(piece: &Piece, board: &Board) -> (r: BitBoard)
    requires
        board.wf(),
        piece.kind() == PieceType::Pawn,
    ensures
        r@ == board@.legal_targets(PieceType::Pawn, piece.side(), piece.file(), piece.rank()),
{
    proof {
        board.lemma_wf();
    }
    let r = board.filter_king_safety(get_all_moves(piece, board), piece);
    proof {
        assert forall|t: int|
            r@.contains(t) <==> board@.legal_targets(
                PieceType::Pawn,
                piece.side(),
                piece.file(),
                piece.rank(),
            ).contains(t) by {
            assert(r@.contains(t) == r.has(t));
        }
        assert(r@ =~= board@.legal_targets(
            PieceType::Pawn,
            piece.side(),
            piece.file(),
            piece.rank(),
        ));
    }
    r
}

/// Whether the pawn may legally go to the square `index`.
pub fn is_allowed_move(piece: &Piece, board: &Board, index: usize) -> (r: bool)
    requires
        board.wf(),
        piece.kind() == PieceType::Pawn,
    ensures
        r == board@.legal_targets(
            PieceType::Pawn,
            piece.side(),
            piece.file(),
            piece.rank(),
        ).contains(index as int),
{
    get_allowed_moves(piece, board).get(index)
}

} // verus!
