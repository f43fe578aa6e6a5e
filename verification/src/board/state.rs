//! What a move changes besides the placement: castling rights and the
//! en-passant target; and the test for bare kings.

use vstd::prelude::*;
use crate::board::Board;
use crate::pieces::{Piece, PieceType};
use crate::position::{rights_after_own_move, rights_after_rook_loss};
use crate::side::{CastlingAbility, Side};

verus! {

impl Board {
    /// Takes from the side of `piece` the castling rights that it loses by
    /// moving that piece from where it stands: both for the king; for a
    /// rook the right to the wing of its file.
    pub(crate) fn update_castling_ability(&mut self, piece: &Piece)
        ensures
            final(self).same_placement(*old(self)),
            final(self).same_derived(*old(self)),
            final(self).side == old(self).side,
            final(self).ep_target == old(self).ep_target,
            final(self).moves_to_50 == old(self).moves_to_50,
            final(self).move_counter == old(self).move_counter,
            final(self).castling[piece.side().slot()] == rights_after_own_move(
                old(self).castling[piece.side().slot()],
                piece.kind(),
                piece.file(),
            ),
            final(self).castling[piece.side().opposite().slot()] == old(
                self,
            ).castling[piece.side().opposite().slot()],
    {
        let color: usize = match piece.get_color() {
            Side::White => 0,
            Side::Black => 1,
        };
        match piece.get_piece_type() {
            PieceType::King => {
                self.castling[color] = CastlingAbility::Neither;
            },
            PieceType::Rook => {
                let mut rights = self.castling[color];
                match piece.get_pos_as_usize().0 {
                    0 => rights.remove(CastlingAbility::Queen),
                    7 => rights.remove(CastlingAbility::King),
                    _ => {},
                }
                self.castling[color] = rights;
            },
            _ => {},
        }
    }

    /// Takes from `side` the castling right to the wing of the corner
    /// `index`, where a rook of that side has been captured.
    pub(crate) fn revoke_castling_at(&mut self, side: Side, index: usize)
        requires
            index < 64,
        ensures
            final(self).same_placement(*old(self)),
            final(self).same_derived(*old(self)),
            final(self).side == old(self).side,
            final(self).ep_target == old(self).ep_target,
            final(self).moves_to_50 == old(self).moves_to_50,
            final(self).move_counter == old(self).move_counter,
            final(self).castling[side.slot()] == (if index as int / 8 == side.home_rank() {
                rights_after_rook_loss(old(self).castling[side.slot()], index as int % 8)
            } else {
                old(self).castling[side.slot()]
            }),
            final(self).castling[side.opposite().slot()] == old(self).castling[side.opposite().slot()],
    {
        let (color, home): (usize, usize) = match side {
            Side::White => (0, 0),
            Side::Black => (1, 7),
        };
        if index / 8 == home {
            let mut rights = self.castling[color];
            match index % 8 {
                0 => rights.remove(CastlingAbility::Queen),
                7 => rights.remove(CastlingAbility::King),
                _ => {},
            }
            self.castling[color] = rights;
        }
    }

    /// Sets the en-passant target when `piece`, a pawn, goes to
    /// `new_index` two ranks from where it stands: the target is the
    /// square passed over. Any other move sets none.
    pub(crate) fn encode_en_passant(&mut self, piece: &Piece, new_index: usize)
        requires
            new_index < 64,
        ensures
            final(self).same_placement(*old(self)),
            final(self).same_derived(*old(self)),
            final(self).side == old(self).side,
            final(self).castling == old(self).castling,
            final(self).moves_to_50 == old(self).moves_to_50,
            final(self).move_counter == old(self).move_counter,
            final(self).ep_target == (if new_index as int - piece.square() == 16 || piece.square()
                - new_index as int == 16 {
                Some(((piece.square() + new_index as int) / 2) as usize)
            } else {
                old(self).ep_target
            }),
    {
        let slot = piece.get_occupied_slot();
        let apart = if new_index >= slot {
            new_index - slot
        } else {
            slot - new_index
        };
        if apart == 16 {
            self.ep_target = Some((slot + new_index) / 2);
        }
    }

    /// Whether the two kings are all that is left on the board.
    pub fn is_only_kings_left(&self) -> (r: bool)
        requires
            self.placement_wf(),
        ensures
            r == self@.only_kings_left(),
    {
        let mut board = self.get_combined_piece_board();
        let ghost all = board;
        proof {
            self.lemma_view_cells();
            self@.lemma_king_index(Side::White);
            self@.lemma_king_index(Side::Black);
        }
        match (self.find_king(Side::White), self.find_king(Side::Black)) {
            (Some(white_king), Some(black_king)) => {
                // remove kings from board
                board.set(white_king, false);
                board.set(black_king, false);
                proof {
                    board.lemma_top();
                    assert forall|i: int| 0 <= i < 64 implies board.has(i) == (self@.cells[i] is Some
                        && i != white_king && i != black_king) by {
                        assert(all.has(i) == all@.contains(i));
                    }
                    if board.0 == 0 {
                        assert forall|i: int| 0 <= i < 64 && #[trigger] self@.cells[i] is Some implies i
                            == white_king || i == black_king by {
                            assert(!board@.contains(i));
                            assert(!board.has(i));
                        }
                    } else {
                        assert(board.has(board.top()));
                    }
                }
                board.to_number() == 0
            },
            _ => false,
        }
    }
}

} // verus!
