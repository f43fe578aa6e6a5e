//! Occupancy queries, and setting and clearing a single piece.

use vstd::prelude::*;
use crate::bitboard::{all_squares, BitBoard};
use crate::board::Board;
use crate::pieces::{Piece, PieceType};
use crate::position::Position;
use crate::side::Side;

verus! {

impl Board {
    /// The squares that hold a piece of the side opposing `piece`.
    #[inline]
    pub fn get_opponent_board(&self, piece: &Piece) -> (r: BitBoard)
        ensures
            r == self.side_board(piece.side().opposite()),
    {
        match piece.get_color() {
            Side::White => self.black,
            Side::Black => self.white,
        }
    }

    /// The squares that hold a piece of `side`.
    pub fn get_sides_board(&self, side: Side) -> (r: BitBoard)
        ensures
            r == self.side_board(side),
    {
        match side {
            Side::White => self.white,
            Side::Black => self.black,
        }
    }

    /// The squares that hold a piece of the side to move.
    pub fn get_playing_sides_board(&self) -> (r: BitBoard)
        ensures
            r == self.side_board(self@.side),
    {
        match self.side {
            Side::White => self.white,
            Side::Black => self.black,
        }
    }

    /// The squares that hold a piece.
    pub fn all_pieces_bitboard(&self) -> (r: BitBoard)
        ensures
            r@ =~= self.side_board(Side::White)@.union(self.side_board(Side::Black)@),
            forall|i: int| 0 <= i < 64 ==> r@.contains(i) == (#[trigger] self@.cells[i] is Some),
    {
        proof {
            self.lemma_view_cells();
        }
        self.white.union(self.black)
    }

    /// The squares that hold a piece.
    #[inline]
    pub fn get_combined_piece_board(&self) -> (r: BitBoard)
        ensures
            r@ =~= self.side_board(Side::White)@.union(self.side_board(Side::Black)@),
            forall|i: int| 0 <= i < 64 ==> r@.contains(i) == (#[trigger] self@.cells[i] is Some),
    {
        self.all_pieces_bitboard()
    }

    /// The squares that hold no piece of `side`: those of its opponent and
    /// the empty ones.
    #[inline]
    pub fn get_opponent_and_empty_squares_board(&self, side: Side) -> (r: BitBoard)
        requires
            self.placement_wf(),
        ensures
            r@ =~= all_squares().difference(self.side_board(side)@),
    {
        proof {
            self.lemma_sides_disjoint();
        }
        let both = self.black.union(self.white);
        (match side {
            Side::White => self.black,
            Side::Black => self.white,
        }).union(both.complement())
    }

    /// Puts a piece on an empty square (`value` true), or takes the piece
    /// that stands on a square off it (`value` false).
    pub(crate) fn set_piece(&mut self, index: usize, piece: PieceType, side: Side, value: bool)
        requires
            old(self).placement_wf(),
            index < 64,
            piece != PieceType::Empty,
            value ==> old(self)@.cells[index as int] is None,
            !value ==> old(self)@.cells[index as int] == Some((piece, side)),
        ensures
            final(self).placement_wf(),
            final(self)@ == (Position {
                cells: old(self)@.cells.update(
                    index as int,
                    if value {
                        Some((piece, side))
                    } else {
                        None
                    },
                ),
                ..old(self)@
            }),
            final(self).same_derived(*old(self)),
    {
        let k = piece.to_value();
        proof {
            old(self).lemma_view_cells();
            assert(old(self).cell_wf(index as int));
        }
        let mut placed = self.pieces[k];
        placed.set(index, value);
        self.pieces[k] = placed;
        match side {
            Side::White => self.white.set(index, value),
            Side::Black => self.black.set(index, value),
        };
        proof {
            self.lemma_view_cells();
            assert(self.pieces[k as int] == placed);
            assert forall|i: int| 0 <= i < 64 implies #[trigger] self.cell_wf(i) && self.cell(i)
                == (if i == index {
                if value {
                    Some((piece, side))
                } else {
                    None
                }
            } else {
                old(self).cell(i)
            }) by {
                assert(old(self).cell_wf(i));
                assert(old(self).cell(index as int) == old(self)@.cells[index as int]);
            }
            assert(self@.cells =~= old(self)@.cells.update(
                index as int,
                if value {
                    Some((piece, side))
                } else {
                    None
                },
            ));
        }
    }
}

} // verus!
