//! Looking pieces up on the board.

use vstd::prelude::*;
use crate::bitboard::BitBoard;
use crate::board::{describes_squares, Board};
use crate::pieces::{Piece, PieceType};
use crate::side::Side;
use crate::position::{bump, rights_after_own_move, rights_after_rook_loss, Position};
use crate::bitboard::in_bounds;
use crate::coordinates::{edge, ray, walk_len, CoordinateIterator};
use crate::coordinates::offset;
use crate::position::{dist, lemma_ray_covers, lemma_ray_square, on_ray, unit_direction};

verus! {

impl Board {
    /// Takes off the board the pawn that `piece`, a pawn, captures by going
    /// to the en-passant target `ep_index`: the one on the mover's rank, on
    /// the file of the target.
    pub(crate) fn take_en_passant(&mut self, piece: &Piece, ep_index: usize)
        requires
            old(self).placement_wf(),
            ep_index < 64,
            old(self)@.cells[piece.rank() * 8 + ep_index as int % 8] == Some(
                (PieceType::Pawn, piece.side().opposite()),
            ),
        ensures
            final(self).placement_wf(),
            final(self)@ == (Position {
                cells: old(self)@.cells.update(piece.rank() * 8 + ep_index as int % 8, None),
                ..old(self)@
            }),
            final(self).same_derived(*old(self)),
    {
        let index = piece.get_pos_as_usize().1 * 8 + (ep_index % 8);
        self.set_piece(index, PieceType::Pawn, piece.get_color().get_opposite(), false);
    }

    /// Carries out on the placement the move of `piece` to `index`, and
    /// says what kind of piece it captured there (`Empty` for none).
    fn relocate(&mut self, piece: &Piece, index: usize, en_passant: bool) -> (captured: PieceType)
        requires
            old(self).placement_wf(),
            index < 64,
            index as int != piece.square(),
            piece.kind() != PieceType::Empty,
            old(self)@.cells[piece.square()] == Some((piece.kind(), piece.side())),
            !old(self)@.owned_by(index as int % 8, index as int / 8, piece.side()),
            en_passant == old(self)@.is_en_passant(piece.square(), index as int),
            en_passant ==> {
                let beside = (piece.square() / 8) * 8 + index as int % 8;
                &&& beside != piece.square()
                &&& beside != index
                &&& old(self)@.cells[beside] == Some((PieceType::Pawn, piece.side().opposite()))
                &&& old(self)@.cells[index as int] is None
            },
            old(self)@.is_castle_short(piece.square(), index as int) ==> {
                &&& index == piece.square() + 2
                &&& index as int % 8 == 6
                &&& old(self)@.cells[index as int] is None
                &&& old(self)@.cells[index + 1] == Some((PieceType::Rook, piece.side()))
                &&& old(self)@.cells[index - 1] is None
            },
            old(self)@.is_castle_long(piece.square(), index as int) ==> {
                &&& piece.square() == index + 2
                &&& index as int % 8 == 2
                &&& old(self)@.cells[index as int] is None
                &&& old(self)@.cells[index - 2] == Some((PieceType::Rook, piece.side()))
                &&& old(self)@.cells[index + 1] is None
            },
        ensures
            final(self).placement_wf(),
            final(self)@ == (Position {
                cells: old(self)@.moved_cells(piece.square(), index as int),
                ..old(self)@
            }),
            final(self).same_derived(*old(self)),
            captured == old(self)@.kind_at(index as int % 8, index as int / 8),
    {
        let ghost pos = self@;
        let ghost from = piece.square();
        let ghost to = index as int;
        let slot = piece.get_occupied_slot();
        let kind = piece.get_piece_type();
        let color = piece.get_color();
        proof {
            self.lemma_view_cells();
            self.lemma_kinds();
            assert(pos.at(from % 8, from / 8) == pos.cells[from]);
            assert(pos.at(to % 8, to / 8) == pos.cells[to]);
        }
        let fx = slot % 8;
        let tx = index % 8;
        if en_passant {
            self.take_en_passant(piece, index);
        }
        // remove captured piece
        let capture_type = self.get_piece_type_at_pos(index);
        proof {
            self.lemma_kinds();
            assert(self@.at(to % 8, to / 8) == self@.cells[to]);
            assert(self@.cells[to] == pos.cells[to]);
        }
        if capture_type != PieceType::Empty {
            self.set_piece(index, capture_type, color.get_opposite(), false);
        }
        // move current piece to new index
        self.set_piece(slot, kind, color, false);
        self.set_piece(index, kind, color, true);
        // castling: the rook goes to the square that the king passed over
        if kind == PieceType::King && tx == fx + 2 {
            self.set_piece(index + 1, PieceType::Rook, color, false);
            self.set_piece(index - 1, PieceType::Rook, color, true);
        } else if kind == PieceType::King && fx == tx + 2 {
            self.set_piece(index - 2, PieceType::Rook, color, false);
            self.set_piece(index + 1, PieceType::Rook, color, true);
        }
        proof {
            assert(self@.cells =~= pos.moved_cells(from, to));
        }
        capture_type
    }

    /// Carries out what the move of `piece` to `index` changes besides the
    /// placement: castling rights, en-passant target, counters, the turn.
    fn settle(&mut self, piece: &Piece, index: usize, captured: PieceType)
        requires
            index < 64,
        ensures
            final(self).same_placement(*old(self)),
            final(self).same_derived(*old(self)),
            final(self).side == piece.side().opposite(),
            final(self).castling[piece.side().slot()] == rights_after_own_move(
                old(self).castling[piece.side().slot()],
                piece.kind(),
                piece.file(),
            ),
            final(self).castling[piece.side().opposite().slot()] == (if captured == PieceType::Rook
                && index as int / 8 == piece.side().opposite().home_rank() {
                rights_after_rook_loss(
                    old(self).castling[piece.side().opposite().slot()],
                    index as int % 8,
                )
            } else {
                old(self).castling[piece.side().opposite().slot()]
            }),
            final(self).ep_target == (if piece.kind() == PieceType::Pawn && (index as int
                - piece.square() == 16 || piece.square() - index as int == 16) {
                Some(((piece.square() + index as int) / 2) as usize)
            } else {
                None
            }),
            final(self).moves_to_50 as int == (if captured != PieceType::Empty || piece.kind()
                == PieceType::Pawn {
                0
            } else {
                bump(old(self).moves_to_50 as int)
            }),
            final(self).move_counter as int == (if old(self).side == Side::Black {
                bump(old(self).move_counter as int)
            } else {
                old(self).move_counter as int
            }),
    {
        let kind = piece.get_piece_type();
        let opponent = piece.get_color().get_opposite();
        self.update_castling_ability(piece);
        if captured == PieceType::Rook {
            self.revoke_castling_at(opponent, index);
        }
        self.ep_target = None;
        if kind == PieceType::Pawn {
            self.encode_en_passant(piece, index);
        }
        if captured != PieceType::Empty || kind == PieceType::Pawn {
            self.moves_to_50 = 0;
        } else if self.moves_to_50 < u32::MAX {
            self.moves_to_50 += 1;
        }
        if self.side == Side::Black && self.move_counter < u32::MAX {
            self.move_counter += 1;
        }
        self.side = opponent;
    }

    /// Moves `piece` to the square `index` if that is legal now, and says
    /// whether it did. The piece must stand on the board as described,
    /// belong to the side to move, and have `index` among its legal
    /// destinations; otherwise nothing changes. A legal move is carried
    /// out whole: captures, castling, rights, counters, the turn, and the
    /// derived information of both sides.
    pub fn move_piece(&mut self, piece: &Piece, index: usize) -> (r: bool)
        requires
            old(self).wf(),
        ensures
            final(self).wf(),
            r == (old(self)@.cells[piece.square()] == Some((piece.kind(), piece.side())) && old(
                self,
            )@.legal_move(piece.square(), index as int)),
            r ==> final(self)@ == old(self)@.after_move(piece.square(), index as int),
            !r ==> *final(self) == *old(self),
    {
        let ghost pos = self@;
        let ghost from = piece.square();
        let ghost to = index as int;
        proof {
            self.lemma_wf();
            self.lemma_view_cells();
        }
        let slot = piece.get_occupied_slot();
        let kind = piece.get_piece_type();
        let color = piece.get_color();
        // the piece must stand on the board as it is described
        match self.get_piece_at_pos(slot) {
            Some(found) => {
                if found.get_piece_type() != kind || found.get_color() != color {
                    return false;
                }
            },
            None => {
                return false;
            },
        }
        proof {
            assert(pos.at(from % 8, from / 8) == pos.cells[from]);
            assert(pos.targets_from(from) == pos.legal_targets(
                kind,
                color,
                piece.file(),
                piece.rank(),
            ));
        }
        if color != self.side || !piece.is_allowed_move(self, index) {
            return false;
        }
        proof {
            pos.lemma_legal_move_facts(from, to);
            pos.lemma_after_move_valid(from, to);
        }
        // a pawn that goes to the en-passant target takes the pawn beside it
        let en_passant = match self.ep_target {
            Some(ep_index) => kind == PieceType::Pawn && index == ep_index,
            None => false,
        };
        let captured = self.relocate(piece, index, en_passant);
        let ghost placed = *self;
        self.settle(piece, index, captured);
        proof {
            self.lemma_same_placement(placed);
            self.lemma_view_cells();
            let next = pos.after_move(from, to);
            assert(pos.at(to % 8, to / 8) == pos.cells[to]);
            assert(self@.cells == next.cells);
            assert(self@.side == next.side);
            assert(self@.white_castling == next.white_castling);
            assert(self@.black_castling == next.black_castling);
            assert(self@.ep_target == next.ep_target);
            assert(self@.halfmove == next.halfmove);
            assert(self@.fullmove == next.fullmove);
            assert(self@ == next);
        }
        self.update_calculations();
        true
    }

    /// The kind of the piece on the square `index`; `Empty` where none
    /// stands, and for an index off the board.
    #[verifier::loop_isolation(false)]
    pub fn get_piece_type_at_pos(&self, index: usize) -> (r: PieceType)
        requires
            self.placement_wf(),
        ensures
            index < 64 ==> r == self@.kind_at(index as int % 8, index as int / 8),
            index >= 64 ==> r == PieceType::Empty,
    {
        proof {
            self.lemma_view_cells();
            if index < 64 {
                assert(self.cell_wf(index as int));
            }
        }
        if !self.all_pieces_bitboard().get(index) {
            return PieceType::Empty;
        }
        let mut i: usize = 0;
        while i < 6
            invariant
                i <= 6,
                index < 64,
                forall|k: int| 0 <= k < i ==> !self.pieces[k].has(index as int),
            decreases 6 - i,
        {
            if self.pieces[i].get(index) {
                return PieceType::from_value(i as i8);
            }
            i += 1;
        }
        PieceType::Empty
    }

    /// Whether no piece stands on the square `index`.
    #[inline]
    pub fn is_empty(&self, index: usize) -> (r: bool)
        requires
            self.placement_wf(),
        ensures
            index < 64 ==> r == !self@.occupied(index as int % 8, index as int / 8),
            index >= 64 ==> r,
    {
        proof {
            self.lemma_view_cells();
            if index < 64 {
                assert(self.cell_wf(index as int));
            }
        }
        self.get_piece_type_at_pos(index) == PieceType::Empty
    }

    /// The description of the piece of the given kind on the square `index`.
    fn index_to_piece(&self, index: usize, piecetype: PieceType) -> (r: Piece)
        requires
            index < 64,
        ensures
            r.wf(),
            r.describes(
                piecetype,
                if self.side_board(Side::White).has(index as int) {
                    Side::White
                } else {
                    Side::Black
                },
                index as int % 8,
                index as int / 8,
            ),
    {
        Piece::new(
            piecetype,
            match self.white.get(index) {
                true => Side::White,
                _ => Side::Black,
            },
            index % 8,
            index / 8,
        )
    }

    /// The piece on the square `index`, if one stands there.
    pub fn get_piece_at_pos(&self, index: usize) -> (r: Option<Piece>)
        requires
            self.placement_wf(),
        ensures
            index >= 64 ==> r is None,
            index < 64 ==> match r {
                Some(p) => p.wf() && p.square() == index && self@.cells[index as int] == Some(
                    (p.kind(), p.side()),
                ),
                None => self@.cells[index as int] is None,
            },
    {
        proof {
            self.lemma_view_cells();
            if index < 64 {
                assert(self.cell_wf(index as int));
            }
        }
        let piecetype = self.get_piece_type_at_pos(index);
        if piecetype == PieceType::Empty {
            return None;
        }
        Some(self.index_to_piece(index, piecetype))
    }

    /// All pieces on the board, by rising square index.
    pub fn get_all_pieces(&self) -> (r: Vec<Piece>)
        requires
            self.placement_wf(),
        ensures
            describes_squares(r@, self@, self@.occupied_squares()),
    {
        let mut out: Vec<Piece> = Vec::new();
        let mut n: usize = 0;
        proof {
            self.lemma_view_cells();
        }
        while n < 64
            invariant
                n <= 64,
                self.placement_wf(),
                self@.cells.len() == 64,
                describes_squares(out@, self@, self@.occupied_below(n as int)),
            decreases 64 - n,
        {
            match self.get_piece_at_pos(n) {
                Some(piece) => {
                    out.push(piece);
                },
                None => {},
            }
            n += 1;
        }
        out
    }

    /// The square of the king of `side`: the highest one that holds such a
    /// king, if the side has one.
    pub fn find_king(&self, side: Side) -> (r: Option<usize>)
        requires
            self.placement_wf(),
        ensures
            match r {
                Some(k) => k as int == self@.king_index(side),
                None => self@.king_index(side) == -1,
            },
    {
        let king_board = self.get_sides_board(side).intersection(self.pieces[5]);
        let r = king_board.highest();
        proof {
            self.lemma_view_cells();
            self@.lemma_king_index(side);
            king_board.lemma_top();
            assert forall|i: int| 0 <= i < 64 implies (king_board.has(i) <==> self@.cells[i]
                == Some((PieceType::King, side))) by {
                assert(self.cell_wf(i));
            }
            let k = self@.king_index(side);
            let t = king_board.top();
            if k >= 0 {
                assert(king_board.has(k));
            }
            if t >= 0 {
                assert(king_board.has(t));
                assert(self@.cells[t] == Some((PieceType::King, side)));
            }
        }
        r
    }

    /// The square of the king of `side`.
    pub fn get_king(&self, side: Side) -> (r: usize)
        requires
            self.placement_wf(),
            self@.king_index(side) >= 0,
        ensures
            r as int == self@.king_index(side),
            r < 64,
    {
        proof {
            self@.lemma_king_index(side);
        }
        match self.find_king(side) {
            Some(k) => k,
            None => 0,
        }
    }

    /// The squares seen from `start` along the direction `delta`: those of
    /// the walk to the edge of the board, up to and including the first
    /// occupied one.
    pub fn check_and_set_piece_iter(&self, start: (usize, usize), delta: (isize, isize)) -> (r:
        BitBoard)
        requires
            self.placement_wf(),
            in_bounds(start.0 as int, start.1 as int),
            unit_direction(delta.0 as int, delta.1 as int),
        ensures
            forall|t: int|
                #[trigger] r.has(t) <==> (0 <= t < 64 && on_ray(
                    start.0 as int,
                    start.1 as int,
                    delta.0 as int,
                    delta.1 as int,
                    t % 8,
                    t / 8,
                ) && self@.path_clear(start.0 as int, start.1 as int, t % 8, t / 8)),
    {
        let ghost sx = start.0 as int;
        let ghost sy = start.1 as int;
        let ghost dx = delta.0 as int;
        let ghost dy = delta.1 as int;
        let ghost n = walk_len(sx, sy, edge(dx), edge(dy), dx, dy);
        let ghost all = ray(sx, sy, dx, dy, n);
        let ghost pos = self@;
        let mut moves = CoordinateIterator::from_delta(start, delta);
        let mut board = BitBoard::empty();
        let ghost mut k: int = 0;
        let ghost mut reach: int = 0;
        proof {
            assert(all.skip(0) =~= all);
        }
        loop
            invariant_except_break
                moves@ == all.skip(k),
                reach == k,
            invariant
                self.placement_wf(),
                pos == self@,
                in_bounds(sx, sy),
                unit_direction(dx, dy),
                sx == start.0 as int,
                sy == start.1 as int,
                dx == delta.0 as int,
                dy == delta.1 as int,
                n == walk_len(sx, sy, edge(dx), edge(dy), dx, dy),
                all == ray(sx, sy, dx, dy, n),
                0 <= k <= n,
                k <= reach <= k + 1,
                reach <= n,
                forall|m: int| 0 < m <= k ==> !#[trigger] pos.ray_occupied(sx, sy, sx + dx, sy + dy, m),
                forall|t: int|
                    #[trigger] board.has(t) <==> (0 <= t < 64 && on_ray(sx, sy, dx, dy, t % 8, t / 8)
                        && dist(sx, sy, t % 8, t / 8) <= reach),
            ensures
                reach == k + 1 ==> pos.ray_occupied(sx, sy, sx + dx, sy + dy, reach),
                reach == k ==> k == n,
            decreases n - k,
        {
            match moves.next() {
                Some((x, y)) => {
                    proof {
                        assert(all.skip(k)[0] == all[k]);
                        assert(all.skip(k).drop_first() =~= all.skip(k + 1));
                        lemma_ray_square(sx, sy, dx, dy, k + 1);
                        assert(x == offset(sx, dx, k + 1));
                        assert(y == offset(sy, dy, k + 1));
                    }
                    let ghost before = board;
                    let index = y * 8 + x;
                    board.set(index, true);
                    proof {
                        reach = k + 1;
                        assert forall|t: int| #[trigger]
                            board.has(t) <==> (0 <= t < 64 && on_ray(sx, sy, dx, dy, t % 8, t / 8)
                                && dist(sx, sy, t % 8, t / 8) <= reach) by {
                            assert(board.has(t) == (t == index || before.has(t)));
                            if 0 <= t < 64 && on_ray(sx, sy, dx, dy, t % 8, t / 8) && dist(
                                sx,
                                sy,
                                t % 8,
                                t / 8,
                            ) == k + 1 {
                                assert(t % 8 == x && t / 8 == y);
                            }
                        }
                    }
                    if !self.is_empty(index) {
                        proof {
                            assert(pos.occupied(x as int, y as int));
                            assert(offset(sx, sx + dx - sx, reach) == x);
                            assert(offset(sy, sy + dy - sy, reach) == y);
                        }
                        break ;
                    }
                    proof {
                        assert(!pos.occupied(x as int, y as int));
                        assert(offset(sx, sx + dx - sx, k + 1) == x);
                        assert(offset(sy, sy + dy - sy, k + 1) == y);
                        k = k + 1;
                    }
                },
                None => {
                    proof {
                        assert(all.skip(k).len() == 0);
                    }
                    break ;
                },
            }
        }
        proof {
            assert forall|t: int| #[trigger]
                board.has(t) <==> (0 <= t < 64 && on_ray(sx, sy, dx, dy, t % 8, t / 8)
                    && pos.path_clear(sx, sy, t % 8, t / 8)) by {
                let tx = t % 8;
                let ty = t / 8;
                if 0 <= t < 64 && on_ray(sx, sy, dx, dy, tx, ty) {
                    let d = dist(sx, sy, tx, ty);
                    lemma_ray_covers(sx, sy, dx, dy, tx, ty);
                    if d <= reach {
                        assert forall|j: int| 0 < j < d implies !#[trigger] pos.ray_occupied(
                            sx,
                            sy,
                            tx,
                            ty,
                            j,
                        ) by {
                            assert(!pos.ray_occupied(sx, sy, sx + dx, sy + dy, j));
                        }
                    } else {
                        assert(reach == k + 1);
                        assert(pos.ray_occupied(sx, sy, sx + dx, sy + dy, reach));
                        assert(pos.ray_occupied(sx, sy, tx, ty, reach));
                    }
                }
            }
        }
        board
    }
}

} // verus!
