//! What is derived from the placement: the attacked squares, the pieces
//! that give check, and the pinned pieces.

use vstd::prelude::*;
use crate::bitboard::{in_bounds, BitBoard};
use crate::board::{describes_squares, Board};
use crate::coordinates::{edge, offset, ray, sign, walk_len, CoordinateIterator};
use crate::pieces::{Piece, PieceType};
use crate::position::{
    aligned,
    diagonal,
    dist,
    lemma_ray_covers,
    lemma_ray_square,
    lemma_walk_between,
    on_pin_line,
    on_ray,
    slides_along,
    straight,
    unit_direction,
    Position,
};
use crate::side::Side;

verus! {

impl Board {
    /// Computes, for `side`, the squares that its opponent attacks and the
    /// opposing pieces that attack its king.
    pub fn calculate_attacking_and_attacked(&mut self, side: Side)
        requires
            old(self).placement_wf(),
        ensures
            final(self).same_layout(*old(self)),
            final(self).attacked_cache(side)@ == old(self)@.attacked(side),
            describes_squares(
                final(self).attackers_cache(side),
                old(self)@,
                old(self)@.attackers(side),
            ),
            final(self).attacked_cache(side.opposite()) == old(self).attacked_cache(side.opposite()),
            final(self).attackers_cache(side.opposite()) == old(self).attackers_cache(
                side.opposite(),
            ),
            final(self).pinned_cache(Side::White) == old(self).pinned_cache(Side::White),
            final(self).pinned_cache(Side::Black) == old(self).pinned_cache(Side::Black),
    {
        let mut attacking: Vec<Piece> = Vec::new();
        let mut attacked = BitBoard::empty();
        let king = self.find_king(side);
        let ghost pos = self@;
        let ghost opp = side.opposite();
        proof {
            self.lemma_view_cells();
            pos.lemma_king_index(side);
        }
        let mut n: usize = 0;
        while n < 64
            invariant
                n <= 64,
                self.placement_wf(),
                *self == *old(self),
                pos == self@,
                pos.cells.len() == 64,
                opp == side.opposite(),
                match king {
                    Some(k) => k as int == pos.king_index(side) && k < 64,
                    None => pos.king_index(side) == -1,
                },
                forall|t: int|
                    #[trigger] attacked.has(t) <==> (0 <= t < 64 && exists|from: int|
                        0 <= from < n && #[trigger] pos.attacks_from(from, opp, t % 8, t / 8)),
                describes_squares(attacking@, pos, pos.attackers_below(side, n as int)),
            decreases 64 - n,
        {
            let ghost before = attacked;
            let ghost checks_now = pos.checks(side, n as int);
            let mut hit = BitBoard::empty();
            match self.get_piece_at_pos(n) {
                Some(piece) => {
                    if piece.get_color() != side {
                        let attack = piece.get_attacked_square(self);
                        proof {
                            assert forall|t: int| attack.has(t) == (0 <= t < 64 && pos.attacks_from(
                                n as int,
                                opp,
                                t % 8,
                                t / 8,
                            )) by {
                                assert(attack.has(t) == attack@.contains(t));
                            }
                        }
                        match king {
                            Some(k) => {
                                if attack.get(k) {
                                    attacking.push(piece);
                                }
                            },
                            None => {},
                        }
                        hit = attack;
                    }
                },
                None => {},
            }
            attacked = attacked.union(hit);
            proof {
                assert forall|t: int| hit.has(t) == (0 <= t < 64 && pos.attacks_from(
                    n as int,
                    opp,
                    t % 8,
                    t / 8,
                )) by {}
                assert forall|t: int| #[trigger]
                    attacked.has(t) <==> (0 <= t < 64 && exists|from: int|
                        0 <= from < n + 1 && #[trigger] pos.attacks_from(from, opp, t % 8, t / 8)) by {
                    if before.has(t) {
                        let from = choose|from: int|
                            0 <= from < n && #[trigger] pos.attacks_from(from, opp, t % 8, t / 8);
                        assert(0 <= from < n + 1 && pos.attacks_from(from, opp, t % 8, t / 8));
                    }
                    if 0 <= t < 64 && (exists|from: int|
                        0 <= from < n + 1 && #[trigger] pos.attacks_from(from, opp, t % 8, t / 8)) {
                        let from = choose|from: int|
                            0 <= from < n + 1 && #[trigger] pos.attacks_from(from, opp, t % 8, t / 8);
                        if from < n {
                            assert(before.has(t));
                        } else {
                            assert(hit.has(t));
                        }
                    }
                }
            }
            n += 1;
        }
        proof {
            assert(attacked@ =~= pos.attacked(side));
        }
        match side {
            Side::White => {
                self.white_attacking_king = attacking;
                self.white_attacked = attacked;
            },
            Side::Black => {
                self.black_attacking_king = attacking;
                self.black_attacked = attacked;
            },
        }
    }

    /// Computes the pinned pieces of `side`: from its king, each of the
    /// eight rays is walked to the edge of the board.
    pub fn calculate_pinned_pieces(&mut self, side: Side)
        requires
            old(self).placement_wf(),
        ensures
            final(self).same_layout(*old(self)),
            final(self).pinned_cache(side)@ == old(self)@.pinned_squares(side),
            final(self).pinned_cache(side.opposite()) == old(self).pinned_cache(side.opposite()),
            final(self).attacked_cache(Side::White) == old(self).attacked_cache(Side::White),
            final(self).attacked_cache(Side::Black) == old(self).attacked_cache(Side::Black),
            final(self).attackers_cache(Side::White) == old(self).attackers_cache(Side::White),
            final(self).attackers_cache(Side::Black) == old(self).attackers_cache(Side::Black),
    {
        let ghost pos = self@;
        let mut pinned = BitBoard::empty();
        proof {
            self.lemma_view_cells();
            pos.lemma_king_index(side);
        }
        match self.find_king(side) {
            Some(king_index) => {
                let king_pos = (king_index % 8, king_index / 8);
                let opponent = self.get_sides_board(side.get_opposite());
                let queens = self.pieces[4];
                let straight_pieces = self.pieces[3].union(queens).intersection(opponent);
                let diagonal_pieces = self.pieces[2].union(queens).intersection(opponent);
                proof {
                    assert forall|q: int| 0 <= q < 64 implies (#[trigger] straight_pieces.has(q)
                        <==> (pos.owned_by(q % 8, q / 8, side.opposite()) && (pos.kind_at(
                        q % 8,
                        q / 8,
                    ) == PieceType::Queen || pos.kind_at(q % 8, q / 8) == PieceType::Rook))) by {
                        assert(self.cell_wf(q));
                        assert(pos.cells[q] == self.cell(q));
                        assert(pos.at(q % 8, q / 8) == pos.cells[q]);
                    }
                    assert forall|q: int| 0 <= q < 64 implies (#[trigger] diagonal_pieces.has(q)
                        <==> (pos.owned_by(q % 8, q / 8, side.opposite()) && (pos.kind_at(
                        q % 8,
                        q / 8,
                    ) == PieceType::Queen || pos.kind_at(q % 8, q / 8) == PieceType::Bishop))) by {
                        assert(self.cell_wf(q));
                        assert(pos.cells[q] == self.cell(q));
                        assert(pos.at(q % 8, q / 8) == pos.cells[q]);
                    }
                }
                // north
                self.add_pinned(&mut pinned, king_pos, (0, 1), straight_pieces, side);
                // north-east
                self.add_pinned(&mut pinned, king_pos, (1, 1), diagonal_pieces, side);
                // east
                self.add_pinned(&mut pinned, king_pos, (1, 0), straight_pieces, side);
                // south-east
                self.add_pinned(&mut pinned, king_pos, (1, -1), diagonal_pieces, side);
                // south
                self.add_pinned(&mut pinned, king_pos, (0, -1), straight_pieces, side);
                // south-west
                self.add_pinned(&mut pinned, king_pos, (-1, -1), diagonal_pieces, side);
                // west
                self.add_pinned(&mut pinned, king_pos, (-1, 0), straight_pieces, side);
                // north-west
                self.add_pinned(&mut pinned, king_pos, (-1, 1), diagonal_pieces, side);
                proof {
                    let kx = king_pos.0 as int;
                    let ky = king_pos.1 as int;
                    assert forall|p: int| #[trigger]
                        pinned.has(p) <==> (0 <= p < 64 && pos.pinned(side, p % 8, p / 8)) by {
                        if 0 <= p < 64 && pos.pinned(side, p % 8, p / 8) {
                            let (qx, qy) = choose|qx: int, qy: int| #[trigger]
                                pos.pinned_by(side, p % 8, p / 8, qx, qy);
                            assert(aligned(kx, ky, p % 8, p / 8));
                            assert(on_ray(
                                kx,
                                ky,
                                sign(p % 8 - kx),
                                sign(p / 8 - ky),
                                p % 8,
                                p / 8,
                            ));
                        }
                    }
                    assert(pinned@ =~= pos.pinned_squares(side));
                }
            },
            None => {
                proof {
                    assert forall|p: int| #[trigger]
                        pinned.has(p) <==> (0 <= p < 64 && pos.pinned(side, p % 8, p / 8)) by {
                        if pos.pinned(side, p % 8, p / 8) {
                            let (qx, qy) = choose|qx: int, qy: int| #[trigger]
                                pos.pinned_by(side, p % 8, p / 8, qx, qy);
                        }
                    }
                    assert(pinned@ =~= pos.pinned_squares(side));
                }
            },
        }
        match side {
            Side::White => self.white_pinned = pinned,
            Side::Black => self.black_pinned = pinned,
        }
    }

    /// Computes the derived information anew for both sides.
    pub fn update_calculations(&mut self)
        requires
            old(self).placement_wf(),
            old(self)@.valid(),
        ensures
            final(self).wf(),
            final(self).same_layout(*old(self)),
            final(self)@ == old(self)@,
    {
        proof {
            old(self).lemma_view_cells();
        }
        let side = self.side;
        self.calculate_attacking_and_attacked(side);
        proof {
            self.lemma_same_layout(*old(self));
        }
        self.calculate_attacking_and_attacked(side.get_opposite());
        proof {
            self.lemma_same_layout(*old(self));
        }
        self.calculate_pinned_pieces(side);
        proof {
            self.lemma_same_layout(*old(self));
        }
        self.calculate_pinned_pieces(side.get_opposite());
        proof {
            self.lemma_same_layout(*old(self));
        }
    }

    /// Whether a move of `piece` to `(x, y)` stays on the line through its
    /// king and itself: along a line, towards the king or away from it.
    pub fn still_pinned_piece_at_pos(&self, piece: &Piece, x: usize, y: usize) -> (r: bool)
        requires
            self.placement_wf(),
            self@.king_index(piece.side()) >= 0,
        ensures
            r == on_pin_line(
                self@.king_x(piece.side()),
                self@.king_y(piece.side()),
                piece.file(),
                piece.rank(),
                x as int,
                y as int,
            ),
    {
        let king_index = self.get_king(piece.get_color());
        let pos = piece.get_pos_as_usize();
        let piece_movement = CoordinateIterator::from_to(pos, (x, y)).get_change();
        let king_to_piece = CoordinateIterator::from_to(
            (king_index % 8, king_index / 8),
            pos,
        ).get_change();
        let across = if x >= pos.0 {
            x - pos.0
        } else {
            pos.0 - x
        };
        let along = if y >= pos.1 {
            y - pos.1
        } else {
            pos.1 - y
        };
        let on_line = (across == 0) != (along == 0) || (across != 0 && across == along);
        on_line && ((piece_movement.0 == king_to_piece.0 && piece_movement.1 == king_to_piece.1) || (
        piece_movement.0 == -king_to_piece.0 && piece_movement.1 == -king_to_piece.1))
    }

    /// Whether a move to `(x, y)` answers the check that `attacking_piece`
    /// gives to the king of `piece`: by capturing it or, if it slides, by
    /// landing between it and the king.
    pub fn will_block_or_capture_king_attack(
        &self,
        piece: &Piece,
        attacking_piece: &Piece,
        x: usize,
        y: usize,
    ) -> (r: bool)
        requires
            self.placement_wf(),
            in_bounds(x as int, y as int),
            self@.checks(piece.side(), attacking_piece.square()),
            self@.cells[attacking_piece.square()] == Some(
                (attacking_piece.kind(), attacking_piece.side()),
            ),
        ensures
            r == self@.blocks_or_captures(
                piece.side(),
                attacking_piece.square(),
                x as int,
                y as int,
            ),
    {
        let slot = attacking_piece.get_occupied_slot();
        let from = attacking_piece.get_pos_as_usize();
        proof {
            self.lemma_view_cells();
            self@.lemma_king_index(piece.side());
            assert(slot as int % 8 == from.0 && slot as int / 8 == from.1);
        }
        if y * 8 + x == slot {
            return true;
        }
        match attacking_piece.get_piece_type() {
            PieceType::Bishop | PieceType::Rook | PieceType::Queen => {},
            _ => {
                return false;
            },
        }
        let king_index = self.get_king(piece.get_color());
        let king = (king_index % 8, king_index / 8);
        if x == king.0 && y == king.1 {
            return false;
        }
        proof {
            lemma_walk_between(
                from.0 as int,
                from.1 as int,
                king.0 as int,
                king.1 as int,
                x as int,
                y as int,
            );
        }
        CoordinateIterator::from_to(from, king).contains((x, y))
    }

    /// Whether the king `piece`, going to `(x, y)`, runs straight away from
    /// one of the sliding `attackers` along that attacker's line.
    pub fn king_moving_away_from_attacker(
        &self,
        piece: &Piece,
        attackers: &Vec<Piece>,
        x: usize,
        y: usize,
    ) -> (r: bool)
        requires
            self.placement_wf(),
            describes_squares(attackers@, self@, self@.attackers(piece.side())),
        ensures
            r == exists|i: int|
                0 <= i < self@.attackers(piece.side()).len() && self@.flees_along(
                    #[trigger] self@.attackers(piece.side())[i],
                    piece.file(),
                    piece.rank(),
                    x as int,
                    y as int,
                ),
    {
        let king_pos = piece.get_pos_as_usize();
        let move_dir = CoordinateIterator::from_to(king_pos, (x, y)).get_change();
        let ghost pos = self@;
        let ghost squares = pos.attackers(piece.side());
        proof {
            self.lemma_view_cells();
            pos.lemma_attackers(piece.side());
        }
        let mut n: usize = 0;
        while n < attackers.len()
            invariant
                n <= attackers.len(),
                pos == self@,
                pos.cells.len() == 64,
                squares == pos.attackers(piece.side()),
                describes_squares(attackers@, pos, squares),
                forall|i: int| 0 <= i < squares.len() ==> 0 <= #[trigger] squares[i] < 64,
                king_pos.0 as int == piece.file(),
                king_pos.1 as int == piece.rank(),
                move_dir.0 as int == sign(x as int - piece.file()),
                move_dir.1 as int == sign(y as int - piece.rank()),
                forall|i: int|
                    0 <= i < n ==> !pos.flees_along(
                        #[trigger] squares[i],
                        piece.file(),
                        piece.rank(),
                        x as int,
                        y as int,
                    ),
            decreases attackers.len() - n,
        {
            let attacker = &attackers[n];
            let from = attacker.get_pos_as_usize();
            proof {
                assert(attacker.square() == squares[n as int]);
                assert(pos.cells[squares[n as int]] == Some((attacker.kind(), attacker.side())));
                assert(squares[n as int] % 8 == from.0 && squares[n as int] / 8 == from.1);
            }
            let slides = match attacker.get_piece_type() {
                PieceType::Bishop | PieceType::Rook | PieceType::Queen => true,
                _ => false,
            };
            if slides {
                let piece_to_king = CoordinateIterator::from_to(from, king_pos).get_change();
                if move_dir.0 == piece_to_king.0 && move_dir.1 == piece_to_king.1 {
                    proof {
                        assert(pos.flees_along(
                            squares[n as int],
                            piece.file(),
                            piece.rank(),
                            x as int,
                            y as int,
                        ));
                    }
                    return true;
                }
            }
            n += 1;
        }
        false
    }

    /// The king-safety rule: whether `piece`, going to `(x, y)`, leaves its
    /// own king out of check as far as pins and the present checks tell.
    pub fn is_king_safety(&self, piece: &Piece, x: usize, y: usize) -> (r: bool)
        requires
            self.wf(),
            in_bounds(x as int, y as int),
        ensures
            r == self@.safe(
                piece.kind(),
                piece.side(),
                piece.file(),
                piece.rank(),
                x as int,
                y as int,
            ),
    {
        let side = piece.get_color();
        let (pinned, attacking, attacked) = self.get_side_computed_boards(side);
        let ghost pos = self@;
        proof {
            self.lemma_caches(side);
            self.lemma_view_cells();
            pos.lemma_attackers(side);
        }
        if piece.get_piece_type() == PieceType::King {
            // the king may not go to an attacked square
            if attacked.get(y * 8 + x) {
                proof {
                    assert(pos.attacked(side).contains(y * 8 + x));
                }
                return false;
            }
            proof {
                assert(!pos.attacked(side).contains(y * 8 + x));
            }
            // nor stay on the line of a piece that gives check
            !self.king_moving_away_from_attacker(piece, attacking, x, y)
        } else {
            let slot = piece.get_occupied_slot();
            let held = pinned.get(slot);
            proof {
                assert(held == pos.pinned_squares(side).contains(slot as int));
                assert(slot as int % 8 == piece.file() && slot as int / 8 == piece.rank());
                if held {
                    let (qx, qy) = choose|qx: int, qy: int| #[trigger]
                        pos.pinned_by(side, piece.file(), piece.rank(), qx, qy);
                }
            }
            if held && !self.still_pinned_piece_at_pos(piece, x, y) {
                return false;
            }
            // the king is attacked by two or more: only it can move
            if attacking.len() >= 2 {
                return false;
            }
            if attacking.len() == 1 {
                let attacker = &attacking[0];
                proof {
                    assert(attacker.square() == pos.attackers(side)[0]);
                }
                if !self.will_block_or_capture_king_attack(piece, attacker, x, y) {
                    return false;
                }
            }
            true
        }
    }

    /// The squares of `bitboard` to which `piece` may go by the king-safety rule.
    pub fn filter_king_safety(&self, bitboard: BitBoard, piece: &Piece) -> (r: BitBoard)
        requires
            self.wf(),
        ensures
            forall|t: int|
                #[trigger] r.has(t) <==> (bitboard.has(t) && self@.safe(
                    piece.kind(),
                    piece.side(),
                    piece.file(),
                    piece.rank(),
                    t % 8,
                    t / 8,
                )),
    {
        let is_safe = |index: usize| -> (b: bool)
            requires
                index < 64,
            ensures
                b == self@.safe(
                    piece.kind(),
                    piece.side(),
                    piece.file(),
                    piece.rank(),
                    index as int % 8,
                    index as int / 8,
                ),
            { self.is_king_safety(piece, index % 8, index / 8) };
        let r = bitboard.filter_on(is_safe);
        proof {
            assert forall|t: int| #[trigger]
                r.has(t) <==> (bitboard.has(t) && self@.safe(
                    piece.kind(),
                    piece.side(),
                    piece.file(),
                    piece.rank(),
                    t % 8,
                    t / 8,
                )) by {
                assert(r.has(t) == r@.contains(t));
                assert(bitboard.has(t) == bitboard@.contains(t));
                if 0 <= t < 64 {
                    let i = t as usize;
                    assert(r@.contains(i as int) ==> call_ensures(is_safe, (i,), true));
                    assert(bitboard@.contains(i as int) && !r@.contains(i as int) ==> call_ensures(
                        is_safe,
                        (i,),
                        false,
                    ));
                }
            }
        }
        r
    }

    /// Whether `side` has no legal move with any of its pieces.
    pub fn is_no_possible_moves(&self, side: Side) -> (r: bool)
        requires
            self.wf(),
        ensures
            r == !self@.has_legal_move(side),
    {
        let ghost pos = self@;
        proof {
            self.lemma_view_cells();
        }
        let mut n: usize = 0;
        while n < 64
            invariant
                n <= 64,
                self.wf(),
                self.placement_wf(),
                pos == self@,
                pos.cells.len() == 64,
                forall|from: int, to: int|
                    0 <= from < n && pos.owned_by(from % 8, from / 8, side) ==> !#[trigger] pos.targets_from(
                        from,
                    ).contains(to),
            decreases 64 - n,
        {
            match self.get_piece_at_pos(n) {
                Some(piece) => {
                    if piece.get_color() == side {
                        let moves = piece.get_possible_moves(self);
                        proof {
                            moves.lemma_top();
                            assert(moves@ == pos.targets_from(n as int));
                        }
                        if moves.to_number() != 0 {
                            proof {
                                let to = moves.top();
                                assert(moves@.contains(to));
                                assert(pos.owned_by(n as int % 8, n as int / 8, side));
                                assert(pos.targets_from(n as int).contains(to));
                            }
                            return false;
                        }
                    }
                },
                None => {},
            }
            n += 1;
        }
        true
    }

    /// Looks for a pinned piece of `side` on the ray that leaves its king
    /// in the direction `delta`, and adds it to `pinned`. The first piece
    /// met is the candidate if it is the side's own; it is pinned if the
    /// next piece met is one of `opponent_pinner`.
    fn add_pinned(
        &self,
        pinned: &mut BitBoard,
        king: (usize, usize),
        delta: (isize, isize),
        opponent_pinner: BitBoard,
        side: Side,
    )
        requires
            self.placement_wf(),
            in_bounds(king.0 as int, king.1 as int),
            self@.king_index(side) == king.1 * 8 + king.0,
            unit_direction(delta.0 as int, delta.1 as int),
            forall|q: int|
                0 <= q < 64 ==> (#[trigger] opponent_pinner.has(q) <==> (self@.owned_by(
                    q % 8,
                    q / 8,
                    side.opposite(),
                ) && is_pinner_kind(self@.kind_at(q % 8, q / 8), delta.0 as int, delta.1 as int))),
        ensures
            forall|p: int|
                #[trigger] final(pinned).has(p) <==> (old(pinned).has(p) || (0 <= p < 64 && on_ray(
                    king.0 as int,
                    king.1 as int,
                    delta.0 as int,
                    delta.1 as int,
                    p % 8,
                    p / 8,
                ) && self@.pinned(side, p % 8, p / 8))),
    {
        let ghost kx = king.0 as int;
        let ghost ky = king.1 as int;
        let ghost dx = delta.0 as int;
        let ghost dy = delta.1 as int;
        let ghost n = walk_len(kx, ky, edge(dx), edge(dy), dx, dy);
        let ghost all = ray(kx, ky, dx, dy, n);
        let ghost pos = self@;
        let board = self.all_pieces_bitboard();
        let sides_board = self.get_sides_board(side);
        let mut it = CoordinateIterator::from_delta(king, delta);
        let mut first_piece_index: usize = 65;
        let ghost mut first: int = 0;
        let ghost mut upto: int = 0;
        let ghost mut marked: bool = false;
        proof {
            assert(all.skip(0) =~= all);
            self.lemma_view_cells();
            self.lemma_side_board(side);
        }
        loop
            invariant_except_break
                it@ == all.skip(upto),
                *pinned == *old(pinned),
                !marked,
            invariant
                self.placement_wf(),
                pos == self@,
                pos.cells.len() == 64,
                in_bounds(kx, ky),
                unit_direction(dx, dy),
                n == walk_len(kx, ky, edge(dx), edge(dy), dx, dy),
                all == ray(kx, ky, dx, dy, n),
                forall|i: int| 0 <= i < 64 ==> board@.contains(i) == (#[trigger] pos.cells[i] is Some),
                forall|i: int|
                    0 <= i < 64 ==> (#[trigger] sides_board@.contains(i) <==> pos.owned_by(
                        i % 8,
                        i / 8,
                        side,
                    )),
                forall|q: int|
                    0 <= q < 64 ==> (#[trigger] opponent_pinner.has(q) <==> (pos.owned_by(
                        q % 8,
                        q / 8,
                        side.opposite(),
                    ) && is_pinner_kind(pos.kind_at(q % 8, q / 8), dx, dy))),
                0 <= first <= upto <= n,
                (first == 0) == (first_piece_index == 65),
                first > 0 ==> first_piece_index == offset(ky, dy, first) * 8 + offset(kx, dx, first)
                    && pos.owned_by(offset(kx, dx, first), offset(ky, dy, first), side),
                forall|m: int|
                    0 < m <= upto && m != first ==> !#[trigger] pos.ray_occupied(
                        kx,
                        ky,
                        kx + dx,
                        ky + dy,
                        m,
                    ),
            ensures
                upto < n ==> pos.ray_occupied(kx, ky, kx + dx, ky + dy, upto + 1),
                first == 0 && upto < n ==> !pos.owned_by(
                    offset(kx, dx, upto + 1),
                    offset(ky, dy, upto + 1),
                    side,
                ),
                marked == (first > 0 && upto < n && opponent_pinner.has(
                    offset(ky, dy, upto + 1) * 8 + offset(kx, dx, upto + 1),
                )),
                forall|p: int|
                    #[trigger] pinned.has(p) <==> (old(pinned).has(p) || (marked && p == offset(
                        ky,
                        dy,
                        first,
                    ) * 8 + offset(kx, dx, first))),
            decreases n - upto,
        {
            match it.next() {
                Some((x, y)) => {
                    proof {
                        assert(all.skip(upto)[0] == all[upto]);
                        assert(all.skip(upto).drop_first() =~= all.skip(upto + 1));
                        lemma_ray_square(kx, ky, dx, dy, upto + 1);
                        assert(x == offset(kx, dx, upto + 1));
                        assert(y == offset(ky, dy, upto + 1));
                        assert(offset(kx, kx + dx - kx, upto + 1) == x);
                        assert(offset(ky, ky + dy - ky, upto + 1) == y);
                        if first > 0 {
                            lemma_ray_square(kx, ky, dx, dy, first);
                        }
                    }
                    let index = y * 8 + x;
                    if !board.get(index) {
                        proof {
                            assert(!pos.occupied(x as int, y as int));
                            upto = upto + 1;
                        }
                    } else if first_piece_index == 65 {
                        proof {
                            assert(pos.occupied(x as int, y as int));
                        }
                        if sides_board.get(index) {
                            first_piece_index = index;
                            proof {
                                first = upto + 1;
                                upto = upto + 1;
                            }
                        } else {
                            break ;
                        }
                    } else {
                        proof {
                            assert(pos.occupied(x as int, y as int));
                        }
                        if opponent_pinner.get(index) {
                            pinned.set(first_piece_index, true);
                            proof {
                                marked = true;
                            }
                        }
                        break ;
                    }
                },
                None => {
                    proof {
                        assert(all.skip(upto).len() == 0);
                    }
                    break ;
                },
            }
        }
        proof {
            let stop = offset(ky, dy, upto + 1) * 8 + offset(kx, dx, upto + 1);
            if upto < n {
                lemma_ray_square(kx, ky, dx, dy, upto + 1);
                assert(0 <= stop < 64);
                assert(stop % 8 == offset(kx, dx, upto + 1));
                assert(stop / 8 == offset(ky, dy, upto + 1));
            }
            assert forall|p: int| #[trigger]
                pinned.has(p) <==> (old(pinned).has(p) || (0 <= p < 64 && on_ray(
                    kx,
                    ky,
                    dx,
                    dy,
                    p % 8,
                    p / 8,
                ) && pos.pinned(side, p % 8, p / 8))) by {
                lemma_pin_ray_result(pos, side, kx, ky, dx, dy, first, upto, marked, p);
            }
        }
    }
}

/// Whether a piece of the given kind pins along the direction `(dx, dy)`:
/// a queen along any, a rook along a rank or file, a bishop along a diagonal.
pub open spec fn is_pinner_kind(kind: PieceType, dx: int, dy: int) -> bool {
    ||| kind == PieceType::Queen
    ||| kind == PieceType::Rook && (dx == 0 || dy == 0)
    ||| kind == PieceType::Bishop && dx != 0 && dy != 0
}

/// On a ray from the king on which the squares up to `upto` are empty but
/// for the one at `first` (if `first` is not 0), and on which the square
/// after `upto` is occupied unless the ray ends there: a piece pinned on
/// that ray stands at `first`, and its pinner on the square after `upto`.
#[verifier::rlimit(60)]
#[verifier::spinoff_prover]
pub proof fn lemma_pin_on_ray(
    pos: Position,
    side: Side,
    kx: int,
    ky: int,
    dx: int,
    dy: int,
    first: int,
    upto: int,
    px: int,
    py: int,
    qx: int,
    qy: int,
)
    requires
        pos.cells.len() == 64,
        in_bounds(kx, ky),
        pos.king_index(side) == ky * 8 + kx,
        unit_direction(dx, dy),
        0 <= first <= upto <= walk_len(kx, ky, edge(dx), edge(dy), dx, dy),
        first > 0 ==> pos.occupied(offset(kx, dx, first), offset(ky, dy, first)),
        forall|m: int|
            0 < m <= upto && m != first ==> !#[trigger] pos.ray_occupied(kx, ky, kx + dx, ky + dy, m),
        upto < walk_len(kx, ky, edge(dx), edge(dy), dx, dy) ==> pos.ray_occupied(
            kx,
            ky,
            kx + dx,
            ky + dy,
            upto + 1,
        ),
        first == 0 && upto < walk_len(kx, ky, edge(dx), edge(dy), dx, dy) ==> !pos.owned_by(
            offset(kx, dx, upto + 1),
            offset(ky, dy, upto + 1),
            side,
        ),
        in_bounds(px, py),
        on_ray(kx, ky, dx, dy, px, py),
        pos.pinned_by(side, px, py, qx, qy),
    ensures
        first > 0,
        px == offset(kx, dx, first),
        py == offset(ky, dy, first),
        upto < walk_len(kx, ky, edge(dx), edge(dy), dx, dy),
        qx == offset(kx, dx, upto + 1),
        qy == offset(ky, dy, upto + 1),
{
    let n = walk_len(kx, ky, edge(dx), edge(dy), dx, dy);
    let a = dist(kx, ky, px, py);
    let b = a + dist(px, py, qx, qy);
    lemma_ray_covers(kx, ky, dx, dy, px, py);
    assert(on_ray(kx, ky, dx, dy, qx, qy));
    lemma_ray_covers(kx, ky, dx, dy, qx, qy);
    assert(dist(kx, ky, qx, qy) == b);
    assert(0 < a < b <= n);
    // the squares before the pinned piece are empty, and it is occupied
    assert forall|m: int| 0 < m < a implies !pos.occupied(offset(kx, dx, m), offset(ky, dy, m)) by {
        assert(!pos.ray_occupied(kx, ky, px, py, m));
    }
    assert(pos.occupied(offset(kx, dx, a), offset(ky, dy, a)));
    // the squares between it and the pinner are empty, and the pinner is occupied
    assert forall|m: int| a < m < b implies !pos.occupied(offset(kx, dx, m), offset(ky, dy, m)) by {
        assert(!pos.ray_occupied(px, py, qx, qy, m - a));
        assert(offset(px, qx - px, m - a) == offset(kx, dx, m));
        assert(offset(py, qy - py, m - a) == offset(ky, dy, m));
    }
    assert(pos.occupied(offset(kx, dx, b), offset(ky, dy, b)));
    let stop = upto + 1;
    if upto < n {
        assert(pos.ray_occupied(kx, ky, kx + dx, ky + dy, stop));
        assert(pos.occupied(offset(kx, dx, stop), offset(ky, dy, stop)));
    }
    if a <= upto && a != first {
        assert(!pos.ray_occupied(kx, ky, kx + dx, ky + dy, a));
    }
    if b <= upto && b != first {
        assert(!pos.ray_occupied(kx, ky, kx + dx, ky + dy, b));
    }
    if first > 0 && first < a {
        assert(!pos.occupied(offset(kx, dx, first), offset(ky, dy, first)));
    }
    if first > a && first < b {
        assert(!pos.occupied(offset(kx, dx, first), offset(ky, dy, first)));
    }
}

/// On such a ray, with a piece of `side` at `first` and a piece beyond
/// `upto` that pins along the ray, the piece at `first` is pinned.
pub proof fn lemma_pin_found(
    pos: Position,
    side: Side,
    kx: int,
    ky: int,
    dx: int,
    dy: int,
    first: int,
    upto: int,
)
    requires
        pos.cells.len() == 64,
        in_bounds(kx, ky),
        pos.king_index(side) == ky * 8 + kx,
        unit_direction(dx, dy),
        0 < first <= upto < walk_len(kx, ky, edge(dx), edge(dy), dx, dy),
        pos.owned_by(offset(kx, dx, first), offset(ky, dy, first), side),
        forall|m: int|
            0 < m <= upto && m != first ==> !#[trigger] pos.ray_occupied(kx, ky, kx + dx, ky + dy, m),
        pos.owned_by(offset(kx, dx, upto + 1), offset(ky, dy, upto + 1), side.opposite()),
        is_pinner_kind(pos.kind_at(offset(kx, dx, upto + 1), offset(ky, dy, upto + 1)), dx, dy),
    ensures
        pos.pinned(side, offset(kx, dx, first), offset(ky, dy, first)),
        on_ray(kx, ky, dx, dy, offset(kx, dx, first), offset(ky, dy, first)),
        in_bounds(offset(kx, dx, first), offset(ky, dy, first)),
{
    let px = offset(kx, dx, first);
    let py = offset(ky, dy, first);
    let qx = offset(kx, dx, upto + 1);
    let qy = offset(ky, dy, upto + 1);
    lemma_ray_square(kx, ky, dx, dy, first);
    lemma_ray_square(kx, ky, dx, dy, upto + 1);
    assert forall|j: int| 0 < j < dist(kx, ky, px, py) implies !#[trigger] pos.ray_occupied(
        kx,
        ky,
        px,
        py,
        j,
    ) by {
        assert(!pos.ray_occupied(kx, ky, kx + dx, ky + dy, j));
    }
    assert forall|j: int| 0 < j < dist(px, py, qx, qy) implies !#[trigger] pos.ray_occupied(
        px,
        py,
        qx,
        qy,
        j,
    ) by {
        assert(!pos.ray_occupied(kx, ky, kx + dx, ky + dy, first + j));
        assert(offset(px, qx - px, j) == offset(kx, dx, first + j));
        assert(offset(py, qy - py, j) == offset(ky, dy, first + j));
    }
    assert(pos.king_x(side) == kx && pos.king_y(side) == ky);
    assert(pos.pinned_by(side, px, py, qx, qy));
}

/// What the walk along one ray from the king finds: the pinned pieces on
/// that ray are the one at `first`, if the walk marked it, and no other.
pub proof fn lemma_pin_ray_result(
    pos: Position,
    side: Side,
    kx: int,
    ky: int,
    dx: int,
    dy: int,
    first: int,
    upto: int,
    marked: bool,
    p: int,
)
    requires
        pos.cells.len() == 64,
        in_bounds(kx, ky),
        pos.king_index(side) == ky * 8 + kx,
        unit_direction(dx, dy),
        0 <= first <= upto <= walk_len(kx, ky, edge(dx), edge(dy), dx, dy),
        first > 0 ==> pos.owned_by(offset(kx, dx, first), offset(ky, dy, first), side),
        forall|m: int|
            0 < m <= upto && m != first ==> !#[trigger] pos.ray_occupied(kx, ky, kx + dx, ky + dy, m),
        upto < walk_len(kx, ky, edge(dx), edge(dy), dx, dy) ==> pos.ray_occupied(
            kx,
            ky,
            kx + dx,
            ky + dy,
            upto + 1,
        ),
        first == 0 && upto < walk_len(kx, ky, edge(dx), edge(dy), dx, dy) ==> !pos.owned_by(
            offset(kx, dx, upto + 1),
            offset(ky, dy, upto + 1),
            side,
        ),
        marked == (first > 0 && upto < walk_len(kx, ky, edge(dx), edge(dy), dx, dy) && pos.owned_by(
            offset(kx, dx, upto + 1),
            offset(ky, dy, upto + 1),
            side.opposite(),
        ) && is_pinner_kind(
            pos.kind_at(offset(kx, dx, upto + 1), offset(ky, dy, upto + 1)),
            dx,
            dy,
        )),
    ensures
        (0 <= p < 64 && on_ray(kx, ky, dx, dy, p % 8, p / 8) && pos.pinned(side, p % 8, p / 8)) <==> (
        marked && p == offset(ky, dy, first) * 8 + offset(kx, dx, first)),
{
    let px = p % 8;
    let py = p / 8;
    if 0 <= p < 64 && on_ray(kx, ky, dx, dy, px, py) && pos.pinned(side, px, py) {
        let (qx, qy) = choose|qx: int, qy: int| #[trigger] pos.pinned_by(side, px, py, qx, qy);
        lemma_pin_on_ray(pos, side, kx, ky, dx, dy, first, upto, px, py, qx, qy);
        assert(pos.king_x(side) == kx && pos.king_y(side) == ky);
        assert(slides_along(pos.kind_at(qx, qy), kx, ky, px, py));
        assert(is_pinner_kind(pos.kind_at(qx, qy), dx, dy));
        assert(marked);
    }
    if marked {
        lemma_pin_found(pos, side, kx, ky, dx, dy, first, upto);
        lemma_ray_square(kx, ky, dx, dy, first);
    }
}

} // verus!
