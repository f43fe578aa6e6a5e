//! The board: piece placement, side to move, castling rights, en-passant
//! target and move counters, with the attack and pin information derived
//! from them.

use vstd::prelude::*;
use crate::bitboard::{in_bounds, BitBoard};
use crate::pieces::{Piece, PieceType};
use crate::position::{back_rank_kind, empty_position, standard_cell, standard_position, Position};
use crate::side::{CastlingAbility, Side};

pub mod analysis;
pub mod bitboards;
pub mod piece;
pub mod state;

verus! {

/// All information about a chess board.
pub struct Board {
    /// Piece placement: one board per piece kind, both sides together.
    pub(crate) pieces: [BitBoard; 6],
    /// Placement of all white pieces.
    pub(crate) white: BitBoard,
    /// Placement of all black pieces.
    pub(crate) black: BitBoard,
    /// Side to move.
    pub(crate) side: Side,
    /// Castling rights: White's, then Black's.
    pub(crate) castling: [CastlingAbility; 2],
    /// En-passant target square.
    pub(crate) ep_target: Option<usize>,
    /// Halfmove clock.
    pub(crate) moves_to_50: u32,
    /// Fullmove counter.
    pub(crate) move_counter: u32,
    /// All black pieces attacking the white king.
    pub(crate) white_attacking_king: Vec<Piece>,
    /// All white pieces attacking the black king.
    pub(crate) black_attacking_king: Vec<Piece>,
    /// All squares attacked by Black.
    pub(crate) white_attacked: BitBoard,
    /// All squares attacked by White.
    pub(crate) black_attacked: BitBoard,
    /// Pinned white pieces.
    pub(crate) white_pinned: BitBoard,
    /// Pinned black pieces.
    pub(crate) black_pinned: BitBoard,
}

impl View for Board {
    type V = Position;

    /// The position that the board holds.
    open(crate) spec fn view(&self) -> Position {
        Position {
            cells: Seq::new(64, |i: int| self.cell(i)),
            side: self.side,
            white_castling: self.castling[0],
            black_castling: self.castling[1],
            ep_target: match self.ep_target {
                Some(t) => Some(t as int),
                None => None,
            },
            halfmove: self.moves_to_50 as int,
            fullmove: self.move_counter as int,
        }
    }
}

/// Whether the list of pieces describes, in order, the pieces that stand on
/// the listed squares of the position.
pub open spec fn describes_squares(pieces: Seq<Piece>, position: Position, squares: Seq<int>) -> bool {
    &&& pieces.len() == squares.len()
    &&& forall|i: int|
        0 <= i < pieces.len() ==> {
            &&& (#[trigger] pieces[i]).wf()
            &&& pieces[i].square() == squares[i]
            &&& position.cells[squares[i]] == Some((pieces[i].kind(), pieces[i].side()))
        }
}

impl Board {
    /// The squares that hold a piece of `side`.
    pub open(crate) spec fn side_board(self, side: Side) -> BitBoard {
        match side {
            Side::White => self.white,
            Side::Black => self.black,
        }
    }

    /// The squares that hold a piece of the kind with the given index.
    pub open(crate) spec fn kind_board(self, index: int) -> BitBoard {
        self.pieces[index]
    }

    /// The kind whose placement holds the square `i`; `Empty` if none does.
    pub open(crate) spec fn kind_on(self, i: int) -> PieceType {
        if self.pieces[0].has(i) {
            PieceType::Pawn
        } else if self.pieces[1].has(i) {
            PieceType::Knight
        } else if self.pieces[2].has(i) {
            PieceType::Bishop
        } else if self.pieces[3].has(i) {
            PieceType::Rook
        } else if self.pieces[4].has(i) {
            PieceType::Queen
        } else if self.pieces[5].has(i) {
            PieceType::King
        } else {
            PieceType::Empty
        }
    }

    /// What the placement says of the square `i`.
    pub open(crate) spec fn cell(self, i: int) -> Option<(PieceType, Side)> {
        if self.white.has(i) {
            Some((self.kind_on(i), Side::White))
        } else if self.black.has(i) {
            Some((self.kind_on(i), Side::Black))
        } else {
            None
        }
    }

    /// The placement is sound on the square `i`: at most one side and
    /// exactly one kind where a side stands, none elsewhere.
    pub open(crate) spec fn cell_wf(self, i: int) -> bool {
        &&& !(self.white.has(i) && self.black.has(i))
        &&& (self.white.has(i) || self.black.has(i)) == (self.kind_on(i) != PieceType::Empty)
        &&& self.pieces[1].has(i) ==> self.kind_on(i) == PieceType::Knight
        &&& self.pieces[2].has(i) ==> self.kind_on(i) == PieceType::Bishop
        &&& self.pieces[3].has(i) ==> self.kind_on(i) == PieceType::Rook
        &&& self.pieces[4].has(i) ==> self.kind_on(i) == PieceType::Queen
        &&& self.pieces[5].has(i) ==> self.kind_on(i) == PieceType::King
    }

    /// The placement is sound: the two sides share no square, and the
    /// squares of the two sides together are those of the six kinds, which
    /// share no square either.
    pub open(crate) spec fn placement_wf(self) -> bool {
        forall|i: int| 0 <= i < 64 ==> #[trigger] self.cell_wf(i)
    }

    /// The derived attack and pin information is that of the position.
    pub open(crate) spec fn derived_wf(self) -> bool {
        &&& self.white_attacked@ == self@.attacked(Side::White)
        &&& self.black_attacked@ == self@.attacked(Side::Black)
        &&& self.white_pinned@ == self@.pinned_squares(Side::White)
        &&& self.black_pinned@ == self@.pinned_squares(Side::Black)
        &&& describes_squares(self.white_attacking_king@, self@, self@.attackers(Side::White))
        &&& describes_squares(self.black_attacking_king@, self@, self@.attackers(Side::Black))
    }

    /// The squares attacked by the opponent of `side`, as last computed.
    pub open(crate) spec fn attacked_cache(self, side: Side) -> BitBoard {
        match side {
            Side::White => self.white_attacked,
            Side::Black => self.black_attacked,
        }
    }

    /// The pinned pieces of `side`, as last computed.
    pub open(crate) spec fn pinned_cache(self, side: Side) -> BitBoard {
        match side {
            Side::White => self.white_pinned,
            Side::Black => self.black_pinned,
        }
    }

    /// The pieces attacking the king of `side`, as last computed.
    pub open(crate) spec fn attackers_cache(self, side: Side) -> Seq<Piece> {
        match side {
            Side::White => self.white_attacking_king@,
            Side::Black => self.black_attacking_king@,
        }
    }

    /// The two boards hold the same position in the same placement.
    pub open(crate) spec fn same_layout(self, other: Board) -> bool {
        &&& self.pieces == other.pieces
        &&& self.white == other.white
        &&& self.black == other.black
        &&& self.side == other.side
        &&& self.castling == other.castling
        &&& self.ep_target == other.ep_target
        &&& self.moves_to_50 == other.moves_to_50
        &&& self.move_counter == other.move_counter
    }

    /// Boards with the same placement hold the same position.
    pub proof fn lemma_same_layout(self, other: Board)
        requires
            self.same_layout(other),
        ensures
            self@ == other@,
            self.placement_wf() == other.placement_wf(),
    {
        assert(self@.cells =~= other@.cells);
        if self.placement_wf() {
            assert forall|i: int| 0 <= i < 64 implies #[trigger] other.cell_wf(i) by {
                assert(self.cell_wf(i));
            }
        }
        if other.placement_wf() {
            assert forall|i: int| 0 <= i < 64 implies #[trigger] self.cell_wf(i) by {
                assert(other.cell_wf(i));
            }
        }
    }

    /// The two boards have the same placement boards.
    pub open(crate) spec fn same_placement(self, other: Board) -> bool {
        &&& self.pieces == other.pieces
        &&& self.white == other.white
        &&& self.black == other.black
    }

    /// Boards with the same placement boards have the same squares, and
    /// the placement of one is sound if that of the other is.
    pub proof fn lemma_same_placement(self, other: Board)
        requires
            self.same_placement(other),
        ensures
            self@.cells == other@.cells,
            self.placement_wf() == other.placement_wf(),
    {
        assert(self@.cells =~= other@.cells);
        if self.placement_wf() {
            assert forall|i: int| 0 <= i < 64 implies #[trigger] other.cell_wf(i) by {
                assert(self.cell_wf(i));
            }
        }
        if other.placement_wf() {
            assert forall|i: int| 0 <= i < 64 implies #[trigger] self.cell_wf(i) by {
                assert(other.cell_wf(i));
            }
        }
    }

    /// The two boards carry the same derived information.
    pub open(crate) spec fn same_derived(self, other: Board) -> bool {
        &&& self.white_attacking_king == other.white_attacking_king
        &&& self.black_attacking_king == other.black_attacking_king
        &&& self.white_attacked == other.white_attacked
        &&& self.black_attacked == other.black_attacked
        &&& self.white_pinned == other.white_pinned
        &&& self.black_pinned == other.black_pinned
    }

    /// The board is sound: its placement, its position and its derived
    /// information.
    pub open(crate) spec fn wf(self) -> bool {
        &&& self.placement_wf()
        &&& self@.valid()
        &&& self.derived_wf()
    }

    /// The board's position has 64 squares, and they are those of the placement.
    pub proof fn lemma_view_cells(self)
        ensures
            self@.cells.len() == 64,
            forall|i: int| 0 <= i < 64 ==> #[trigger] self@.cells[i] == self.cell(i),
    {
    }

    /// In a sound placement every piece on the board has a kind.
    pub proof fn lemma_kinds(self)
        requires
            self.placement_wf(),
        ensures
            forall|i: int|
                0 <= i < 64 ==> match #[trigger] self@.cells[i] {
                    Some(c) => c.0 != PieceType::Empty,
                    None => true,
                },
    {
        assert forall|i: int| 0 <= i < 64 implies match #[trigger] self@.cells[i] {
            Some(c) => c.0 != PieceType::Empty,
            None => true,
        } by {
            assert(self.cell_wf(i));
        }
    }

    /// In a sound placement a side's board holds the squares on which the
    /// position has a piece of that side.
    pub proof fn lemma_side_board(self, side: Side)
        requires
            self.placement_wf(),
        ensures
            forall|i: int|
                0 <= i < 64 ==> (#[trigger] self.side_board(side)@.contains(i) <==> match self@.cells[i] {
                    Some(c) => c.1 == side,
                    None => false,
                }),
            forall|i: int| !(0 <= i < 64) ==> !self.side_board(side)@.contains(i),
    {
        assert forall|i: int| 0 <= i < 64 implies (#[trigger] self.side_board(side)@.contains(i)
            <==> match self@.cells[i] {
            Some(c) => c.1 == side,
            None => false,
        }) by {
            assert(self.cell_wf(i));
        }
    }

    /// In a sound placement the two sides share no square: no position
    /// reached by this library has a square that is both White's and Black's.
    pub proof fn lemma_sides_disjoint(self)
        requires
            self.placement_wf(),
        ensures
            self.side_board(Side::White)@.disjoint(self.side_board(Side::Black)@),
            forall|i: int|
                0 <= i < 64 ==> ((self.side_board(Side::White)@.contains(i) || self.side_board(
                    Side::Black,
                )@.contains(i)) <==> exists|k: int| 0 <= k < 6 && #[trigger] self.kind_board(k)@.contains(i)),
    {
        assert forall|i: int|
            !(self.side_board(Side::White)@.contains(i) && self.side_board(Side::Black)@.contains(
                i,
            )) by {
            if 0 <= i < 64 {
                assert(self.cell_wf(i));
            }
        }
        assert forall|i: int| 0 <= i < 64 implies ((self.side_board(Side::White)@.contains(i)
            || self.side_board(Side::Black)@.contains(i)) <==> exists|k: int|
            0 <= k < 6 && #[trigger] self.kind_board(k)@.contains(i)) by {
            assert(self.cell_wf(i));
            let kind = self.kind_on(i);
            if kind != PieceType::Empty {
                assert(self.kind_board(kind.index())@.contains(i));
            }
        }
    }

    /// A sound board is sound in each part.
    pub proof fn lemma_wf(self)
        requires
            self.wf(),
        ensures
            self.placement_wf(),
            self@.valid(),
            self.derived_wf(),
    {
    }

    /// The board with no piece on it.
    pub fn new() -> (r: Board)
        ensures
            r.wf(),
            r@ == empty_position(),
    {
        let mut board = Board {
            pieces: [BitBoard::empty(); 6],
            white: BitBoard::empty(),
            black: BitBoard::empty(),
            side: Side::White,
            castling: [CastlingAbility::Neither, CastlingAbility::Neither],
            ep_target: None,
            moves_to_50: 0,
            move_counter: 0,
            white_attacking_king: Vec::new(),
            black_attacking_king: Vec::new(),
            white_attacked: BitBoard::empty(),
            black_attacked: BitBoard::empty(),
            white_pinned: BitBoard::empty(),
            black_pinned: BitBoard::empty(),
        };
        proof {
            assert forall|i: int| 0 <= i < 64 implies #[trigger] board.cell_wf(i) by {}
            assert(board@.cells =~= empty_position().cells);
        }
        board.update_calculations();
        board
    }

    /// The kind of piece that starts on the given file of the home rank.
    fn back_rank(file: usize) -> (r: PieceType)
        ensures
            r == back_rank_kind(file as int),
            r != PieceType::Empty,
    {
        match file {
            0 | 7 => PieceType::Rook,
            1 | 6 => PieceType::Knight,
            2 | 5 => PieceType::Bishop,
            3 => PieceType::Queen,
            _ => PieceType::King,
        }
    }

    /// The board on which a game starts.
    pub fn standard() -> (r: Board)
        ensures
            r.wf(),
            r@ == standard_position(),
    {
        let mut board = Board::new();
        let mut file: usize = 0;
        proof {
            board.lemma_wf();
        }
        while file < 8
            invariant
                file <= 8,
                board.placement_wf(),
                board@.cells.len() == 64,
                forall|i: int|
                    0 <= i < 64 ==> #[trigger] board@.cells[i] == (if i % 8 < file {
                        standard_cell(i)
                    } else {
                        None
                    }),
                board@.side == Side::White,
                board@.white_castling == CastlingAbility::Neither,
                board@.black_castling == CastlingAbility::Neither,
                board@.ep_target is None,
                board@.halfmove == 0,
                board@.fullmove == 0,
            decreases 8 - file,
        {
            let kind = Board::back_rank(file);
            board.set_piece(file, kind, Side::White, true);
            board.set_piece(8 + file, PieceType::Pawn, Side::White, true);
            board.set_piece(48 + file, PieceType::Pawn, Side::Black, true);
            board.set_piece(56 + file, kind, Side::Black, true);
            file += 1;
        }
        let ghost placed = board;
        board.castling = [CastlingAbility::Both, CastlingAbility::Both];
        board.move_counter = 1;
        proof {
            board.lemma_same_placement(placed);
            assert(board@.cells =~= standard_position().cells);
            assert(board@ == standard_position());
            assert(board@.valid());
        }
        board.update_calculations();
        board
    }

    /// Whether `(x, y)` names a square of the board.
    #[inline]
    pub fn is_inbounds(x: usize, y: usize) -> (r: bool)
        ensures
            r == in_bounds(x as int, y as int),
    {
        x < 8 && y < 8
    }

    /// The en-passant target square, if one is set.
    #[inline]
    pub fn get_ep_target(&self) -> (r: Option<usize>)
        ensures
            match r {
                Some(t) => self@.ep_target == Some(t as int),
                None => self@.ep_target is None,
            },
    {
        self.ep_target
    }

    /// The side to move.
    #[inline]
    pub fn get_playing_side(&self) -> (r: Side)
        ensures
            r == self@.side,
    {
        self.side
    }

    /// The castling rights of `side`.
    pub fn get_castling(&self, side: Side) -> (r: CastlingAbility)
        ensures
            r == self@.castling(side),
    {
        match side {
            Side::White => self.castling[0],
            Side::Black => self.castling[1],
        }
    }

    /// What was derived for `side`: its pinned pieces, the opposing pieces
    /// that attack its king, and the squares that its opponent attacks.
    pub fn get_side_computed_boards(&self, side: Side) -> (r: (BitBoard, &Vec<Piece>, BitBoard))
        ensures
            r.0 == self.pinned_cache(side),
            r.1@ == self.attackers_cache(side),
            r.2 == self.attacked_cache(side),
            self.wf() ==> {
                &&& r.0@ == self@.pinned_squares(side)
                &&& describes_squares(r.1@, self@, self@.attackers(side))
                &&& r.2@ == self@.attacked(side)
            },
    {
        match side {
            Side::White => (self.white_pinned, &self.white_attacking_king, self.white_attacked),
            Side::Black => (self.black_pinned, &self.black_attacking_king, self.black_attacked),
        }
    }

    /// In a sound board the derived information of each side is that of
    /// the position.
    pub proof fn lemma_caches(self, side: Side)
        requires
            self.wf(),
        ensures
            self.attacked_cache(side)@ == self@.attacked(side),
            self.pinned_cache(side)@ == self@.pinned_squares(side),
            describes_squares(self.attackers_cache(side), self@, self@.attackers(side)),
    {
    }

    /// The halfmove clock: moves since the last capture or pawn move.
    #[inline]
    pub fn get_moves_to_50(&self) -> (r: u32)
        ensures
            r as int == self@.halfmove,
    {
        self.moves_to_50
    }

    /// The fullmove counter.
    #[inline]
    pub fn get_move_counter(&self) -> (r: u32)
        ensures
            r as int == self@.fullmove,
    {
        self.move_counter
    }
}

impl Default for Board {
    /// The board on which a game starts.
    fn default() -> (r: Board)
        ensures
            r.wf(),
            r@ == standard_position(),
    {
        Board::standard()
    }
}

} // verus!
