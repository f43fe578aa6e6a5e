//! Piece kinds, and the description of one piece on its square.

use vstd::prelude::*;
use crate::bitboard::BitBoard;
use crate::board::Board;
use crate::side::Side;

pub mod bishop;
pub mod king;
pub mod knight;
pub mod pawn;
pub mod queen;
pub mod rook;

verus! {

/// The types of pieces.
///
/// This represents what is on a square of the board and can therefore be
/// `Empty` as well; `Empty` is an answer to a query and is never stored.
#[derive(Copy, Clone, PartialEq, Eq, Debug, Structural)]
pub enum PieceType {
    Empty,
    Pawn,
    Knight,
    Bishop,
    Rook,
    Queen,
    King,
}

impl PieceType {
    /// The dense index of a piece kind: Pawn 0 ... King 5; -1 for `Empty`.
    pub open spec fn index(self) -> int {
        match self {
            PieceType::Empty => -1,
            PieceType::Pawn => 0,
            PieceType::Knight => 1,
            PieceType::Bishop => 2,
            PieceType::Rook => 3,
            PieceType::Queen => 4,
            PieceType::King => 5,
        }
    }

    /// The piece kind with the given dense index; `Empty` for any other number.
    pub open spec fn of_index(value: int) -> PieceType {
        if value == 0 {
            PieceType::Pawn
        } else if value == 1 {
            PieceType::Knight
        } else if value == 2 {
            PieceType::Bishop
        } else if value == 3 {
            PieceType::Rook
        } else if value == 4 {
            PieceType::Queen
        } else if value == 5 {
            PieceType::King
        } else {
            PieceType::Empty
        }
    }

    /// Whether the kind moves along lines until it is blocked.
    pub open spec fn is_slider(self) -> bool {
        self == PieceType::Bishop || self == PieceType::Rook || self == PieceType::Queen
    }

    /// The dense index of a piece kind, which selects its placement board.
    pub fn to_value(self) -> (r: usize)
        requires
            self != PieceType::Empty,
        ensures
            r as int == self.index(),
            r < 6,
    {
        match self {
            PieceType::Pawn => 0,
            PieceType::Knight => 1,
            PieceType::Bishop => 2,
            PieceType::Rook => 3,
            PieceType::Queen => 4,
            _ => 5,
        }
    }

    /// The piece kind with the given dense index; `Empty` for any other number.
    pub fn from_value(value: i8) -> (r: PieceType)
        ensures
            r == PieceType::of_index(value as int),
    {
        match value {
            0 => PieceType::Pawn,
            1 => PieceType::Knight,
            2 => PieceType::Bishop,
            3 => PieceType::Rook,
            4 => PieceType::Queen,
            5 => PieceType::King,
            _ => PieceType::Empty,
        }
    }
}

/// The two mappings between kinds and indices undo each other.
pub proof fn lemma_index_round_trip(kind: PieceType, value: int)
    ensures
        kind != PieceType::Empty ==> PieceType::of_index(kind.index()) == kind,
        0 <= value < 6 ==> PieceType::of_index(value).index() == value,
        PieceType::of_index(value) == PieceType::Empty <==> !(0 <= value < 6),
{
}

/// All information about a piece on the board: a transient description,
/// made from the board on demand.
#[derive(Copy, Clone, PartialEq, Eq, Debug, Structural)]
pub struct Piece {
    piece: PieceType,
    color: Side,
    x: u8,
    y: u8,
}

impl Piece {
    #[verifier::type_invariant]
    closed spec fn on_board(self) -> bool {
        self.x < 8 && self.y < 8
    }

    /// The kind of the piece.
    pub closed spec fn kind(self) -> PieceType {
        self.piece
    }

    /// The side that owns the piece.
    pub closed spec fn side(self) -> Side {
        self.color
    }

    /// The file of the piece's square, 0 to 7.
    pub closed spec fn file(self) -> int {
        self.x as int
    }

    /// The rank of the piece's square, 0 to 7.
    pub closed spec fn rank(self) -> int {
        self.y as int
    }

    /// The index of the piece's square.
    pub open spec fn square(self) -> int {
        self.rank() * 8 + self.file()
    }

    /// Whether the description lies on the board.
    pub open spec fn wf(self) -> bool {
        0 <= self.file() < 8 && 0 <= self.rank() < 8
    }

    /// The description of a piece of the given kind and side at `(x, y)`.
    pub open spec fn describes(self, kind: PieceType, side: Side, x: int, y: int) -> bool {
        self.kind() == kind && self.side() == side && self.file() == x && self.rank() == y
    }

    /// Describes the piece of kind `piece` and side `color` on file `x`, rank `y`.
    pub fn new(piece: PieceType, color: Side, x: usize, y: usize) -> (r: Self)
        requires
            x < 8,
            y < 8,
        ensures
            r.describes(piece, color, x as int, y as int),
            r.wf(),
    {
        Piece { piece, color, x: x as u8, y: y as u8 }
    }

    /// Get the PieceType of a piece.
    pub fn get_piece_type(&self) -> (r: PieceType)
        ensures
            r == self.kind(),
    {
        self.piece
    }

    /// Get the index of the square that this piece is on.
    pub fn get_occupied_slot(&self) -> (r: usize)
        ensures
            r as int == self.square(),
            r < 64,
            self.wf(),
    {
        proof {
            use_type_invariant(self);
        }
        (self.y as usize) * 8 + (self.x as usize)
    }

    /// Get the coordinate of this piece: file, then rank.
    pub fn get_pos_as_usize(&self) -> (r: (usize, usize))
        ensures
            r.0 as int == self.file(),
            r.1 as int == self.rank(),
            self.wf(),
    {
        proof {
            use_type_invariant(self);
        }
        (self.x as usize, self.y as usize)
    }

    /// Get the color of this piece.
    pub fn get_color(&self) -> (r: Side)
        ensures
            r == self.side(),
    {
        self.color
    }

    /// Whether this piece may legally go to the square `index`.
    pub fn is_allowed_move(&self, board: &Board, index: usize) -> (r: bool)
        requires
            board.wf(),
        ensures
            r == board@.legal_targets(self.kind(), self.side(), self.file(), self.rank()).contains(
                index as int,
            ),
    {
        self.get_possible_moves(board).get(index)
    }

    /// The legal destinations of this piece on `board`.
    pub fn get_possible_moves(&self, board: &Board) -> (r: BitBoard)
        requires
            board.wf(),
        ensures
            r@ == board@.legal_targets(self.kind(), self.side(), self.file(), self.rank()),
    {
        match self.piece {
            PieceType::Pawn => pawn::get_allowed_moves(self, board),
            PieceType::Knight => knight::get_allowed_moves(self, board),
            PieceType::Bishop => bishop::get_allowed_moves(self, board),
            PieceType::Rook => rook::get_allowed_moves(self, board),
            PieceType::Queen => queen::get_allowed_moves(self, board),
            PieceType::King => king::get_allowed_moves(self, board),
            PieceType::Empty => {
                let r = BitBoard::empty();
                assert(r@ =~= board@.legal_targets(
                    self.kind(),
                    self.side(),
                    self.file(),
                    self.rank(),
                ));
                r
            },
        }
    }

    /// The squares that this piece attacks on `board`.
    pub fn get_attacked_square(&self, board: &Board) -> (r: BitBoard)
        requires
            board.placement_wf(),
        ensures
            r@ == board@.attack_targets(self.kind(), self.side(), self.file(), self.rank()),
    {
        match self.piece {
            PieceType::Pawn => pawn::get_attacked_squares(self, board),
            PieceType::Knight => knight::get_attacked_squares(self, board),
            PieceType::Bishop => bishop::get_attacked_squares(self, board),
            PieceType::Rook => rook::get_attacked_squares(self, board),
            PieceType::Queen => queen::get_attacked_squares(self, board),
            PieceType::King => king::get_attacked_squares(self, board),
            PieceType::Empty => {
                let r = BitBoard::empty();
                assert(r@ =~= board@.attack_targets(
                    self.kind(),
                    self.side(),
                    self.file(),
                    self.rank(),
                ));
                r
            },
        }
    }
}

/// Adds to `board` the square that lies `dx` files and `dy` ranks from
/// `(x, y)`, when that square is on the board.
pub(crate) fn set_offset(board: &mut BitBoard, x: usize, y: usize, dx: isize, dy: isize)
    requires
        x < 8,
        y < 8,
        -2 <= dx <= 2,
        -2 <= dy <= 2,
    ensures
        forall|j: int|
            #[trigger] final(board).has(j) == (old(board).has(j) || (0 <= j < 64 && j % 8 == x + dx
                && j / 8 == y + dy)),
{
    let nx: isize = x as isize + dx;
    let ny: isize = y as isize + dy;
    if nx >= 0 && ny >= 0 {
        let always = |x: usize, y: usize| -> (b: bool)
            ensures
                b,
            { true };
        board.predicate_and_set(nx as usize, ny as usize, always);
    }
}

/// Of the squares that a knight, bishop, rook or queen attacks, those to
/// which it may legally go: the ones that hold no piece of its own side
/// and that the king-safety rule allows.
pub(crate) fn restrict_to_legal(piece: &Piece, board: &Board, attack: BitBoard) -> (r: BitBoard)
    requires
        board.wf(),
        piece.kind() != PieceType::Empty,
        piece.kind() != PieceType::Pawn,
        piece.kind() != PieceType::King,
        attack@ == board@.attack_targets(piece.kind(), piece.side(), piece.file(), piece.rank()),
    ensures
        r@ == board@.legal_targets(piece.kind(), piece.side(), piece.file(), piece.rank()),
{
    proof {
        board.lemma_wf();
        board.lemma_side_board(piece.side());
        board.lemma_view_cells();
    }
    let open = board.get_opponent_and_empty_squares_board(piece.get_color());
    let reach = attack.intersection(open);
    let r = board.filter_king_safety(reach, piece);
    proof {
        let pos = board@;
        assert forall|t: int| 0 <= t < 64 implies (reach.has(t) <==> pos.reaches(
            piece.kind(),
            piece.side(),
            piece.file(),
            piece.rank(),
            t % 8,
            t / 8,
        )) by {
            assert(open.has(t) == open@.contains(t));
            assert(attack.has(t) == attack@.contains(t));
            assert(board.side_board(piece.side())@.contains(t) == pos.owned_by(
                t % 8,
                t / 8,
                piece.side(),
            ));
        }
        assert forall|t: int|
            r@.contains(t) <==> pos.legal_targets(
                piece.kind(),
                piece.side(),
                piece.file(),
                piece.rank(),
            ).contains(t) by {
            assert(r@.contains(t) == r.has(t));
        }
        assert(r@ =~= pos.legal_targets(piece.kind(), piece.side(), piece.file(), piece.rank()));
    }
    r
}

} // verus!
