//! The mathematical model of a chess position and the rules stated over it.
//!
//! A position is what is on each of the 64 squares, the side to move, the
//! castling rights, the en-passant target and the two move counters. The
//! attacked squares, the pieces giving check and the pinned pieces are
//! functions of it; so are the legal destinations of each piece, the
//! position after a move and the state of the game.

use vstd::prelude::*;
use crate::bitboard::in_bounds;
use crate::chess::State;
use crate::coordinates::{offset, sign};
use crate::pieces::PieceType;
use crate::side::{CastlingAbility, Side};

verus! {

/// The absolute value of `d`.
pub open spec fn abs(d: int) -> int {
    if d < 0 {
        -d
    } else {
        d
    }
}

/// The number of king steps from `(ax, ay)` to `(bx, by)`.
pub open spec fn dist(ax: int, ay: int, bx: int, by: int) -> int {
    if abs(bx - ax) >= abs(by - ay) {
        abs(bx - ax)
    } else {
        abs(by - ay)
    }
}

/// Two different squares on one rank or one file.
pub open spec fn straight(ax: int, ay: int, bx: int, by: int) -> bool {
    (ax == bx) != (ay == by)
}

/// Two different squares on one diagonal.
pub open spec fn diagonal(ax: int, ay: int, bx: int, by: int) -> bool {
    ax != bx && abs(bx - ax) == abs(by - ay)
}

/// Two different squares on one rank, file or diagonal.
pub open spec fn aligned(ax: int, ay: int, bx: int, by: int) -> bool {
    straight(ax, ay, bx, by) || diagonal(ax, ay, bx, by)
}

/// `(tx, ty)` lies on the line from `(ax, ay)` to `(bx, by)`, strictly
/// between the two.
pub open spec fn strictly_between(ax: int, ay: int, bx: int, by: int, tx: int, ty: int) -> bool {
    &&& aligned(ax, ay, tx, ty)
    &&& aligned(tx, ty, bx, by)
    &&& sign(tx - ax) == sign(bx - tx)
    &&& sign(ty - ay) == sign(by - ty)
}

/// One of the eight directions: each component -1, 0 or 1, not both 0.
pub open spec fn unit_direction(dx: int, dy: int) -> bool {
    -1 <= dx <= 1 && -1 <= dy <= 1 && !(dx == 0 && dy == 0)
}

/// `(tx, ty)` lies on the ray that leaves `(ax, ay)` in the direction `(dx, dy)`.
pub open spec fn on_ray(ax: int, ay: int, dx: int, dy: int, tx: int, ty: int) -> bool {
    aligned(ax, ay, tx, ty) && sign(tx - ax) == dx && sign(ty - ay) == dy
}

/// The `j`-th square of a ray that runs to the edge of the board lies on
/// the board, on the ray and at distance `j`, and is the only such square.
pub proof fn lemma_ray_square(sx: int, sy: int, dx: int, dy: int, j: int)
    requires
        in_bounds(sx, sy),
        unit_direction(dx, dy),
        0 < j <= crate::coordinates::walk_len(
            sx,
            sy,
            crate::coordinates::edge(dx),
            crate::coordinates::edge(dy),
            dx,
            dy,
        ),
    ensures
        in_bounds(offset(sx, dx, j), offset(sy, dy, j)),
        on_ray(sx, sy, dx, dy, offset(sx, dx, j), offset(sy, dy, j)),
        dist(sx, sy, offset(sx, dx, j), offset(sy, dy, j)) == j,
        forall|tx: int, ty: int|
            on_ray(sx, sy, dx, dy, tx, ty) && #[trigger] dist(sx, sy, tx, ty) == j ==> tx == offset(
                sx,
                dx,
                j,
            ) && ty == offset(sy, dy, j),
{
}

/// A square of the board that lies on a ray is no further from the start
/// than the ray is long.
pub proof fn lemma_ray_covers(sx: int, sy: int, dx: int, dy: int, tx: int, ty: int)
    requires
        in_bounds(sx, sy),
        in_bounds(tx, ty),
        unit_direction(dx, dy),
        on_ray(sx, sy, dx, dy, tx, ty),
    ensures
        0 < dist(sx, sy, tx, ty) <= crate::coordinates::walk_len(
            sx,
            sy,
            crate::coordinates::edge(dx),
            crate::coordinates::edge(dy),
            dx,
            dy,
        ),
        tx == offset(sx, dx, dist(sx, sy, tx, ty)),
        ty == offset(sy, dy, dist(sx, sy, tx, ty)),
        forall|j: int| offset(sx, tx - sx, j) == offset(sx, dx, j),
        forall|j: int| offset(sy, ty - sy, j) == offset(sy, dy, j),
{
}

/// The walk from a square to an aligned one meets the squares strictly
/// between the two and then the end, and no other.
pub proof fn lemma_walk_between(ax: int, ay: int, bx: int, by: int, tx: int, ty: int)
    requires
        aligned(ax, ay, bx, by),
    ensures
        crate::coordinates::walk(ax, ay, bx, by, sign(bx - ax), sign(by - ay)).contains((tx, ty))
            <==> ((tx == bx && ty == by) || strictly_between(ax, ay, bx, by, tx, ty)),
{
    let dx = sign(bx - ax);
    let dy = sign(by - ay);
    let n = crate::coordinates::walk_len(ax, ay, bx, by, dx, dy);
    let w = crate::coordinates::walk(ax, ay, bx, by, dx, dy);
    assert(n == dist(ax, ay, bx, by));
    assert(w.len() == n);
    if w.contains((tx, ty)) {
        let j = choose|j: int| 0 <= j < w.len() && w[j] == (tx, ty);
        assert(tx == offset(ax, dx, j + 1) && ty == offset(ay, dy, j + 1));
    }
    if (tx == bx && ty == by) || strictly_between(ax, ay, bx, by, tx, ty) {
        let j = dist(ax, ay, tx, ty) - 1;
        assert(0 <= j < n);
        assert(w[j] == (tx, ty));
    }
}

/// Whether a piece of the given kind slides along the line through the two
/// squares: a queen along any line, a rook along ranks and files, a bishop
/// along diagonals.
pub open spec fn slides_along(kind: PieceType, ax: int, ay: int, bx: int, by: int) -> bool {
    ||| kind == PieceType::Queen && aligned(ax, ay, bx, by)
    ||| kind == PieceType::Rook && straight(ax, ay, bx, by)
    ||| kind == PieceType::Bishop && diagonal(ax, ay, bx, by)
}

/// A move from `(px, py)` to `(tx, ty)` stays on the line through
/// `(kx, ky)` and `(px, py)`: it runs along a line, in the direction from
/// `(kx, ky)` to `(px, py)` or in the opposite one.
pub open spec fn on_pin_line(kx: int, ky: int, px: int, py: int, tx: int, ty: int) -> bool {
    &&& aligned(px, py, tx, ty)
    &&& {
        ||| sign(tx - px) == sign(px - kx) && sign(ty - py) == sign(py - ky)
        ||| sign(tx - px) == -sign(px - kx) && sign(ty - py) == -sign(py - ky)
    }
}

/// The rank from which a side's pawns start.
pub open spec fn pawn_rank(side: Side) -> int {
    side.home_rank() + side.forward()
}

/// The largest value the move counters take; they stay there.
pub open spec fn counter_max() -> int {
    u32::MAX as int
}

/// A counter raised by one, unless it is at its largest value.
pub open spec fn bump(counter: int) -> int {
    if counter < counter_max() {
        counter + 1
    } else {
        counter
    }
}

/// The castling rights left to a side after it has moved a piece of the
/// given kind from the given file: none after a king's move; after a
/// rook's move from the a-file the right to the queen's wing is lost, from
/// the h-file that to the king's wing.
pub open spec fn rights_after_own_move(rights: CastlingAbility, kind: PieceType, file: int) -> CastlingAbility {
    if kind == PieceType::King {
        CastlingAbility::Neither
    } else if kind == PieceType::Rook && file == 0 {
        rights.without(CastlingAbility::Queen)
    } else if kind == PieceType::Rook && file == 7 {
        rights.without(CastlingAbility::King)
    } else {
        rights
    }
}

/// The castling rights left to a side after a rook of its own has been
/// captured on the given file of its home rank.
pub open spec fn rights_after_rook_loss(rights: CastlingAbility, file: int) -> CastlingAbility {
    if file == 0 {
        rights.without(CastlingAbility::Queen)
    } else if file == 7 {
        rights.without(CastlingAbility::King)
    } else {
        rights
    }
}

/// The kind of piece that starts on the given file of a side's home rank.
pub open spec fn back_rank_kind(file: int) -> PieceType {
    if file == 0 || file == 7 {
        PieceType::Rook
    } else if file == 1 || file == 6 {
        PieceType::Knight
    } else if file == 2 || file == 5 {
        PieceType::Bishop
    } else if file == 3 {
        PieceType::Queen
    } else {
        PieceType::King
    }
}

/// What stands on the square `i` when a game starts.
pub open spec fn standard_cell(i: int) -> Option<(PieceType, Side)> {
    if i / 8 == 0 {
        Some((back_rank_kind(i % 8), Side::White))
    } else if i / 8 == 1 {
        Some((PieceType::Pawn, Side::White))
    } else if i / 8 == 6 {
        Some((PieceType::Pawn, Side::Black))
    } else if i / 8 == 7 {
        Some((back_rank_kind(i % 8), Side::Black))
    } else {
        None
    }
}

/// The position from which a game starts: White to move, both sides with
/// both castling rights, no en-passant target, the clock at 0, move 1.
pub open spec fn standard_position() -> Position {
    Position {
        cells: Seq::new(64, |i: int| standard_cell(i)),
        side: Side::White,
        white_castling: CastlingAbility::Both,
        black_castling: CastlingAbility::Both,
        ep_target: None,
        halfmove: 0,
        fullmove: 1,
    }
}

/// The position with no piece on the board: White to move, no castling
/// rights, no en-passant target, both counters at 0.
pub open spec fn empty_position() -> Position {
    Position {
        cells: Seq::new(64, |i: int| None),
        side: Side::White,
        white_castling: CastlingAbility::Neither,
        black_castling: CastlingAbility::Neither,
        ep_target: None,
        halfmove: 0,
        fullmove: 0,
    }
}

/// A chess position.
pub struct Position {
    /// What stands on each square, by square index (a1 = 0 ... h8 = 63).
    pub cells: Seq<Option<(PieceType, Side)>>,
    /// The side to move.
    pub side: Side,
    /// White's castling rights.
    pub white_castling: CastlingAbility,
    /// Black's castling rights.
    pub black_castling: CastlingAbility,
    /// The square passed over by a pawn that has just advanced two ranks.
    pub ep_target: Option<int>,
    /// Moves since the last capture or pawn move, by either side.
    pub halfmove: int,
    /// The number of the move, raised after each move of Black.
    pub fullmove: int,
}

impl Position {
    /// What stands on `(x, y)`; nothing stands off the board.
    pub open spec fn at(self, x: int, y: int) -> Option<(PieceType, Side)> {
        if in_bounds(x, y) {
            self.cells[y * 8 + x]
        } else {
            None
        }
    }

    /// Whether a piece stands on `(x, y)`.
    pub open spec fn occupied(self, x: int, y: int) -> bool {
        self.at(x, y) is Some
    }

    /// Whether a piece of the given kind and side stands on `(x, y)`.
    pub open spec fn holds(self, x: int, y: int, kind: PieceType, side: Side) -> bool {
        self.at(x, y) == Some((kind, side))
    }

    /// Whether a piece of `side` stands on `(x, y)`.
    pub open spec fn owned_by(self, x: int, y: int, side: Side) -> bool {
        match self.at(x, y) {
            Some(c) => c.1 == side,
            None => false,
        }
    }

    /// The kind of the piece on `(x, y)`, `Empty` if none stands there.
    pub open spec fn kind_at(self, x: int, y: int) -> PieceType {
        match self.at(x, y) {
            Some(c) => c.0,
            None => PieceType::Empty,
        }
    }

    /// The castling rights of `side`.
    pub open spec fn castling(self, side: Side) -> CastlingAbility {
        match side {
            Side::White => self.white_castling,
            Side::Black => self.black_castling,
        }
    }

    /// An en-passant target is an empty square on the third rank of the
    /// side that has just moved, with a pawn of that side in front of it.
    pub open spec fn ep_valid(self) -> bool {
        match self.ep_target {
            None => true,
            Some(t) => {
                let mover = self.side.opposite();
                &&& 0 <= t < 64
                &&& t / 8 == pawn_rank(mover) + mover.forward()
                &&& !self.occupied(t % 8, t / 8)
                &&& self.holds(t % 8, t / 8 + mover.forward(), PieceType::Pawn, mover)
            },
        }
    }

    /// What holds of every position: 64 squares, no `Empty` piece stored,
    /// a sound en-passant target, counters within their range.
    pub open spec fn valid(self) -> bool {
        &&& self.cells.len() == 64
        &&& forall|i: int|
            0 <= i < 64 ==> match #[trigger] self.cells[i] {
                Some(c) => c.0 != PieceType::Empty,
                None => true,
            }
        &&& self.ep_valid()
        &&& 0 <= self.halfmove <= counter_max()
        &&& 0 <= self.fullmove <= counter_max()
    }

    /// Whether the `j`-th square on the way from `(ax, ay)` towards
    /// `(bx, by)` is occupied.
    pub open spec fn ray_occupied(self, ax: int, ay: int, bx: int, by: int, j: int) -> bool {
        self.occupied(offset(ax, bx - ax, j), offset(ay, by - ay, j))
    }

    /// Whether every square strictly between two aligned squares is empty.
    pub open spec fn path_clear(self, ax: int, ay: int, bx: int, by: int) -> bool {
        forall|j: int|
            0 < j < dist(ax, ay, bx, by) ==> !#[trigger] self.ray_occupied(ax, ay, bx, by, j)
    }

    /// Whether a piece of the given kind and side on `(ax, ay)` attacks
    /// `(tx, ty)`: the raw threat, whoever is to move and whatever stands
    /// on the target. A pawn attacks the two squares diagonally ahead; a
    /// slider attacks along its lines up to and including the first
    /// occupied square.
    pub open spec fn attacks(
        self,
        kind: PieceType,
        side: Side,
        ax: int,
        ay: int,
        tx: int,
        ty: int,
    ) -> bool {
        in_bounds(tx, ty) && match kind {
            PieceType::Empty => false,
            PieceType::Pawn => abs(tx - ax) == 1 && ty - ay == side.forward(),
            PieceType::Knight => (abs(tx - ax) == 1 && abs(ty - ay) == 2) || (abs(tx - ax) == 2
                && abs(ty - ay) == 1),
            PieceType::Bishop => diagonal(ax, ay, tx, ty) && self.path_clear(ax, ay, tx, ty),
            PieceType::Rook => straight(ax, ay, tx, ty) && self.path_clear(ax, ay, tx, ty),
            PieceType::Queen => aligned(ax, ay, tx, ty) && self.path_clear(ax, ay, tx, ty),
            PieceType::King => dist(ax, ay, tx, ty) == 1,
        }
    }

    /// The squares attacked by a piece of the given kind and side on `(ax, ay)`.
    pub open spec fn attack_targets(self, kind: PieceType, side: Side, ax: int, ay: int) -> Set<
        int,
    > {
        Set::new(|t: int| 0 <= t < 64 && self.attacks(kind, side, ax, ay, t % 8, t / 8))
    }

    /// Whether a piece of `side` stands on the square `from` and attacks `(tx, ty)`.
    pub open spec fn attacks_from(self, from: int, side: Side, tx: int, ty: int) -> bool {
        0 <= from < 64 && match self.cells[from] {
            Some(c) => c.1 == side && self.attacks(c.0, side, from % 8, from / 8, tx, ty),
            None => false,
        }
    }

    /// Whether some piece of `side` attacks `(tx, ty)`.
    pub open spec fn attacked_by(self, side: Side, tx: int, ty: int) -> bool {
        exists|from: int| #[trigger] self.attacks_from(from, side, tx, ty)
    }

    /// The squares that the opponent of `side` attacks.
    pub open spec fn attacked(self, side: Side) -> Set<int> {
        Set::new(|t: int| 0 <= t < 64 && self.attacked_by(side.opposite(), t % 8, t / 8))
    }

    /// The highest square below `n` that holds a king of `side`, or -1.
    pub open spec fn highest_king_below(self, side: Side, n: int) -> int
        decreases n,
    {
        if n <= 0 {
            -1
        } else if self.cells[n - 1] == Some((PieceType::King, side)) {
            n - 1
        } else {
            self.highest_king_below(side, n - 1)
        }
    }

    /// The square of the king of `side`: the highest one that holds such a
    /// king, or -1 where the side has none.
    pub open spec fn king_index(self, side: Side) -> int {
        self.highest_king_below(side, 64)
    }

    /// The file of the king of `side`.
    pub open spec fn king_x(self, side: Side) -> int {
        self.king_index(side) % 8
    }

    /// The rank of the king of `side`.
    pub open spec fn king_y(self, side: Side) -> int {
        self.king_index(side) / 8
    }

    /// Whether an opposing piece on the square `from` attacks the king of `side`.
    pub open spec fn checks(self, side: Side, from: int) -> bool {
        self.king_index(side) >= 0 && self.attacks_from(
            from,
            side.opposite(),
            self.king_x(side),
            self.king_y(side),
        )
    }

    /// The squares below `n` from which the king of `side` is attacked, in
    /// rising order.
    pub open spec fn attackers_below(self, side: Side, n: int) -> Seq<int>
        decreases n,
    {
        if n <= 0 {
            Seq::empty()
        } else if self.checks(side, n - 1) {
            self.attackers_below(side, n - 1).push(n - 1)
        } else {
            self.attackers_below(side, n - 1)
        }
    }

    /// The squares from which the king of `side` is attacked, in rising order.
    pub open spec fn attackers(self, side: Side) -> Seq<int> {
        self.attackers_below(side, 64)
    }

    /// Whether the piece of `side` on `(px, py)` is pinned by the piece on
    /// `(qx, qy)`: the three stand on one line in the order king, piece,
    /// pinner, with nothing else between them, and the pinner is an
    /// opposing piece that slides along that line.
    pub open spec fn pinned_by(self, side: Side, px: int, py: int, qx: int, qy: int) -> bool {
        let kx = self.king_x(side);
        let ky = self.king_y(side);
        &&& self.king_index(side) >= 0
        &&& in_bounds(px, py)
        &&& in_bounds(qx, qy)
        &&& self.owned_by(px, py, side)
        &&& aligned(kx, ky, px, py)
        &&& self.path_clear(kx, ky, px, py)
        &&& aligned(px, py, qx, qy)
        &&& sign(qx - px) == sign(px - kx)
        &&& sign(qy - py) == sign(py - ky)
        &&& self.path_clear(px, py, qx, qy)
        &&& self.owned_by(qx, qy, side.opposite())
        &&& slides_along(self.kind_at(qx, qy), kx, ky, px, py)
    }

    /// Whether the piece of `side` on `(px, py)` is pinned against its king.
    pub open spec fn pinned(self, side: Side, px: int, py: int) -> bool {
        exists|qx: int, qy: int| #[trigger] self.pinned_by(side, px, py, qx, qy)
    }

    /// The squares of the pinned pieces of `side`.
    pub open spec fn pinned_squares(self, side: Side) -> Set<int> {
        Set::new(|p: int| 0 <= p < 64 && self.pinned(side, p % 8, p / 8))
    }

    /// Whether a move to `(tx, ty)` answers the check given from the square
    /// `attacker`: it captures there, or, against a sliding piece, it
    /// lands between that piece and the king.
    pub open spec fn blocks_or_captures(self, side: Side, attacker: int, tx: int, ty: int) -> bool {
        let ax = attacker % 8;
        let ay = attacker / 8;
        ||| (tx == ax && ty == ay)
        ||| (self.kind_at(ax, ay).is_slider() && strictly_between(
            ax,
            ay,
            self.king_x(side),
            self.king_y(side),
            tx,
            ty,
        ))
    }

    /// Whether a move of a piece other than the king to `(tx, ty)` leaves
    /// no check standing: there is none, or there is one and the move
    /// answers it.
    pub open spec fn resolves_check(self, side: Side, tx: int, ty: int) -> bool {
        let a = self.attackers(side);
        a.len() == 0 || (a.len() == 1 && self.blocks_or_captures(side, a[0], tx, ty))
    }

    /// The king-safety rule for a piece other than the king.
    pub open spec fn piece_safe(self, side: Side, px: int, py: int, tx: int, ty: int) -> bool {
        &&& self.pinned(side, px, py) ==> on_pin_line(
            self.king_x(side),
            self.king_y(side),
            px,
            py,
            tx,
            ty,
        )
        &&& self.resolves_check(side, tx, ty)
    }

    /// Whether a king going from `(fx, fy)` to `(tx, ty)` runs straight
    /// away from a sliding piece on `attacker` along that piece's line.
    pub open spec fn flees_along(self, attacker: int, fx: int, fy: int, tx: int, ty: int) -> bool {
        let ax = attacker % 8;
        let ay = attacker / 8;
        &&& self.kind_at(ax, ay).is_slider()
        &&& sign(tx - fx) == sign(fx - ax)
        &&& sign(ty - fy) == sign(fy - ay)
    }

    /// The king-safety rule for the king: its destination is not attacked,
    /// and it does not stay on the line of a sliding piece that gives check.
    pub open spec fn king_safe(self, side: Side, fx: int, fy: int, tx: int, ty: int) -> bool {
        &&& !self.attacked_by(side.opposite(), tx, ty)
        &&& forall|i: int|
            0 <= i < self.attackers(side).len() ==> !self.flees_along(
                #[trigger] self.attackers(side)[i],
                fx,
                fy,
                tx,
                ty,
            )
    }

    /// Whether a pawn of `side` on `(fx, fy)` may advance to `(tx, ty)`:
    /// one rank onto an empty square, or two from its starting rank over an
    /// empty square onto an empty square.
    pub open spec fn pawn_push(self, side: Side, fx: int, fy: int, tx: int, ty: int) -> bool {
        &&& tx == fx
        &&& !self.occupied(tx, ty)
        &&& {
            ||| ty == fy + side.forward()
            ||| (fy == pawn_rank(side) && ty == fy + 2 * side.forward() && !self.occupied(
                fx,
                fy + side.forward(),
            ))
        }
    }

    /// Whether a pawn of `side` on `(fx, fy)` may capture on `(tx, ty)`:
    /// diagonally ahead, onto an opposing piece or onto the en-passant target.
    pub open spec fn pawn_capture(self, side: Side, fx: int, fy: int, tx: int, ty: int) -> bool {
        &&& abs(tx - fx) == 1
        &&& ty == fy + side.forward()
        &&& (self.owned_by(tx, ty, side.opposite()) || self.ep_target == Some(ty * 8 + tx))
    }

    /// Whether `side` may castle to the king's wing: it holds the right,
    /// king and rook stand on their squares, the squares between them are
    /// empty, and the king neither stands on, passes over nor lands on an
    /// attacked square.
    pub open spec fn can_castle_kingside(self, side: Side) -> bool {
        let y = side.home_rank();
        &&& self.castling(side).allows(CastlingAbility::King)
        &&& self.holds(4, y, PieceType::King, side)
        &&& self.holds(7, y, PieceType::Rook, side)
        &&& !self.occupied(5, y)
        &&& !self.occupied(6, y)
        &&& !self.attacked_by(side.opposite(), 4, y)
        &&& !self.attacked_by(side.opposite(), 5, y)
        &&& !self.attacked_by(side.opposite(), 6, y)
    }

    /// Whether `side` may castle to the queen's wing, under the same conditions.
    pub open spec fn can_castle_queenside(self, side: Side) -> bool {
        let y = side.home_rank();
        &&& self.castling(side).allows(CastlingAbility::Queen)
        &&& self.holds(4, y, PieceType::King, side)
        &&& self.holds(0, y, PieceType::Rook, side)
        &&& !self.occupied(1, y)
        &&& !self.occupied(2, y)
        &&& !self.occupied(3, y)
        &&& !self.attacked_by(side.opposite(), 4, y)
        &&& !self.attacked_by(side.opposite(), 3, y)
        &&& !self.attacked_by(side.opposite(), 2, y)
    }

    /// Whether `(tx, ty)` is where the king on `(fx, fy)` lands by castling.
    pub open spec fn castle_target(self, side: Side, fx: int, fy: int, tx: int, ty: int) -> bool {
        &&& fx == 4
        &&& fy == side.home_rank()
        &&& ty == fy
        &&& {
            ||| (tx == 6 && self.can_castle_kingside(side))
            ||| (tx == 2 && self.can_castle_queenside(side))
        }
    }

    /// Whether `(tx, ty)` is within the reach of a piece of the given kind
    /// and side on `(fx, fy)`, before the king-safety rule: an attacked
    /// square that holds no piece of its own side; for a pawn, an advance
    /// or a capture; for the king, a castling square as well.
    pub open spec fn reaches(
        self,
        kind: PieceType,
        side: Side,
        fx: int,
        fy: int,
        tx: int,
        ty: int,
    ) -> bool {
        in_bounds(tx, ty) && match kind {
            PieceType::Empty => false,
            PieceType::Pawn => self.pawn_push(side, fx, fy, tx, ty) || self.pawn_capture(
                side,
                fx,
                fy,
                tx,
                ty,
            ),
            PieceType::King => (self.attacks(kind, side, fx, fy, tx, ty) && !self.owned_by(
                tx,
                ty,
                side,
            )) || self.castle_target(side, fx, fy, tx, ty),
            _ => self.attacks(kind, side, fx, fy, tx, ty) && !self.owned_by(tx, ty, side),
        }
    }

    /// The king-safety rule for a piece of the given kind.
    pub open spec fn safe(self, kind: PieceType, side: Side, fx: int, fy: int, tx: int, ty: int) -> bool {
        if kind == PieceType::King {
            self.king_safe(side, fx, fy, tx, ty)
        } else {
            self.piece_safe(side, fx, fy, tx, ty)
        }
    }

    /// Whether a piece of the given kind and side on `(fx, fy)` may legally
    /// go to `(tx, ty)`.
    pub open spec fn legal(self, kind: PieceType, side: Side, fx: int, fy: int, tx: int, ty: int) -> bool {
        self.reaches(kind, side, fx, fy, tx, ty) && self.safe(kind, side, fx, fy, tx, ty)
    }

    /// The legal destinations of a piece of the given kind and side on `(fx, fy)`.
    pub open spec fn legal_targets(self, kind: PieceType, side: Side, fx: int, fy: int) -> Set<int> {
        Set::new(|t: int| 0 <= t < 64 && self.legal(kind, side, fx, fy, t % 8, t / 8))
    }

    /// The legal destinations of the piece that stands on the square `from`.
    pub open spec fn targets_from(self, from: int) -> Set<int> {
        if 0 <= from < 64 {
            match self.cells[from] {
                Some(c) => self.legal_targets(c.0, c.1, from % 8, from / 8),
                None => Set::empty(),
            }
        } else {
            Set::empty()
        }
    }

    /// Whether the piece on `from` may be moved to `to` now: it belongs to
    /// the side to move and `to` is one of its legal destinations.
    pub open spec fn legal_move(self, from: int, to: int) -> bool {
        &&& 0 <= from < 64
        &&& self.owned_by(from % 8, from / 8, self.side)
        &&& self.targets_from(from).contains(to)
    }

    /// Whether some piece of `side` has a legal destination.
    pub open spec fn has_legal_move(self, side: Side) -> bool {
        exists|from: int, to: int|
            0 <= from < 64 && self.owned_by(from % 8, from / 8, side)
                && #[trigger] self.targets_from(from).contains(to)
    }

    /// Each listed attacker gives check, and the list rises.
    pub proof fn lemma_attackers_below(self, side: Side, n: int)
        requires
            0 <= n <= 64,
        ensures
            forall|i: int|
                0 <= i < self.attackers_below(side, n).len() ==> 0 <= (
                #[trigger] self.attackers_below(side, n)[i]) < n && self.checks(
                    side,
                    self.attackers_below(side, n)[i],
                ),
            forall|from: int|
                0 <= from < n && self.checks(side, from) ==> #[trigger] self.attackers_below(
                    side,
                    n,
                ).contains(from),
        decreases n,
    {
        if n > 0 {
            self.lemma_attackers_below(side, n - 1);
            let rest = self.attackers_below(side, n - 1);
            let now = self.attackers_below(side, n);
            assert forall|from: int| 0 <= from < n && self.checks(side, from) implies #[trigger]
                now.contains(from) by {
                if from < n - 1 {
                    assert(rest.contains(from));
                    let i = choose|i: int| 0 <= i < rest.len() && rest[i] == from;
                    assert(now[i] == from);
                } else {
                    assert(now[now.len() - 1] == from);
                }
            }
        }
    }

    /// Each listed attacker is a square of the board from which the king
    /// of `side` is attacked, and every such square is listed.
    pub proof fn lemma_attackers(self, side: Side)
        ensures
            forall|i: int|
                0 <= i < self.attackers(side).len() ==> 0 <= (#[trigger] self.attackers(side)[i])
                    < 64 && self.checks(side, self.attackers(side)[i]),
            forall|from: int|
                self.checks(side, from) ==> #[trigger] self.attackers(side).contains(from),
    {
        self.lemma_attackers_below(side, 64);
    }

    /// Whether the move from `from` to `to` is a pawn's capture on the
    /// en-passant target.
    pub open spec fn is_en_passant(self, from: int, to: int) -> bool {
        self.kind_at(from % 8, from / 8) == PieceType::Pawn && self.ep_target == Some(to)
    }

    /// Whether the move from `from` to `to` is a king's move of two files
    /// towards the king's wing.
    pub open spec fn is_castle_short(self, from: int, to: int) -> bool {
        self.kind_at(from % 8, from / 8) == PieceType::King && to % 8 - from % 8 == 2
    }

    /// Whether the move from `from` to `to` is a king's move of two files
    /// towards the queen's wing.
    pub open spec fn is_castle_long(self, from: int, to: int) -> bool {
        self.kind_at(from % 8, from / 8) == PieceType::King && from % 8 - to % 8 == 2
    }

    /// What stands on the squares after the piece on `from` has moved to
    /// `to`: the piece stands on `to`, whatever stood there is gone; a pawn
    /// taken en passant is gone from the square beside the mover's start;
    /// in castling the rook has gone from its corner to the square that the
    /// king passed over.
    pub open spec fn moved_cells(self, from: int, to: int) -> Seq<Option<(PieceType, Side)>> {
        let side = match self.cells[from] {
            Some(c) => c.1,
            None => self.side,
        };
        Seq::new(
            64,
            |i: int|
                if i == to {
                    self.cells[from]
                } else if i == from {
                    None
                } else if self.is_en_passant(from, to) && i == (from / 8) * 8 + to % 8 {
                    None
                } else if self.is_castle_short(from, to) && i == to + 1 {
                    None
                } else if self.is_castle_short(from, to) && i == to - 1 {
                    Some((PieceType::Rook, side))
                } else if self.is_castle_long(from, to) && i == to - 2 {
                    None
                } else if self.is_castle_long(from, to) && i == to + 1 {
                    Some((PieceType::Rook, side))
                } else {
                    self.cells[i]
                },
        )
    }

    /// The castling rights of `side` after the piece on `from` has moved to
    /// `to`. The mover loses both rights by a king's move, and one by a
    /// rook's move from the a-file (the queen's wing) or the h-file (the
    /// king's wing). The opponent loses the right to a wing when the rook
    /// in that corner is captured.
    pub open spec fn castling_after(self, side: Side, from: int, to: int) -> CastlingAbility {
        let rights = self.castling(side);
        if self.owned_by(from % 8, from / 8, side) {
            rights_after_own_move(rights, self.kind_at(from % 8, from / 8), from % 8)
        } else if self.holds(to % 8, to / 8, PieceType::Rook, side) && to / 8 == side.home_rank() {
            rights_after_rook_loss(rights, to % 8)
        } else {
            rights
        }
    }

    /// The position after the piece on `from` has moved to `to`. The
    /// en-passant target is set anew only by a pawn's advance of two ranks,
    /// to the square passed over; the halfmove clock starts again at 0
    /// with a capture or a pawn's move and rises by one otherwise; the
    /// fullmove counter rises after a move of Black; the turn passes.
    pub open spec fn after_move(self, from: int, to: int) -> Position {
        let kind = self.kind_at(from % 8, from / 8);
        Position {
            cells: self.moved_cells(from, to),
            side: self.side.opposite(),
            white_castling: self.castling_after(Side::White, from, to),
            black_castling: self.castling_after(Side::Black, from, to),
            ep_target: if kind == PieceType::Pawn && abs(to / 8 - from / 8) == 2 {
                Some(((from / 8 + to / 8) / 2) * 8 + from % 8)
            } else {
                None
            },
            halfmove: if self.occupied(to % 8, to / 8) || kind == PieceType::Pawn {
                0
            } else {
                bump(self.halfmove)
            },
            fullmove: if self.side == Side::Black {
                bump(self.fullmove)
            } else {
                self.fullmove
            },
        }
    }

    /// What a legal move finds on the board: the destination holds no
    /// piece of the mover's side; a capture en passant finds the opposing
    /// pawn beside the mover's start and an empty destination; a castling
    /// king finds its rook in the corner and an empty square to put it on.
    pub proof fn lemma_legal_move_facts(self, from: int, to: int)
        requires
            self.valid(),
            self.legal_move(from, to),
        ensures
            0 <= from < 64,
            0 <= to < 64,
            from != to,
            self.cells[from] is Some,
            !self.owned_by(to % 8, to / 8, self.side),
            self.is_en_passant(from, to) ==> {
                let beside = (from / 8) * 8 + to % 8;
                &&& 0 <= beside < 64
                &&& beside != from
                &&& beside != to
                &&& self.cells[beside] == Some((PieceType::Pawn, self.side.opposite()))
                &&& self.cells[to] is None
            },
            self.is_castle_short(from, to) ==> {
                &&& to == from + 2
                &&& to % 8 == 6
                &&& self.cells[to] is None
                &&& self.cells[to + 1] == Some((PieceType::Rook, self.side))
                &&& self.cells[to - 1] is None
            },
            self.is_castle_long(from, to) ==> {
                &&& from == to + 2
                &&& to % 8 == 2
                &&& self.cells[to] is None
                &&& self.cells[to - 2] == Some((PieceType::Rook, self.side))
                &&& self.cells[to + 1] is None
            },
    {
        let fx = from % 8;
        let fy = from / 8;
        let tx = to % 8;
        let ty = to / 8;
        let side = self.side;
        assert(self.at(fx, fy) == self.cells[from]);
        assert(self.at(tx, ty) == self.cells[to]);
        let kind = self.kind_at(fx, fy);
        assert(self.targets_from(from).contains(to));
        assert(self.legal(kind, side, fx, fy, tx, ty));
        assert(self.reaches(kind, side, fx, fy, tx, ty));
        if self.is_en_passant(from, to) {
            assert(self.ep_valid());
            assert(!self.occupied(tx, ty));
            assert(self.pawn_capture(side, fx, fy, tx, ty) || self.pawn_push(side, fx, fy, tx, ty));
            assert(self.at(tx, ty + side.opposite().forward()) == self.cells[(ty
                + side.opposite().forward()) * 8 + tx]);
        }
        if self.is_castle_short(from, to) {
            assert(self.castle_target(side, fx, fy, tx, ty));
            assert(self.at(7, fy) == self.cells[to + 1]);
            assert(self.at(5, fy) == self.cells[to - 1]);
        }
        if self.is_castle_long(from, to) {
            assert(self.castle_target(side, fx, fy, tx, ty));
            assert(self.at(0, fy) == self.cells[to - 2]);
            assert(self.at(3, fy) == self.cells[to + 1]);
        }
    }

    /// A legal move leads from a sound position to a sound position.
    pub proof fn lemma_after_move_valid(self, from: int, to: int)
        requires
            self.valid(),
            self.legal_move(from, to),
        ensures
            self.after_move(from, to).valid(),
    {
        self.lemma_legal_move_facts(from, to);
        let next = self.after_move(from, to);
        let fx = from % 8;
        let fy = from / 8;
        let tx = to % 8;
        let ty = to / 8;
        let side = self.side;
        let kind = self.kind_at(fx, fy);
        assert(self.at(fx, fy) == self.cells[from]);
        assert(self.at(tx, ty) == self.cells[to]);
        assert(self.legal(kind, side, fx, fy, tx, ty));
        assert(self.reaches(kind, side, fx, fy, tx, ty));
        assert forall|i: int| 0 <= i < 64 implies match #[trigger] next.cells[i] {
            Some(c) => c.0 != PieceType::Empty,
            None => true,
        } by {
            assert(match self.cells[i] {
                Some(c) => c.0 != PieceType::Empty,
                None => true,
            });
            assert(match self.cells[from] {
                Some(c) => c.0 != PieceType::Empty,
                None => true,
            });
        }
        if kind == PieceType::Pawn && abs(ty - fy) == 2 {
            let t = ((fy + ty) / 2) * 8 + fx;
            assert(self.pawn_push(side, fx, fy, tx, ty));
            assert(t % 8 == fx && t / 8 == fy + side.forward());
            assert(self.at(fx, fy + side.forward()) == self.cells[t]);
            assert(next.at(t % 8, t / 8) == next.cells[t]);
            assert(next.at(t % 8, t / 8 + side.forward()) == next.cells[to]);
            assert(next.ep_valid());
        }
    }

    /// The occupied squares below `n`, in rising order.
    pub open spec fn occupied_below(self, n: int) -> Seq<int>
        decreases n,
    {
        if n <= 0 {
            Seq::empty()
        } else if self.cells[n - 1] is Some {
            self.occupied_below(n - 1).push(n - 1)
        } else {
            self.occupied_below(n - 1)
        }
    }

    /// The occupied squares, in rising order.
    pub open spec fn occupied_squares(self) -> Seq<int> {
        self.occupied_below(64)
    }

    /// What `highest_king_below` finds: a king's square with no king of
    /// that side above it, or -1 where there is no such king below `n`.
    pub proof fn lemma_highest_king(self, side: Side, n: int)
        requires
            0 <= n <= 64,
        ensures
            -1 <= self.highest_king_below(side, n) < n,
            self.highest_king_below(side, n) >= 0 ==> self.cells[self.highest_king_below(side, n)]
                == Some((PieceType::King, side)),
            forall|j: int|
                self.highest_king_below(side, n) < j < n ==> #[trigger] self.cells[j] != Some(
                    (PieceType::King, side),
                ),
        decreases n,
    {
        if n > 0 && self.cells[n - 1] != Some((PieceType::King, side)) {
            self.lemma_highest_king(side, n - 1);
        }
    }

    /// The king's square is on the board where the side has a king.
    pub proof fn lemma_king_index(self, side: Side)
        ensures
            -1 <= self.king_index(side) < 64,
            self.king_index(side) >= 0 ==> self.holds(
                self.king_x(side),
                self.king_y(side),
                PieceType::King,
                side,
            ) && in_bounds(self.king_x(side), self.king_y(side)) && self.king_y(side) * 8
                + self.king_x(side) == self.king_index(side),
            forall|j: int|
                self.king_index(side) < j < 64 ==> #[trigger] self.cells[j] != Some(
                    (PieceType::King, side),
                ),
    {
        self.lemma_highest_king(side, 64);
    }

    /// Whether the two kings are all that is left on the board.
    pub open spec fn only_kings_left(self) -> bool {
        &&& self.king_index(Side::White) >= 0
        &&& self.king_index(Side::Black) >= 0
        &&& forall|i: int|
            0 <= i < 64 && #[trigger] self.cells[i] is Some ==> i == self.king_index(Side::White)
                || i == self.king_index(Side::Black)
    }

    /// The legal destinations of the piece on `from`, if the side to move
    /// owns it; none otherwise.
    pub open spec fn moves_from(self, from: int) -> Set<int> {
        if 0 <= from < 64 && self.owned_by(from % 8, from / 8, self.side) {
            self.targets_from(from)
        } else {
            Set::empty()
        }
    }

    /// The state of the game in this position. A halfmove clock of 100 or
    /// more is a draw, whatever else holds. Else a promotion that is still
    /// to be made comes first. Else the side to move is in check or, with
    /// no legal move, checkmated; or, not in check, the game is drawn with
    /// bare kings, stalemate with no legal move, and goes on otherwise.
    pub open spec fn game_state(self, promotion_pending: bool) -> State {
        if self.halfmove >= 100 {
            State::Draw
        } else if promotion_pending {
            State::Promotion
        } else if self.attackers(self.side).len() > 0 {
            if self.has_legal_move(self.side) {
                State::Check
            } else {
                State::Checkmate
            }
        } else if self.only_kings_left() {
            State::Draw
        } else if self.has_legal_move(self.side) {
            State::Playing
        } else {
            State::Stalemate
        }
    }

    /// The position after the pawn on the square `index` has been promoted
    /// to a piece of the given kind.
    pub open spec fn after_promotion(self, index: int, kind: PieceType) -> Position {
        Position {
            cells: self.cells.update(index, Some((kind, self.side.opposite()))),
            ..self
        }
    }
}

/// Whether a pawn may be promoted to a piece of the given kind.
pub open spec fn promotable(kind: PieceType) -> bool {
    ||| kind == PieceType::Knight
    ||| kind == PieceType::Bishop
    ||| kind == PieceType::Rook
    ||| kind == PieceType::Queen
}

/// A pinned piece moves only along its pin line: a piece other than a king
/// that is pinned has no legal destination off the line through its king
/// and itself.
pub proof fn lemma_pinned_piece_stays_on_line(
    pos: Position,
    kind: PieceType,
    side: Side,
    px: int,
    py: int,
    tx: int,
    ty: int,
)
    requires
        kind != PieceType::King,
        pos.pinned(side, px, py),
        pos.legal(kind, side, px, py, tx, ty),
    ensures
        on_pin_line(pos.king_x(side), pos.king_y(side), px, py, tx, ty),
{
}

/// The move of a pinned piece off its pin line is no legal move.
pub proof fn lemma_pinned_move_rejected(pos: Position, from: int, to: int)
    requires
        pos.cells.len() == 64,
        0 <= from < 64,
        pos.kind_at(from % 8, from / 8) != PieceType::King,
        pos.pinned(pos.side, from % 8, from / 8),
        !on_pin_line(pos.king_x(pos.side), pos.king_y(pos.side), from % 8, from / 8, to % 8, to / 8),
    ensures
        !pos.legal_move(from, to),
{
    assert(pos.at(from % 8, from / 8) == pos.cells[from]);
}

/// The king of a side is not among its pinned pieces.
pub proof fn lemma_king_not_pinned(pos: Position, side: Side)
    ensures
        !pos.pinned(side, pos.king_x(side), pos.king_y(side)),
{
    if pos.pinned(side, pos.king_x(side), pos.king_y(side)) {
        let (qx, qy) = choose|qx: int, qy: int| #[trigger]
            pos.pinned_by(side, pos.king_x(side), pos.king_y(side), qx, qy);
    }
}

/// A king goes two files only by castling, and castling is legal only
/// with the right to that wing, from the king's home square, when the king
/// does not stand in check, passes over and lands on squares that are not
/// attacked, and finds every square between itself and the rook empty.
pub proof fn lemma_castling_conditions(pos: Position, side: Side, fx: int, fy: int, tx: int, ty: int)
    requires
        pos.legal(PieceType::King, side, fx, fy, tx, ty),
        abs(tx - fx) >= 2 || abs(ty - fy) >= 2,
    ensures
        fx == 4,
        fy == side.home_rank(),
        ty == fy,
        tx == 6 || tx == 2,
        !pos.attacked_by(side.opposite(), 4, fy),
        tx == 6 ==> {
            &&& pos.castling(side).allows(CastlingAbility::King)
            &&& !pos.attacked_by(side.opposite(), 5, fy)
            &&& !pos.attacked_by(side.opposite(), 6, fy)
            &&& !pos.occupied(5, fy)
            &&& !pos.occupied(6, fy)
        },
        tx == 2 ==> {
            &&& pos.castling(side).allows(CastlingAbility::Queen)
            &&& !pos.attacked_by(side.opposite(), 3, fy)
            &&& !pos.attacked_by(side.opposite(), 2, fy)
            &&& !pos.occupied(1, fy)
            &&& !pos.occupied(2, fy)
            &&& !pos.occupied(3, fy)
        },
{
}

/// With the halfmove clock at 100 or more the game is drawn, whatever
/// stands on the board, whoever is in check, and whether or not a
/// promotion is pending.
pub proof fn lemma_clock_forces_draw(pos: Position, promotion_pending: bool)
    requires
        pos.halfmove >= 100,
    ensures
        pos.game_state(promotion_pending) == State::Draw,
{
}

/// A move adds no castling right: a right held after a move was held before it.
pub proof fn lemma_castling_only_lost(pos: Position, from: int, to: int, side: Side, wing: CastlingAbility)
    requires
        wing.is_single(),
        pos.after_move(from, to).castling(side).allows(wing),
    ensures
        pos.castling(side).allows(wing),
{
}

} // verus!
