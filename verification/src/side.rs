//! The two players, and the castling rights a player holds.

use vstd::prelude::*;

verus! {

/// The different player sides.
#[derive(PartialEq, Eq, Copy, Clone, Debug, Structural)]
pub enum Side {
    White,
    Black,
}

impl Side {
    /// The other side.
    pub open spec fn opposite(self) -> Side {
        match self {
            Side::White => Side::Black,
            Side::Black => Side::White,
        }
    }

    /// The other side.
    pub fn get_opposite(&self) -> (r: Side)
        ensures
            r == self.opposite(),
    {
        match self {
            Side::White => Side::Black,
            Side::Black => Side::White,
        }
    }

    /// 0 for White, 1 for Black: the slot of a side in per-side tables.
    pub open spec fn slot(self) -> int {
        match self {
            Side::White => 0,
            Side::Black => 1,
        }
    }

    /// The rank on which the side's pieces start: 0 for White, 7 for Black.
    pub open spec fn home_rank(self) -> int {
        match self {
            Side::White => 0,
            Side::Black => 7,
        }
    }

    /// The change of rank of a pawn's advance: 1 for White, -1 for Black.
    pub open spec fn forward(self) -> int {
        match self {
            Side::White => 1,
            Side::Black => -1,
        }
    }
}

/// The wings to which a side may still castle.
#[derive(PartialEq, Eq, Clone, Copy, Debug, Structural)]
pub enum CastlingAbility {
    Neither,
    King,
    Queen,
    Both,
}

impl CastlingAbility {
    /// Whether the right to castle to `wing` (King or Queen) is held.
    pub open spec fn allows(self, wing: CastlingAbility) -> bool {
        self == CastlingAbility::Both || self == wing
    }

    /// Whether this is the right to one wing only.
    pub open spec fn is_single(self) -> bool {
        self == CastlingAbility::King || self == CastlingAbility::Queen
    }

    /// The rights with the given ones added.
    pub open spec fn with(self, rhs: CastlingAbility) -> CastlingAbility {
        match self {
            CastlingAbility::Neither => rhs,
            _ => CastlingAbility::Both,
        }
    }

    /// The rights left when the right to `wing` is given up.
    pub open spec fn without(self, wing: CastlingAbility) -> CastlingAbility {
        match self {
            CastlingAbility::Neither => CastlingAbility::Neither,
            CastlingAbility::Both => match wing {
                CastlingAbility::King => CastlingAbility::Queen,
                CastlingAbility::Queen => CastlingAbility::King,
                _ => CastlingAbility::Both,
            },
            _ => if wing == self {
                CastlingAbility::Neither
            } else {
                self
            },
        }
    }

    /// Adds rights: to none, the given ones; to any others, everything.
    pub fn add(&mut self, rhs: Self)
        ensures
            *final(self) == old(self).with(rhs),
    {
        *self = match *self {
            CastlingAbility::Neither => rhs,
            _ => CastlingAbility::Both,
        };
    }

    /// The other wing.
    fn inverse(&self) -> (r: CastlingAbility)
        requires
            self.is_single(),
        ensures
            r.is_single(),
            r != *self,
    {
        match *self {
            CastlingAbility::King => CastlingAbility::Queen,
            _ => CastlingAbility::King,
        }
    }

    /// Gives up the right to castle to one wing. From both rights the other
    /// wing's is left; a single right is lost when it is the one given up.
    pub fn remove(&mut self, castling_side: CastlingAbility)
        requires
            *old(self) == CastlingAbility::Both ==> castling_side.is_single(),
        ensures
            *final(self) == old(self).without(castling_side),
    {
        match *self {
            CastlingAbility::Neither => {},
            CastlingAbility::Both => {
                *self = castling_side.inverse();
            },
            _ => {
                if castling_side == *self {
                    *self = CastlingAbility::Neither;
                }
            },
        }
    }

    /// Whether the right to castle to `castling` is held.
    pub fn has(&self, castling: CastlingAbility) -> (r: bool)
        ensures
            r == self.allows(castling),
    {
        *self == CastlingAbility::Both || *self == castling
    }
}

/// Rights are only ever given up: removing a right leaves no right that
/// was not held before.
pub proof fn lemma_remove_only_removes(rights: CastlingAbility, wing: CastlingAbility, other: CastlingAbility)
    requires
        wing.is_single(),
        other.is_single(),
    ensures
        rights.without(wing).allows(other) ==> rights.allows(other),
        !rights.without(wing).allows(wing),
{
}

} // verus!
