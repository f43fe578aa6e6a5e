//! Two boards that count up to two: the squares met once, and those met again.

use vstd::prelude::*;
use crate::bitboard::BitBoard;

verus! {

/// A pair of boards: the squares that were added at least once, and the
/// squares that were added at least twice.
pub struct DualBoard {
    first: BitBoard,
    second: BitBoard,
}

impl DualBoard {
    /// The squares added at least once.
    pub closed spec fn once(self) -> Set<int> {
        self.first@
    }

    /// The squares added at least twice.
    pub closed spec fn twice(self) -> Set<int> {
        self.second@
    }

    /// The squares added at least once.
    pub fn first(&self) -> (r: BitBoard)
        ensures
            r@ == self.once(),
    {
        self.first
    }

    /// The squares added at least twice.
    pub fn second(&self) -> (r: BitBoard)
        ensures
            r@ == self.twice(),
    {
        self.second
    }

    /// The pair in which no square has been added.
    pub fn new() -> (r: DualBoard)
        ensures
            r.once() =~= Set::<int>::empty(),
            r.twice() =~= Set::<int>::empty(),
    {
        DualBoard { first: BitBoard::empty(), second: BitBoard::empty() }
    }

    /// Adds the square `index`: to the squares met twice if it was met
    /// before, to the squares met once if not. An index off the board
    /// changes nothing.
    pub fn set(&mut self, index: usize)
        ensures
            index >= 64 ==> final(self).once() == old(self).once() && final(self).twice() == old(
                self,
            ).twice(),
            index < 64 ==> final(self).once() =~= old(self).once().insert(index as int),
            index < 64 ==> final(self).twice() =~= (if old(self).once().contains(index as int) {
                old(self).twice().insert(index as int)
            } else {
                old(self).twice()
            }),
    {
        if self.first.get(index) {
            self.second.set(index, true);
        } else {
            self.first.set(index, true);
        }
    }

    /// Adds every square of `board`: those met before are now met twice.
    pub fn add(&mut self, board: BitBoard)
        ensures
            final(self).once() =~= old(self).once().union(board@),
            final(self).twice() =~= old(self).twice().union(old(self).once().intersect(board@)),
    {
        let double = self.first.intersection(board);
        if double.to_number() != 0 {
            self.second = self.second.union(double);
        }
        self.first = self.first.union(board);
    }
}

} // verus!
