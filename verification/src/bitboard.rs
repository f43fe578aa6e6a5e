//! A 64-bit set of board squares.

use vstd::prelude::*;
use crate::board::Board;

verus! {

/// Number of squares on the board.
pub const NUM_SQUARES: usize = 64;

/// Whether bit `i` of `word` is set.
pub open spec fn bit_at(word: u64, i: u64) -> bool {
    (word >> i) & 1 == 1
}

/// How the bitwise operators act on a single bit.
pub proof fn lemma_bit_ops(a: u64, b: u64, i: u64)
    by (bit_vector)
    requires
        i < 64,
    ensures
        bit_at(a | b, i) == (bit_at(a, i) || bit_at(b, i)),
        bit_at(a & b, i) == (bit_at(a, i) && bit_at(b, i)),
        bit_at(a ^ b, i) == (bit_at(a, i) != bit_at(b, i)),
        bit_at(!a, i) == !bit_at(a, i),
        bit_at(a & !b, i) == (bit_at(a, i) && !bit_at(b, i)),
        !bit_at(0, i),
{
}

/// The word `1 << i` has exactly bit `i` set.
pub proof fn lemma_bit_single(i: u64, j: u64)
    by (bit_vector)
    requires
        i < 64,
        j < 64,
    ensures
        bit_at(1u64 << i, j) == (i == j),
{
}

/// Clearing a set bit makes the word smaller.
pub proof fn lemma_clear_decreases(a: u64, i: u64)
    by (bit_vector)
    requires
        i < 64,
        bit_at(a, i),
    ensures
        a & !(1u64 << i) < a,
{
}

/// The members of `squares` below `n`, listed from the highest down.
pub open spec fn descending_squares(squares: Set<int>, n: int) -> Seq<int>
    decreases n,
{
    if n <= 0 {
        Seq::empty()
    } else if squares.contains(n - 1) {
        seq![n - 1] + descending_squares(squares, n - 1)
    } else {
        descending_squares(squares, n - 1)
    }
}

/// A set of squares, one bit per square index (a1 = 0 ... h8 = 63).
#[derive(Copy, Clone, Debug, PartialEq, Eq, Structural)]
pub struct BitBoard(pub u64);

impl View for BitBoard {
    type V = Set<int>;

    open spec fn view(&self) -> Set<int> {
        Set::new(|i: int| self.has(i))
    }
}

/// All 64 squares.
pub open spec fn all_squares() -> Set<int> {
    Set::new(|i: int| 0 <= i < 64)
}

/// Flat index of the coordinate `(x, y)`.
pub open spec fn coord_index(x: int, y: int) -> int {
    y * 8 + x
}

/// Whether `(x, y)` names a square of the board.
pub open spec fn in_bounds(x: int, y: int) -> bool {
    0 <= x < 8 && 0 <= y < 8
}

impl BitBoard {
    /// Whether square `i` is a member.
    pub open spec fn has(self, i: int) -> bool {
        0 <= i < 64 && bit_at(self.0, i as u64)
    }

    /// The members below `n`, listed from the highest index down.
    pub open spec fn descending_below(self, n: int) -> Seq<int>
        decreases n,
    {
        if n <= 0 {
            Seq::empty()
        } else if self.has(n - 1) {
            seq![n - 1] + self.descending_below(n - 1)
        } else {
            self.descending_below(n - 1)
        }
    }

    /// The listing of a board is that of its set of squares.
    pub proof fn lemma_descending(self, n: int)
        requires
            n <= 64,
        ensures
            self.descending_below(n) == descending_squares(self@, n),
        decreases n,
    {
        if n > 0 {
            self.lemma_descending(n - 1);
        }
    }

    /// All members, listed from the highest index down.
    pub open spec fn descending(self) -> Seq<int> {
        self.descending_below(64)
    }

    /// The highest member, or -1 for the empty set.
    pub open spec fn top(self) -> int {
        63 - vstd::std_specs::bits::u64_leading_zeros(self.0)
    }

    /// `top` is the greatest member, and -1 exactly for the empty set.
    pub proof fn lemma_top(self)
        ensures
            -1 <= self.top() < 64,
            self.top() == -1 <==> self.0 == 0,
            self.top() == -1 <==> self@ =~= Set::<int>::empty(),
            self.top() >= 0 ==> self.has(self.top()),
            forall|j: int| self.top() < j ==> !self.has(j),
    {
        let w = self.0;
        vstd::std_specs::bits::axiom_u64_leading_zeros(w);
        let lz = vstd::std_specs::bits::u64_leading_zeros(w);
        if lz < 64 {
            let t = (63 - lz) as u64;
            assert((w >> t) & 1 != 0);
            assert(bit_at(w, t)) by (bit_vector)
                requires
                    (w >> t) & 1 != 0,
            ;
            assert(self@.contains(t as int));
        } else {
            assert forall|i: int| !self@.contains(i) by {
                if 0 <= i < 64 {
                    lemma_bit_ops(0, 0, i as u64);
                }
            }
        }
        assert forall|j: int| self.top() < j implies !self.has(j) by {
            if 0 <= j < 64 {
                let ju = j as u64;
                assert((w >> ju) & 1 == 0);
            }
        }
    }

    /// The empty set.
    pub fn empty() -> (r: BitBoard)
        ensures
            r@ =~= Set::<int>::empty(),
            forall|j: int| !#[trigger] r.has(j),
            r.0 == 0,
    {
        let r = BitBoard(0);
        proof {
            r.lemma_top();
        }
        r
    }

    /// Adds (`value` true) or removes (`value` false) square `index`.
    /// An index outside the board changes nothing.
    pub fn set(&mut self, index: usize, value: bool)
        ensures
            index >= 64 ==> *final(self) == *old(self),
            index < 64 && value ==> final(self)@ =~= old(self)@.insert(index as int),
            index < 64 && !value ==> final(self)@ =~= old(self)@.remove(index as int),
            forall|j: int|
                #[trigger] final(self).has(j) == (if j == index && index < 64 {
                    value
                } else {
                    old(self).has(j)
                }),
            index < 64 && value ==> final(self).0 == old(self).0 | (1u64 << (index as u64)),
            index < 64 && !value ==> final(self).0 == old(self).0 & !(1u64 << (index as u64)),
    {
        if index < 64 {
            let mask: u64 = 1u64 << (index as u64);
            let ghost before = self.0;
            if value {
                self.0 = self.0 | mask;
            } else {
                self.0 = self.0 & !mask;
            }
            proof {
                assert forall|j: int| 0 <= j < 64 implies self.has(j) == (if j == index {
                    value
                } else {
                    old(self).has(j)
                }) by {
                    lemma_bit_ops(before, mask, j as u64);
                    lemma_bit_single(index as u64, j as u64);
                }
            }
        }
    }

    /// Adds or removes the square at file `x`, rank `y`, when `y * 8 + x`
    /// is a square index; changes nothing otherwise.
    pub fn set_coord(&mut self, x: usize, y: usize, value: bool)
        ensures
            coord_index(x as int, y as int) >= 64 ==> *final(self) == *old(self),
            coord_index(x as int, y as int) < 64 && value ==> final(self)@ =~= old(self)@.insert(
                coord_index(x as int, y as int),
            ),
            coord_index(x as int, y as int) < 64 && !value ==> final(self)@ =~= old(self)@.remove(
                coord_index(x as int, y as int),
            ),
    {
        if y < 8 && x < 64 {
            self.set(y * 8 + x, value);
        }
    }

    /// Whether square `index` is a member.
    pub fn get(&self, index: usize) -> (r: bool)
        ensures
            r == self@.contains(index as int),
            r == self.has(index as int),
    {
        if index < 64 {
            let r = (self.0 >> (index as u64)) & 1 == 1;
            r
        } else {
            false
        }
    }

    /// The underlying 64-bit word.
    pub fn to_number(&self) -> (r: u64)
        ensures
            r == self.0,
            (r == 0) == (self@ =~= Set::<int>::empty()),
    {
        proof {
            self.lemma_top();
        }
        self.0
    }

    /// Whether no square is a member.
    pub fn is_empty(&self) -> (r: bool)
        ensures
            r == (self@ =~= Set::<int>::empty()),
            r == (self.0 == 0),
    {
        proof {
            self.lemma_top();
        }
        self.0 == 0
    }

    /// Removes every square.
    pub fn clear(&mut self)
        ensures
            final(self)@ =~= Set::<int>::empty(),
            final(self).0 == 0,
    {
        self.0 = 0;
        proof {
            self.lemma_top();
        }
    }

    /// Set union.
    pub fn union(self, other: BitBoard) -> (r: BitBoard)
        ensures
            r@ =~= self@.union(other@),
            forall|j: int| #[trigger] r.has(j) == (self.has(j) || other.has(j)),
            r.0 == self.0 | other.0,
    {
        let r = BitBoard(self.0 | other.0);
        proof {
            assert forall|j: int| 0 <= j < 64 implies r.has(j) == (self.has(j) || other.has(j)) by {
                lemma_bit_ops(self.0, other.0, j as u64);
            }
        }
        r
    }

    /// Set intersection.
    pub fn intersection(self, other: BitBoard) -> (r: BitBoard)
        ensures
            r@ =~= self@.intersect(other@),
            forall|j: int| #[trigger] r.has(j) == (self.has(j) && other.has(j)),
            r.0 == self.0 & other.0,
    {
        let r = BitBoard(self.0 & other.0);
        proof {
            assert forall|j: int| 0 <= j < 64 implies r.has(j) == (self.has(j) && other.has(j)) by {
                lemma_bit_ops(self.0, other.0, j as u64);
            }
        }
        r
    }

    /// Symmetric difference.
    pub fn xor(self, other: BitBoard) -> (r: BitBoard)
        ensures
            r@ =~= self@.difference(other@).union(other@.difference(self@)),
            r.0 == self.0 ^ other.0,
    {
        let r = BitBoard(self.0 ^ other.0);
        proof {
            assert forall|j: int| 0 <= j < 64 implies r.has(j) == (self.has(j) != other.has(j)) by {
                lemma_bit_ops(self.0, other.0, j as u64);
            }
        }
        r
    }

    /// Set difference: the members of `self` that are not in `other`.
    pub fn difference(self, other: BitBoard) -> (r: BitBoard)
        ensures
            r@ =~= self@.difference(other@),
            forall|j: int| #[trigger] r.has(j) == (self.has(j) && !other.has(j)),
            r.0 == self.0 & !other.0,
    {
        let r = BitBoard(self.0 & !other.0);
        proof {
            assert forall|j: int| 0 <= j < 64 implies r.has(j) == (self.has(j) && !other.has(j)) by {
                lemma_bit_ops(self.0, other.0, j as u64);
            }
        }
        r
    }

    /// Complement within the board.
    pub fn complement(self) -> (r: BitBoard)
        ensures
            r@ =~= all_squares().difference(self@),
            forall|j: int| #[trigger] r.has(j) == (0 <= j < 64 && !self.has(j)),
            r.0 == !self.0,
    {
        let r = BitBoard(!self.0);
        proof {
            assert forall|j: int| 0 <= j < 64 implies r.has(j) == !self.has(j) by {
                lemma_bit_ops(self.0, self.0, j as u64);
            }
        }
        r
    }

    /// The highest member, if any.
    pub fn highest(&self) -> (r: Option<usize>)
        ensures
            match r {
                Some(i) => self@.contains(i as int) && forall|j: int|
                    self@.contains(j) ==> j <= i,
                None => self@ =~= Set::<int>::empty(),
            },
            r == (if self.top() >= 0 {
                Some(self.top() as usize)
            } else {
                None
            }),
    {
        proof {
            self.lemma_top();
        }
        let lz = self.0.leading_zeros();
        if lz >= 64 {
            None
        } else {
            Some((63 - lz) as usize)
        }
    }

    /// Removes and returns the highest member: the step by which a board
    /// is walked, highest square first.
    pub fn count_and_pop_highest(&mut self) -> (r: Option<usize>)
        ensures
            match r {
                Some(i) => {
                    &&& old(self)@.contains(i as int)
                    &&& forall|j: int| old(self)@.contains(j) ==> j <= i
                    &&& final(self)@ =~= old(self)@.remove(i as int)
                    &&& final(self).0 < old(self).0
                },
                None => old(self)@ =~= Set::<int>::empty() && *final(self) == *old(self),
            },
    {
        match self.highest() {
            Some(i) => {
                proof {
                    lemma_clear_decreases(self.0, i as u64);
                }
                self.set(i, false);
                Some(i)
            },
            None => None,
        }
    }

    /// Adds the square at `(x, y)` when it lies on the board and `predicate`
    /// holds of it, and says whether it did. Off the board the predicate is
    /// not consulted and nothing changes.
    pub fn predicate_and_set<F>(&mut self, x: usize, y: usize, predicate: F) -> (r: bool) where
        F: Fn(usize, usize) -> bool,

        requires
            in_bounds(x as int, y as int) ==> call_requires(predicate, (x, y)),
        ensures
            r ==> in_bounds(x as int, y as int),
            in_bounds(x as int, y as int) ==> call_ensures(predicate, (x, y), r),
            r ==> final(self)@ =~= old(self)@.insert(coord_index(x as int, y as int)),
            !r ==> *final(self) == *old(self),
            forall|j: int|
                #[trigger] final(self).has(j) == (old(self).has(j) || (r && j == coord_index(
                    x as int,
                    y as int,
                ))),
    {
        if x < 8 && y < 8 && predicate(x, y) {
            self.set((y * 8) + x, true);
            return true;
        }
        false
    }

    /// Adds the square at `(x, y)` when it lies on the board and no piece
    /// stands on it on `board`; says whether it did.
    pub fn is_empty_on_board_and_set(&mut self, board: &Board, x: usize, y: usize) -> (r: bool)
        requires
            board.placement_wf(),
        ensures
            r == (in_bounds(x as int, y as int) && !board@.occupied(x as int, y as int)),
            r ==> final(self)@ =~= old(self)@.insert(coord_index(x as int, y as int)),
            !r ==> *final(self) == *old(self),
    {
        let is_free = |x: usize, y: usize| -> (b: bool)
            requires
                in_bounds(x as int, y as int),
            ensures
                b == !board@.occupied(x as int, y as int),
            { board.is_empty(y * 8 + x) };
        self.predicate_and_set(x, y, is_free)
    }

    /// Adds the square at `(x, y)` when it lies on the board and its
    /// membership in `compare` equals `compare_value`; says whether it did.
    pub fn compare_and_set(&mut self, compare: Self, compare_value: bool, x: usize, y: usize) -> (r:
        bool)
        ensures
            r == (in_bounds(x as int, y as int) && compare@.contains(
                coord_index(x as int, y as int),
            ) == compare_value),
            r ==> final(self)@ =~= old(self)@.insert(coord_index(x as int, y as int)),
            !r ==> *final(self) == *old(self),
            forall|j: int|
                #[trigger] final(self).has(j) == (old(self).has(j) || (r && j == coord_index(
                    x as int,
                    y as int,
                ))),
    {
        let matches_value = |x: usize, y: usize| -> (b: bool)
            requires
                in_bounds(x as int, y as int),
            ensures
                b == (compare@.contains(coord_index(x as int, y as int)) == compare_value),
            { compare.get(y * 8 + x) == compare_value };
        self.predicate_and_set(x, y, matches_value)
    }

    /// The members of which `predicate` holds. The board is walked from its
    /// highest member down, and the predicate is asked once for each member.
    pub fn filter_on<F>(&self, predicate: F) -> (r: BitBoard) where F: Fn(usize) -> bool
        requires
            forall|i: usize| self@.contains(i as int) ==> call_requires(predicate, (i,)),
        ensures
            r@.subset_of(self@),
            forall|i: usize| r@.contains(i as int) ==> call_ensures(predicate, (i,), true),
            forall|i: usize|
                self@.contains(i as int) && !r@.contains(i as int) ==> call_ensures(
                    predicate,
                    (i,),
                    false,
                ),
    {
        let mut rest = *self;
        let mut board = BitBoard::empty();
        let mut bound: usize = 64;
        loop
            invariant
                bound <= 64,
                forall|i: int| rest@.contains(i) == (self@.contains(i) && i < bound),
                forall|i: usize| self@.contains(i as int) ==> call_requires(predicate, (i,)),
                forall|i: int| board@.contains(i) ==> self@.contains(i) && i >= bound,
                forall|i: usize| board@.contains(i as int) ==> call_ensures(predicate, (i,), true),
                forall|i: usize|
                    self@.contains(i as int) && i >= bound && !board@.contains(i as int)
                        ==> call_ensures(predicate, (i,), false),
            ensures
                board@.subset_of(self@),
                forall|i: usize| board@.contains(i as int) ==> call_ensures(predicate, (i,), true),
                forall|i: usize|
                    self@.contains(i as int) && !board@.contains(i as int) ==> call_ensures(
                        predicate,
                        (i,),
                        false,
                    ),
            decreases rest.0,
        {
            match rest.count_and_pop_highest() {
                Some(index) => {
                    let keep = predicate(index);
                    board.set(index, keep);
                    bound = index;
                },
                None => {
                    break ;
                },
            }
        }
        board
    }

    /// The members as a list, highest square first.
    pub fn to_indices(&self) -> (r: Vec<usize>)
        ensures
            r@.map_values(|i: usize| i as int) =~= self.descending(),
            forall|i: int| 0 <= i < r.len() ==> (#[trigger] r@[i]) < 64,
    {
        let mut out: Vec<usize> = Vec::new();
        let mut n: usize = 64;
        while n > 0
            invariant
                n <= 64,
                forall|i: int| 0 <= i < out.len() ==> (#[trigger] out@[i]) < 64,
                out@.map_values(|i: usize| i as int) + self.descending_below(n as int)
                    =~= self.descending(),
            decreases n,
        {
            let ghost before = out@;
            n = n - 1;
            if self.get(n) {
                out.push(n);
                assert(out@.map_values(|i: usize| i as int) =~= before.map_values(
                    |i: usize| i as int,
                ) + seq![n as int]);
            }
            assert(self.descending_below(n as int + 1) =~= if self.has(n as int) {
                seq![n as int] + self.descending_below(n as int)
            } else {
                self.descending_below(n as int)
            });
        }
        out
    }
}

impl core::ops::BitAnd for BitBoard {
    type Output = BitBoard;

    /// Set intersection.
    #[inline]
    fn bitand(self, other: BitBoard) -> (r: BitBoard) {
        self.intersection(other)
    }
}

impl vstd::std_specs::ops::BitAndSpecImpl for BitBoard {
    open spec fn obeys_bitand_spec() -> bool {
        true
    }

    open spec fn bitand_req(self, other: BitBoard) -> bool {
        true
    }

    open spec fn bitand_spec(self, other: BitBoard) -> BitBoard {
        BitBoard(self.0 & other.0)
    }
}

impl core::ops::BitOr for BitBoard {
    type Output = BitBoard;

    /// Set union.
    #[inline]
    fn bitor(self, other: BitBoard) -> (r: BitBoard) {
        self.union(other)
    }
}

impl vstd::std_specs::ops::BitOrSpecImpl for BitBoard {
    open spec fn obeys_bitor_spec() -> bool {
        true
    }

    open spec fn bitor_req(self, other: BitBoard) -> bool {
        true
    }

    open spec fn bitor_spec(self, other: BitBoard) -> BitBoard {
        BitBoard(self.0 | other.0)
    }
}

impl core::ops::BitXor for BitBoard {
    type Output = BitBoard;

    /// Symmetric difference.
    #[inline]
    fn bitxor(self, other: BitBoard) -> (r: BitBoard) {
        self.xor(other)
    }
}

impl vstd::std_specs::ops::BitXorSpecImpl for BitBoard {
    open spec fn obeys_bitxor_spec() -> bool {
        true
    }

    open spec fn bitxor_req(self, other: BitBoard) -> bool {
        true
    }

    open spec fn bitxor_spec(self, other: BitBoard) -> BitBoard {
        BitBoard(self.0 ^ other.0)
    }
}

impl core::ops::Not for BitBoard {
    type Output = BitBoard;

    /// Complement within the board.
    #[inline]
    fn not(self) -> (r: BitBoard) {
        self.complement()
    }
}

impl vstd::std_specs::ops::NotSpecImpl for BitBoard {
    open spec fn obeys_not_spec() -> bool {
        true
    }

    open spec fn not_req(self) -> bool {
        true
    }

    open spec fn not_spec(self) -> BitBoard {
        BitBoard(!self.0)
    }
}

/// The operators `&`, `|`, `^` and `!` on boards are intersection, union,
/// symmetric difference and complement of their sets of squares.
pub proof fn lemma_operators(a: BitBoard, b: BitBoard)
    ensures
        BitBoard(a.0 & b.0)@ =~= a@.intersect(b@),
        BitBoard(a.0 | b.0)@ =~= a@.union(b@),
        BitBoard(a.0 ^ b.0)@ =~= a@.difference(b@).union(b@.difference(a@)),
        BitBoard(!a.0)@ =~= all_squares().difference(a@),
{
    assert forall|j: int| 0 <= j < 64 implies BitBoard(a.0 & b.0).has(j) == (a.has(j) && b.has(j))
        && BitBoard(a.0 | b.0).has(j) == (a.has(j) || b.has(j)) && BitBoard(a.0 ^ b.0).has(j) == (
    a.has(j) != b.has(j)) && BitBoard(!a.0).has(j) == !a.has(j) by {
        lemma_bit_ops(a.0, b.0, j as u64);
    }
}

} // verus!
