//! Walking the board along a rank, a file or a diagonal.

use vstd::prelude::*;

verus! {

/// -1, 0 or 1 according to the sign of `d`.
pub open spec fn sign(d: int) -> int {
    if d > 0 {
        1
    } else if d < 0 {
        -1
    } else {
        0
    }
}

/// The coordinate reached from `c` after `k` unit steps in the direction of `d`.
pub open spec fn offset(c: int, d: int, k: int) -> int {
    if d > 0 {
        c + k
    } else if d < 0 {
        c - k
    } else {
        c
    }
}

/// Steps left on one axis before `c`, moving in the direction of `d != 0`,
/// arrives at `e`.
pub open spec fn axis_room(c: int, e: int, d: int) -> int {
    if d > 0 {
        if e > c {
            e - c
        } else {
            0
        }
    } else {
        if c > e {
            c - e
        } else {
            0
        }
    }
}

/// Number of squares a walk yields: it stops as soon as a moving axis has
/// arrived at its end coordinate, and at once when it does not move.
pub open spec fn walk_len(cx: int, cy: int, ex: int, ey: int, dx: int, dy: int) -> int {
    if dx == 0 && dy == 0 {
        0
    } else if dx == 0 {
        axis_room(cy, ey, dy)
    } else if dy == 0 {
        axis_room(cx, ex, dx)
    } else if axis_room(cx, ex, dx) <= axis_room(cy, ey, dy) {
        axis_room(cx, ex, dx)
    } else {
        axis_room(cy, ey, dy)
    }
}

/// The first `n` squares after `(cx, cy)` in the direction of `(dx, dy)`.
pub open spec fn ray(cx: int, cy: int, dx: int, dy: int, n: int) -> Seq<(int, int)> {
    Seq::new(
        if n >= 0 {
            n as nat
        } else {
            0
        },
        |k: int| (offset(cx, dx, k + 1), offset(cy, dy, k + 1)),
    )
}

/// The squares walked from `(cx, cy)` towards the end `(ex, ey)`, the start
/// excluded, in the order of the walk.
pub open spec fn walk(cx: int, cy: int, ex: int, ey: int, dx: int, dy: int) -> Seq<(int, int)> {
    ray(cx, cy, dx, dy, walk_len(cx, cy, ex, ey, dx, dy))
}

/// The end that a walk in the direction of `d` has on one axis when it is
/// to run to the edge of the board.
pub open spec fn edge(d: int) -> int {
    if d < 0 {
        0
    } else {
        7
    }
}

/// A walk over squares in a straight line: along a rank, a file or a
/// diagonal, one square at a time.
pub struct CoordinateIterator {
    current: (usize, usize),
    end: (usize, usize),
    dx: isize,
    dy: isize,
}

impl View for CoordinateIterator {
    type V = Seq<(int, int)>;

    /// The squares still to come, in order.
    closed spec fn view(&self) -> Seq<(int, int)> {
        walk(
            self.current.0 as int,
            self.current.1 as int,
            self.end.0 as int,
            self.end.1 as int,
            self.dx as int,
            self.dy as int,
        )
    }
}

impl CoordinateIterator {
    /// The change per step, as the walk was made with.
    pub closed spec fn change(self) -> (int, int) {
        (self.dx as int, self.dy as int)
    }

    /// A walk from `start` (excluded) towards `end`: each coordinate moves
    /// by one towards its end, and the walk stops when a moving coordinate
    /// has arrived.
    pub fn from_to(start: (usize, usize), end: (usize, usize)) -> (r: Self)
        ensures
            r.change() == (sign(end.0 - start.0), sign(end.1 - start.1)),
            r@ == walk(
                start.0 as int,
                start.1 as int,
                end.0 as int,
                end.1 as int,
                sign(end.0 - start.0),
                sign(end.1 - start.1),
            ),
    {
        let dx: isize = if end.0 > start.0 {
            1
        } else if end.0 < start.0 {
            -1
        } else {
            0
        };
        let dy: isize = if end.1 > start.1 {
            1
        } else if end.1 < start.1 {
            -1
        } else {
            0
        };
        CoordinateIterator { current: start, end, dx, dy }
    }

    /// The same walk as `from_to`.
    pub fn new(start: (usize, usize), end: (usize, usize)) -> (r: Self)
        ensures
            r.change() == (sign(end.0 - start.0), sign(end.1 - start.1)),
            r@ == walk(
                start.0 as int,
                start.1 as int,
                end.0 as int,
                end.1 as int,
                sign(end.0 - start.0),
                sign(end.1 - start.1),
            ),
    {
        CoordinateIterator::from_to(start, end)
    }

    /// A walk from `start` (excluded) to the edge of the board in the
    /// direction of `delta`, of which only the signs count.
    pub fn from_delta(start: (usize, usize), delta: (isize, isize)) -> (r: Self)
        ensures
            r.change() == (delta.0 as int, delta.1 as int),
            r@ == walk(
                start.0 as int,
                start.1 as int,
                edge(delta.0 as int),
                edge(delta.1 as int),
                delta.0 as int,
                delta.1 as int,
            ),
    {
        CoordinateIterator {
            current: start,
            end: (
                if delta.0 < 0 {
                    0
                } else {
                    7
                },
                if delta.1 < 0 {
                    0
                } else {
                    7
                },
            ),
            dx: delta.0,
            dy: delta.1,
        }
    }

    /// The change per step.
    pub fn get_change(&self) -> (r: (isize, isize))
        ensures
            (r.0 as int, r.1 as int) == self.change(),
    {
        (self.dx, self.dy)
    }

    /// Takes the next square off the walk.
    pub fn next(&mut self) -> (r: Option<(usize, usize)>)
        ensures
            final(self).change() == old(self).change(),
            match r {
                Some(c) => old(self)@.len() > 0 && (c.0 as int, c.1 as int) == old(self)@[0]
                    && final(self)@ == old(self)@.drop_first(),
                None => old(self)@.len() == 0 && final(self)@ == old(self)@,
            },
    {
        let (cx, cy) = self.current;
        let (ex, ey) = self.end;
        let x_done = (self.dx > 0 && cx >= ex) || (self.dx < 0 && cx <= ex);
        let y_done = (self.dy > 0 && cy >= ey) || (self.dy < 0 && cy <= ey);
        if (self.dx == 0 && self.dy == 0) || x_done || y_done {
            return None;
        }
        let nx: usize = if self.dx > 0 {
            cx + 1
        } else if self.dx < 0 {
            cx - 1
        } else {
            cx
        };
        let ny: usize = if self.dy > 0 {
            cy + 1
        } else if self.dy < 0 {
            cy - 1
        } else {
            cy
        };
        self.current = (nx, ny);
        proof {
            assert(self@ =~= old(self)@.drop_first());
        }
        Some((nx, ny))
    }

    /// Walks on until `coord` is met, and says whether it was. The squares
    /// up to and including the one met are consumed; a walk that never
    /// meets it is consumed whole.
    pub fn contains(&mut self, coord: (usize, usize)) -> (r: bool)
        ensures
            r == old(self)@.contains((coord.0 as int, coord.1 as int)),
            final(self).change() == old(self).change(),
            !r ==> final(self)@.len() == 0,
            r ==> exists|k: int|
                0 <= k < old(self)@.len() && old(self)@[k] == (coord.0 as int, coord.1 as int)
                    && final(self)@ == old(self)@.skip(k + 1),
    {
        let ghost all = self@;
        let ghost mut seen: int = 0;
        loop
            invariant
                0 <= seen <= all.len(),
                self@ == all.skip(seen),
                self.change() == old(self).change(),
                all == old(self)@,
                forall|j: int| 0 <= j < seen ==> all[j] != (coord.0 as int, coord.1 as int),
            decreases all.len() - seen,
        {
            match self.next() {
                Some(c) => {
                    proof {
                        assert(all.skip(seen).drop_first() =~= all.skip(seen + 1));
                        assert(all.skip(seen)[0] == all[seen]);
                    }
                    if c.0 == coord.0 && c.1 == coord.1 {
                        return true;
                    }
                    proof {
                        seen = seen + 1;
                    }
                },
                None => {
                    assert(all.skip(seen).len() == 0);
                    return false;
                },
            }
        }
    }
}

} // verus!
