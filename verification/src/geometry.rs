//! Integer 2D geometry: coordinates, the four unit directions, closed
//! intervals (segments), axis-aligned rectangles, and the zig-zag traversal
//! order over both. The zig-zag order enumerates the integers of an interval
//! by increasing distance from zero, positive side first on ties; rotation
//! correction relies on it to try the smallest displacement first.
use vstd::prelude::*;

verus! {

// ---------------------------------------------------------------------------
// Directions
// ---------------------------------------------------------------------------

/// A shift by one unit of measurement; used both for piece shapes and for
/// movement commands.
#[derive(Debug, Clone, Copy, PartialEq, Eq, Structural)]
pub enum Direction {
    Top,
    Rgt,
    Dwn,
    Lft,
}

/// Horizontal component of the unit vector of a direction.
pub open spec fn dir_dx(d: Direction) -> int {
    match d {
        Direction::Rgt => 1,
        Direction::Lft => -1,
        _ => 0,
    }
}

/// Vertical component of the unit vector of a direction.
pub open spec fn dir_dy(d: Direction) -> int {
    match d {
        Direction::Top => 1,
        Direction::Dwn => -1,
        _ => 0,
    }
}

/// The clockwise successor of a direction.
pub open spec fn spec_cw(d: Direction) -> Direction {
    match d {
        Direction::Top => Direction::Rgt,
        Direction::Rgt => Direction::Dwn,
        Direction::Dwn => Direction::Lft,
        Direction::Lft => Direction::Top,
    }
}

/// The counter-clockwise successor of a direction.
pub open spec fn spec_ccw(d: Direction) -> Direction {
    match d {
        Direction::Top => Direction::Lft,
        Direction::Lft => Direction::Dwn,
        Direction::Dwn => Direction::Rgt,
        Direction::Rgt => Direction::Top,
    }
}

/// Rotating one way and then the other restores a direction, and four
/// quarter turns the same way are the identity.
pub proof fn lemma_rotation_cancels(d: Direction)
    ensures
        spec_ccw(spec_cw(d)) == d,
        spec_cw(spec_ccw(d)) == d,
        spec_cw(spec_cw(spec_cw(spec_cw(d)))) == d,
        spec_ccw(spec_ccw(spec_ccw(spec_ccw(d)))) == d,
{
}

impl Direction {
    /// Replaces the direction by its clockwise or counter-clockwise successor.
    pub fn rotate(&mut self, clockwise: bool)
        ensures
            *final(self) == if clockwise {
                spec_cw(*old(self))
            } else {
                spec_ccw(*old(self))
            },
    {
        if clockwise {
            self.clockwise()
        } else {
            self.counterclockwise()
        }
    }

    pub fn clockwise(&mut self)
        ensures
            *final(self) == spec_cw(*old(self)),
    {
        *self = match self {
            Direction::Top => Direction::Rgt,
            Direction::Rgt => Direction::Dwn,
            Direction::Dwn => Direction::Lft,
            Direction::Lft => Direction::Top,
        };
    }

    pub fn counterclockwise(&mut self)
        ensures
            *final(self) == spec_ccw(*old(self)),
    {
        *self = match self {
            Direction::Top => Direction::Lft,
            Direction::Lft => Direction::Dwn,
            Direction::Dwn => Direction::Rgt,
            Direction::Rgt => Direction::Top,
        };
    }

    /// The unit displacement vector of the direction.
    pub fn as_coord(self) -> (c: Coord)
        ensures
            c.x as int == dir_dx(self),
            c.y as int == dir_dy(self),
    {
        match self {
            Direction::Top => Coord { x: 0, y: 1 },
            Direction::Rgt => Coord { x: 1, y: 0 },
            Direction::Dwn => Coord { x: 0, y: -1 },
            Direction::Lft => Coord { x: -1, y: 0 },
        }
    }
}

// ---------------------------------------------------------------------------
// Coordinates
// ---------------------------------------------------------------------------

/// A point or a displacement vector, depending on use.
#[derive(Debug, Clone, Copy, PartialEq, Eq, Structural)]
pub struct Coord {
    pub x: i8,
    pub y: i8,
}

impl Coord {
    pub fn new(x: i8, y: i8) -> (r: Coord)
        ensures
            r.x == x && r.y == y,
    {
        Coord { x, y }
    }

    /// The coordinate translated by `(dx, dy)`.
    pub fn offset(self, dx: i8, dy: i8) -> (r: Coord)
        requires
            i8::MIN <= self.x + dx <= i8::MAX,
            i8::MIN <= self.y + dy <= i8::MAX,
        ensures
            r.x == self.x + dx,
            r.y == self.y + dy,
    {
        Coord { x: self.x + dx, y: self.y + dy }
    }

    /// Translates in place by the unit vector of a direction.
    pub fn add_dir(&mut self, dir: Direction)
        requires
            i8::MIN <= old(self).x + dir_dx(dir) <= i8::MAX,
            i8::MIN <= old(self).y + dir_dy(dir) <= i8::MAX,
        ensures
            final(self).x == old(self).x + dir_dx(dir),
            final(self).y == old(self).y + dir_dy(dir),
    {
        let dx: i8 = match dir {
            Direction::Rgt => 1,
            Direction::Lft => -1,
            _ => 0,
        };
        let dy: i8 = match dir {
            Direction::Top => 1,
            Direction::Dwn => -1,
            _ => 0,
        };
        *self = Coord { x: self.x + dx, y: self.y + dy };
    }

    /// Translates in place by a displacement vector.
    pub fn add_coord(&mut self, motion: Coord)
        requires
            i8::MIN <= old(self).x + motion.x <= i8::MAX,
            i8::MIN <= old(self).y + motion.y <= i8::MAX,
        ensures
            final(self).x == old(self).x + motion.x,
            final(self).y == old(self).y + motion.y,
    {
        *self = Coord { x: self.x + motion.x, y: self.y + motion.y };
    }

    /// Undoes a translation by a displacement vector.
    pub fn sub_coord(&mut self, motion: Coord)
        requires
            i8::MIN <= old(self).x - motion.x <= i8::MAX,
            i8::MIN <= old(self).y - motion.y <= i8::MAX,
        ensures
            final(self).x == old(self).x - motion.x,
            final(self).y == old(self).y - motion.y,
    {
        *self = Coord { x: self.x - motion.x, y: self.y - motion.y };
    }
}

// ---------------------------------------------------------------------------
// The zig-zag order on an interval
// ---------------------------------------------------------------------------
//
// The integers of `[lo, hi]` sorted by increasing absolute value, the positive
// value first when two share one. `zz_at(lo, hi, i)` is the `i`-th value of
// that order; the closed formula below splits into an all-positive interval
// (ascending), an all-negative one (descending), and the mixed case, where the
// two sides alternate until the shorter one is exhausted.

/// Whether `v` lies in the closed interval `[lo, hi]`.
pub open spec fn zz_in(lo: int, hi: int, v: int) -> bool {
    lo <= v <= hi
}

/// Number of integers in `[lo, hi]`.
pub open spec fn zz_len(lo: int, hi: int) -> int {
    hi - lo + 1
}

/// The `i`-th integer of `[lo, hi]` in zig-zag order.
pub open spec fn zz_at(lo: int, hi: int, i: int) -> int {
    if lo > 0 {
        lo + i
    } else if hi < 0 {
        hi - i
    } else {
        let m = if hi <= -lo {
            hi
        } else {
            -lo
        };
        if i <= 2 * m {
            if i % 2 == 1 {
                (i + 1) / 2
            } else {
                -(i / 2)
            }
        } else {
            if hi >= -lo {
                i - m
            } else {
                -(i - m)
            }
        }
    }
}

/// The successor of `c` in the unbounded zig-zag order
/// `0, 1, -1, 2, -2, ...`: reflect about zero, stepping outward on the
/// positive side.
pub open spec fn zz_next(c: int) -> int {
    if -c >= 0 {
        -c + 1
    } else {
        -c
    }
}

/// Index of `v` in the unbounded zig-zag order.
pub open spec fn zz_gpos(v: int) -> int {
    if v > 0 {
        2 * v - 1
    } else {
        -2 * v
    }
}

/// The first value the zig-zag order of `[lo, hi]` visits: zero when the
/// interval holds it, otherwise the end nearest to zero.
pub proof fn lemma_zz_first(lo: int, hi: int)
    requires
        lo <= hi,
    ensures
        zz_at(lo, hi, 0) == if lo <= 0 && 0 <= hi {
            0int
        } else if lo > 0 {
            lo
        } else {
            hi
        },
        zz_in(lo, hi, zz_at(lo, hi, 0)),
{
}

/// Every value of the order lies in the interval.
pub proof fn lemma_zz_range(lo: int, hi: int, i: int)
    requires
        lo <= hi,
        0 <= i < zz_len(lo, hi),
    ensures
        zz_in(lo, hi, zz_at(lo, hi, i)),
{
    if lo > 0 || hi < 0 {
    } else {
        let m = if hi <= -lo {
            hi
        } else {
            -lo
        };
        if i <= 2 * m {
            if i % 2 == 1 {
                assert(1 <= (i + 1) / 2 <= m);
            } else {
                assert(0 <= i / 2 <= m);
            }
        }
    }
}

/// The order never visits a value twice: its global zig-zag index grows
/// strictly along the sequence.
pub proof fn lemma_zz_monotone(lo: int, hi: int, i: int)
    requires
        lo <= hi,
        0 <= i < zz_len(lo, hi) - 1,
    ensures
        zz_gpos(zz_at(lo, hi, i)) < zz_gpos(zz_at(lo, hi, i + 1)),
{
    if lo > 0 || hi < 0 {
    } else {
        let m = if hi <= -lo {
            hi
        } else {
            -lo
        };
        if i + 1 <= 2 * m {
            if i % 2 == 1 {
                assert(zz_gpos(zz_at(lo, hi, i)) == i);
            } else {
                assert(zz_gpos(zz_at(lo, hi, i)) == i);
            }
            assert(zz_gpos(zz_at(lo, hi, i + 1)) == i + 1);
        } else if i <= 2 * m {
            assert(zz_gpos(zz_at(lo, hi, i)) == i);
        }
    }
}

/// Distinctness of the zig-zag order: two indices never map to one value.
pub proof fn lemma_zz_distinct(lo: int, hi: int, i: int, j: int)
    requires
        lo <= hi,
        0 <= i < zz_len(lo, hi),
        0 <= j < zz_len(lo, hi),
        i != j,
    ensures
        zz_at(lo, hi, i) != zz_at(lo, hi, j),
    decreases hi - lo - i - j,
{
    let a = if i < j {
        i
    } else {
        j
    };
    let b = if i < j {
        j
    } else {
        i
    };
    lemma_zz_gpos_increases(lo, hi, a, b);
}

/// Helper: the global index strictly increases between any two positions.
proof fn lemma_zz_gpos_increases(lo: int, hi: int, a: int, b: int)
    requires
        lo <= hi,
        0 <= a < b < zz_len(lo, hi),
    ensures
        zz_gpos(zz_at(lo, hi, a)) < zz_gpos(zz_at(lo, hi, b)),
    decreases b - a,
{
    if b == a + 1 {
        lemma_zz_monotone(lo, hi, a);
    } else {
        lemma_zz_gpos_increases(lo, hi, a, b - 1);
        lemma_zz_monotone(lo, hi, b - 1);
    }
}

/// How the iterator finds the successor: from the `i`-th value, at most three
/// outward reflections reach the `(i+1)`-th, and every value skipped on the
/// way lies outside the interval.
pub proof fn lemma_zz_step(lo: int, hi: int, i: int)
    requires
        lo <= hi,
        0 <= i < zz_len(lo, hi) - 1,
    ensures
        ({
            let c = zz_at(lo, hi, i);
            let c1 = zz_next(c);
            let c2 = zz_next(c1);
            let c3 = zz_next(c2);
            if zz_in(lo, hi, c1) {
                zz_at(lo, hi, i + 1) == c1
            } else if zz_in(lo, hi, c2) {
                zz_at(lo, hi, i + 1) == c2
            } else {
                zz_in(lo, hi, c3) && zz_at(lo, hi, i + 1) == c3
            }
        }),
{
    if lo > 0 {
    } else if hi < 0 {
    } else {
        let m = if hi <= -lo {
            hi
        } else {
            -lo
        };
        if i + 1 <= 2 * m {
            if i % 2 == 1 {
                assert(zz_at(lo, hi, i) == (i + 1) / 2);
                assert((i + 1) % 2 == 0);
            } else {
                assert(zz_at(lo, hi, i) == -(i / 2));
                assert((i + 1) % 2 == 1);
            }
        } else if i == 2 * m {
            assert(zz_at(lo, hi, i) == -m);
        } else {
            assert(i > 2 * m);
        }
    }
}

/// After the last value, three further reflections all leave the interval, so
/// the iterator knows it is done.
pub proof fn lemma_zz_last(lo: int, hi: int)
    requires
        lo <= hi,
    ensures
        ({
            let c = zz_at(lo, hi, zz_len(lo, hi) - 1);
            let c1 = zz_next(c);
            let c2 = zz_next(c1);
            let c3 = zz_next(c2);
            !zz_in(lo, hi, c1) && !zz_in(lo, hi, c2) && !zz_in(lo, hi, c3)
        }),
{
    if lo > 0 {
    } else if hi < 0 {
    } else {
        let m = if hi <= -lo {
            hi
        } else {
            -lo
        };
        let last = zz_len(lo, hi) - 1;
        if last <= 2 * m {
            assert(last == 2 * m);
            assert(zz_at(lo, hi, last) == -m);
        }
    }
}

// ---------------------------------------------------------------------------
// Segments
// ---------------------------------------------------------------------------

/// A closed integer interval; both ends belong to it.
#[derive(Debug, Clone, Copy, PartialEq, Eq, Structural)]
pub struct Segment {
    /// left-hand end
    pub lhe: i8,
    /// right-hand end
    pub rhe: i8,
}

impl Segment {
    pub fn new(lhe: i8, rhe: i8) -> (r: Segment)
        ensures
            r.lhe == lhe && r.rhe == rhe,
    {
        Segment { lhe, rhe }
    }

    /// Swaps the ends when they are out of order, so that `lhe <= rhe`.
    pub fn ascending_order(&mut self)
        ensures
            final(self).lhe <= final(self).rhe,
            final(self).lhe == if old(self).lhe <= old(self).rhe {
                old(self).lhe
            } else {
                old(self).rhe
            },
            final(self).rhe == if old(self).lhe <= old(self).rhe {
                old(self).rhe
            } else {
                old(self).lhe
            },
    {
        if self.lhe > self.rhe {
            *self = Segment { lhe: self.rhe, rhe: self.lhe };
        }
    }

    /// Whether `point` lies on the segment.
    pub fn include_point(&self, point: i8) -> (r: bool)
        ensures
            r == (self.lhe <= point && point <= self.rhe),
    {
        self.lhe <= point && point <= self.rhe
    }

    /// Whether `other` lies entirely within the segment.
    pub fn include_segment(&self, other: Segment) -> (r: bool)
        ensures
            r == (self.lhe <= other.lhe && other.rhe <= self.rhe),
    {
        self.lhe <= other.lhe && other.rhe <= self.rhe
    }

    /// Number of integers on the segment.
    pub fn len(&self) -> (r: i8)
        requires
            self.lhe <= self.rhe,
            self.rhe - self.lhe + 1 <= i8::MAX,
        ensures
            r == self.rhe - self.lhe + 1,
    {
        self.rhe - self.lhe + 1
    }

    /// Stretches the segment just enough to take `point` in.
    pub fn extend(&mut self, point: i8)
        ensures
            final(self).lhe == if point < old(self).lhe {
                point
            } else {
                old(self).lhe
            },
            final(self).rhe == if old(self).rhe < point && !(point < old(self).lhe) {
                point
            } else {
                old(self).rhe
            },
    {
        if point < self.lhe {
            self.lhe = point;
        } else if self.rhe < point {
            self.rhe = point;
        }
    }

    /// The segment translated along its axis.
    pub fn translated(&self, motion: i8) -> (r: Segment)
        requires
            i8::MIN <= self.lhe + motion <= i8::MAX,
            i8::MIN <= self.rhe + motion <= i8::MAX,
        ensures
            r.lhe == self.lhe + motion,
            r.rhe == self.rhe + motion,
    {
        Segment { lhe: self.lhe + motion, rhe: self.rhe + motion }
    }

    /// Walks the segment in zig-zag order.
    pub fn iter(&self) -> (it: SegmentIter)
        requires
            self.lhe <= self.rhe,
        ensures
            it.wf(),
            it.slo() == self.lhe,
            it.shi() == self.rhe,
            it.spos() == 0,
    {
        SegmentIter { lo: self.lhe, hi: self.rhe, inited: true, curr: 0, pos: Ghost(0) }
    }
}

// ---------------------------------------------------------------------------
// Segment iterator
// ---------------------------------------------------------------------------

/// Yields the integers of a segment in zig-zag order; restartable through
/// `reset`.
pub struct SegmentIter {
    lo: i8,
    hi: i8,
    /// true until the first value has been produced
    inited: bool,
    /// the value produced last
    curr: i8,
    /// how many values have been produced
    pos: Ghost<int>,
}

impl SegmentIter {
    /// Lower end of the segment being walked.
    pub closed spec fn slo(self) -> int {
        self.lo as int
    }

    /// Upper end of the segment being walked.
    pub closed spec fn shi(self) -> int {
        self.hi as int
    }

    /// Number of values produced so far.
    pub closed spec fn spos(self) -> int {
        self.pos@
    }

    pub closed spec fn wf(self) -> bool {
        &&& self.lo <= self.hi
        &&& if self.inited {
            self.pos@ == 0
        } else {
            &&& 1 <= self.pos@ <= zz_len(self.lo as int, self.hi as int)
            &&& self.curr == zz_at(self.lo as int, self.hi as int, self.pos@ - 1)
        }
    }

    /// Restarts the walk from the beginning.
    pub fn reset(&mut self)
        requires
            old(self).wf(),
        ensures
            final(self).wf(),
            final(self).slo() == old(self).slo(),
            final(self).shi() == old(self).shi(),
            final(self).spos() == 0,
    {
        self.inited = true;
        proof {
            self.pos@ = 0;
        }
    }

    /// The next value of the zig-zag order, or `None` when the segment is
    /// exhausted.
    pub fn next(&mut self) -> (r: Option<i8>)
        requires
            old(self).wf(),
        ensures
            final(self).wf(),
            final(self).slo() == old(self).slo(),
            final(self).shi() == old(self).shi(),
            ({
                let lo = old(self).slo();
                let hi = old(self).shi();
                let p = old(self).spos();
                if p < zz_len(lo, hi) {
                    &&& r == Some(zz_at(lo, hi, p) as i8)
                    &&& zz_at(lo, hi, p) as i8 as int == zz_at(lo, hi, p)
                    &&& final(self).spos() == p + 1
                } else {
                    &&& r.is_none()
                    &&& final(self).spos() == p
                }
            }),
    {
        let ghost lo = self.lo as int;
        let ghost hi = self.hi as int;
        if self.inited {
            self.inited = false;
            let first: i8 = if self.lo <= 0 && 0 <= self.hi {
                0
            } else if self.lo > 0 {
                self.lo
            } else {
                self.hi
            };
            proof {
                lemma_zz_first(lo, hi);
                self.pos@ = 1;
            }
            self.curr = first;
            return Some(first);
        }
        proof {
            if self.pos@ < zz_len(lo, hi) {
                lemma_zz_step(lo, hi, self.pos@ - 1);
                lemma_zz_range(lo, hi, self.pos@);
            } else {
                lemma_zz_last(lo, hi);
            }
        }
        // Reflect outward up to three times; the first value that falls on
        // the segment is the successor, and three misses mean the walk is
        // done. The reflections may leave `i8` briefly, so they are computed
        // in a wider type.
        let low = self.lo as i16;
        let hiw = self.hi as i16;
        let mut c: i16 = self.curr as i16;
        c = -c;
        if c >= 0 {
            c = c + 1;
        }
        if low <= c && c <= hiw {
            self.curr = c as i8;
            proof {
                self.pos@ = self.pos@ + 1;
            }
            return Some(self.curr);
        }
        c = -c;
        if c >= 0 {
            c = c + 1;
        }
        if low <= c && c <= hiw {
            self.curr = c as i8;
            proof {
                self.pos@ = self.pos@ + 1;
            }
            return Some(self.curr);
        }
        c = -c;
        if c >= 0 {
            c = c + 1;
        }
        if low <= c && c <= hiw {
            self.curr = c as i8;
            proof {
                self.pos@ = self.pos@ + 1;
            }
            return Some(self.curr);
        }
        None
    }
}

// ---------------------------------------------------------------------------
// Rectangles
// ---------------------------------------------------------------------------

/// An axis-aligned rectangle of lattice points, stored as its bounds on each
/// axis; border points belong to it.
#[derive(Debug, Clone, Copy, PartialEq, Eq, Structural)]
pub struct Rectangle {
    /// bounds on the axis of x
    pub x_axis: Segment,
    /// bounds on the axis of y
    pub y_axis: Segment,
}

/// Whether both axes of the rectangle are in ascending order.
pub open spec fn rect_wf(r: Rectangle) -> bool {
    r.x_axis.lhe <= r.x_axis.rhe && r.y_axis.lhe <= r.y_axis.rhe
}

/// Number of lattice points the rectangle holds.
pub open spec fn rect_len(r: Rectangle) -> int {
    zz_len(r.x_axis.lhe as int, r.x_axis.rhe as int) * zz_len(r.y_axis.lhe as int, r.y_axis.rhe as int)
}

/// The `k`-th lattice point of the rectangle's traversal: the y-interval is
/// walked in zig-zag order on the outside, the x-interval on the inside.
pub open spec fn rect_at(r: Rectangle, k: int) -> (int, int) {
    let xlen = zz_len(r.x_axis.lhe as int, r.x_axis.rhe as int);
    (
        zz_at(r.x_axis.lhe as int, r.x_axis.rhe as int, k % xlen),
        zz_at(r.y_axis.lhe as int, r.y_axis.rhe as int, k / xlen),
    )
}

impl Rectangle {
    /// The smallest rectangle holding both corner points.
    pub fn from_coords(a: Coord, b: Coord) -> (r: Rectangle)
        ensures
            rect_wf(r),
            r.x_axis.lhe == if a.x <= b.x {
                a.x
            } else {
                b.x
            },
            r.x_axis.rhe == if a.x <= b.x {
                b.x
            } else {
                a.x
            },
            r.y_axis.lhe == if a.y <= b.y {
                a.y
            } else {
                b.y
            },
            r.y_axis.rhe == if a.y <= b.y {
                b.y
            } else {
                a.y
            },
    {
        let mut x_axis = Segment::new(a.x, b.x);
        x_axis.ascending_order();
        let mut y_axis = Segment::new(a.y, b.y);
        y_axis.ascending_order();
        Rectangle { x_axis, y_axis }
    }

    /// Whether the point `(x, y)` lies in the rectangle.
    pub fn include_point(&self, x: i8, y: i8) -> (r: bool)
        ensures
            r == (self.x_axis.lhe <= x <= self.x_axis.rhe && self.y_axis.lhe <= y
                <= self.y_axis.rhe),
    {
        self.x_axis.include_point(x) && self.y_axis.include_point(y)
    }

    /// Stretches the rectangle just enough to take `point` in.
    pub fn extend(&mut self, point: Coord)
        ensures
            final(self).x_axis.lhe == if point.x < old(self).x_axis.lhe {
                point.x
            } else {
                old(self).x_axis.lhe
            },
            final(self).x_axis.rhe == if old(self).x_axis.rhe < point.x && !(point.x < old(
                self,
            ).x_axis.lhe) {
                point.x
            } else {
                old(self).x_axis.rhe
            },
            final(self).y_axis.lhe == if point.y < old(self).y_axis.lhe {
                point.y
            } else {
                old(self).y_axis.lhe
            },
            final(self).y_axis.rhe == if old(self).y_axis.rhe < point.y && !(point.y < old(
                self,
            ).y_axis.lhe) {
                point.y
            } else {
                old(self).y_axis.rhe
            },
    {
        self.x_axis.extend(point.x);
        self.y_axis.extend(point.y);
    }

    /// Translates the rectangle by a displacement vector.
    pub fn translate(&mut self, motion: Coord)
        requires
            i8::MIN <= old(self).x_axis.lhe + motion.x <= i8::MAX,
            i8::MIN <= old(self).x_axis.rhe + motion.x <= i8::MAX,
            i8::MIN <= old(self).y_axis.lhe + motion.y <= i8::MAX,
            i8::MIN <= old(self).y_axis.rhe + motion.y <= i8::MAX,
        ensures
            final(self).x_axis.lhe == old(self).x_axis.lhe + motion.x,
            final(self).x_axis.rhe == old(self).x_axis.rhe + motion.x,
            final(self).y_axis.lhe == old(self).y_axis.lhe + motion.y,
            final(self).y_axis.rhe == old(self).y_axis.rhe + motion.y,
    {
        *self = Rectangle {
            x_axis: self.x_axis.translated(motion.x),
            y_axis: self.y_axis.translated(motion.y),
        };
    }

    /// Moves the rectangle so that it and `other` form a letter T upside
    /// down: bottoms aligned, horizontally centred on one another, the odd
    /// leftover column going to the side chosen by which of the two is
    /// wider. Returns the motion vector that was applied.
    pub fn move_to(&mut self, other: &Rectangle) -> (motion: Coord)
        requires
            rect_wf(*old(self)),
            rect_wf(*other),
            i8::MIN <= move_to_dx(*old(self), *other) <= i8::MAX,
            i8::MIN <= move_to_dy(*old(self), *other) <= i8::MAX,
            i8::MIN <= old(self).x_axis.lhe + move_to_dx(*old(self), *other),
            old(self).x_axis.rhe + move_to_dx(*old(self), *other) <= i8::MAX,
            i8::MIN <= old(self).y_axis.lhe + move_to_dy(*old(self), *other),
            old(self).y_axis.rhe + move_to_dy(*old(self), *other) <= i8::MAX,
        ensures
            motion.x == move_to_dx(*old(self), *other),
            motion.y == move_to_dy(*old(self), *other),
            final(self).x_axis.lhe == old(self).x_axis.lhe + motion.x,
            final(self).x_axis.rhe == old(self).x_axis.rhe + motion.x,
            final(self).y_axis.lhe == old(self).y_axis.lhe + motion.y,
            final(self).y_axis.rhe == old(self).y_axis.rhe + motion.y,
    {
        let self_width: i16 = self.x_axis.rhe as i16 - self.x_axis.lhe as i16 + 1;
        let other_width: i16 = other.x_axis.rhe as i16 - other.x_axis.lhe as i16 + 1;

        // how far from the other's left side this one will be placed
        let mut offset_x: i16 = if self_width >= other_width {
            (self_width - other_width) / 2
        } else {
            (other_width - self_width) / 2
        };

        // its sign is the direction in which this rectangle's left border
        // lands relative to the other's left border
        if other_width < self_width {
            offset_x = -offset_x;
        }

        let motion = Coord {
            x: (other.x_axis.lhe as i16 + offset_x - self.x_axis.lhe as i16) as i8,
            y: other.y_axis.lhe - self.y_axis.lhe,
        };
        self.translate(motion);
        motion
    }

    /// Walks every lattice point of the rectangle, the y axis outside, the x
    /// axis inside, each in zig-zag order.
    pub fn iter(&self) -> (it: RectangleIter)
        requires
            rect_wf(*self),
        ensures
            it.wf(),
            it.rect() == *self,
            it.rpos() == 0,
    {
        RectangleIter {
            inited: true,
            curr_y: 0,
            y_iter: self.y_axis.iter(),
            x_iter: self.x_axis.iter(),
        }
    }
}

/// The horizontal displacement `move_to` applies: centres `r` over `other`,
/// the leftover of an odd width difference biased by which of the two is
/// wider.
pub open spec fn move_to_dx(r: Rectangle, other: Rectangle) -> int {
    let sw = zz_len(r.x_axis.lhe as int, r.x_axis.rhe as int);
    let ow = zz_len(other.x_axis.lhe as int, other.x_axis.rhe as int);
    let off = if ow < sw {
        -(abs_int(sw - ow) / 2)
    } else {
        abs_int(sw - ow) / 2
    };
    other.x_axis.lhe + off - r.x_axis.lhe
}

/// The vertical displacement `move_to` applies: aligns the bottoms.
pub open spec fn move_to_dy(r: Rectangle, other: Rectangle) -> int {
    other.y_axis.lhe - r.y_axis.lhe
}

/// Absolute value.
pub open spec fn abs_int(v: int) -> int {
    if v < 0 {
        -v
    } else {
        v
    }
}

// ---------------------------------------------------------------------------
// Rectangle iterator
// ---------------------------------------------------------------------------

/// Yields every lattice point of a rectangle, smallest offsets first on both
/// axes.
pub struct RectangleIter {
    /// true until the first y value has been taken
    inited: bool,
    /// the y value of the row being walked
    curr_y: i8,
    y_iter: SegmentIter,
    x_iter: SegmentIter,
}

impl RectangleIter {
    /// The rectangle being walked.
    pub closed spec fn rect(self) -> Rectangle {
        Rectangle {
            x_axis: Segment { lhe: self.x_iter.slo() as i8, rhe: self.x_iter.shi() as i8 },
            y_axis: Segment { lhe: self.y_iter.slo() as i8, rhe: self.y_iter.shi() as i8 },
        }
    }

    /// Number of points produced so far.
    pub closed spec fn rpos(self) -> int {
        if self.inited {
            0
        } else {
            (self.y_iter.spos() - 1) * zz_len(self.x_iter.slo(), self.x_iter.shi())
                + self.x_iter.spos()
        }
    }

    pub closed spec fn wf(self) -> bool {
        let xlen = zz_len(self.x_iter.slo(), self.x_iter.shi());
        let ylen = zz_len(self.y_iter.slo(), self.y_iter.shi());
        &&& self.x_iter.wf()
        &&& self.y_iter.wf()
        &&& if self.inited {
            self.x_iter.spos() == 0 && self.y_iter.spos() == 0
        } else {
            &&& 1 <= self.y_iter.spos() <= ylen
            &&& self.x_iter.spos() <= xlen
            &&& self.curr_y == zz_at(self.y_iter.slo(), self.y_iter.shi(), self.y_iter.spos() - 1)
            &&& (self.y_iter.spos() == ylen || self.x_iter.spos() < xlen || (self.x_iter.spos()
                == xlen && self.y_iter.spos() < ylen))
        }
    }

    /// The next lattice point of the traversal, or `None` when the rectangle
    /// is exhausted.
    pub fn next(&mut self) -> (r: Option<Coord>)
        requires
            old(self).wf(),
        ensures
            final(self).wf(),
            final(self).rect() == old(self).rect(),
            ({
                let p = old(self).rpos();
                if p < rect_len(old(self).rect()) {
                    &&& r matches Some(c) && c.x as int == rect_at(old(self).rect(), p).0 && c.y
                        as int == rect_at(old(self).rect(), p).1
                    &&& final(self).rpos() == p + 1
                } else {
                    &&& r.is_none()
                    &&& final(self).rpos() == p
                }
            }),
    {
        let ghost rct = self.rect();
        let ghost xlo = self.x_iter.slo();
        let ghost xhi = self.x_iter.shi();
        let ghost ylo = self.y_iter.slo();
        let ghost yhi = self.y_iter.shi();
        let ghost xlen = zz_len(xlo, xhi);
        let ghost ylen = zz_len(ylo, yhi);

        if self.inited {
            self.inited = false;
            match self.y_iter.next() {
                Some(y) => {
                    self.curr_y = y;
                },
                None => {
                    proof {
                        assert(false);
                    }
                    return None;
                },
            }
        }
        let ghost yp = self.y_iter.spos();
        let ghost xp = self.x_iter.spos();
        match self.x_iter.next() {
            Some(x) => {
                proof {
                    lemma_rect_pos(xlo, xhi, ylo, yhi, yp, xp);
                }
                Some(Coord { x, y: self.curr_y })
            },
            None => {
                match self.y_iter.next() {
                    None => {
                        proof {
                            vstd::arithmetic::mul::lemma_mul_is_distributive_add_other_way(
                                xlen,
                                ylen - 1,
                                1,
                            );
                            assert(((ylen - 1) + 1) * xlen == (ylen - 1) * xlen + 1 * xlen);
                            vstd::arithmetic::mul::lemma_mul_is_commutative(xlen, ylen);
                        }
                        None
                    },
                    Some(y) => {
                        self.curr_y = y;
                        self.x_iter.reset();
                        let nx = self.x_iter.next();
                        proof {
                            lemma_rect_pos(xlo, xhi, ylo, yhi, yp + 1, 0);
                            vstd::arithmetic::mul::lemma_mul_is_distributive_add_other_way(
                                xlen,
                                yp - 1,
                                1,
                            );
                            assert(((yp - 1) + 1) * xlen == (yp - 1) * xlen + 1 * xlen);
                        }
                        match nx {
                            Some(x) => Some(Coord { x, y }),
                            None => {
                                proof {
                                    assert(false);
                                }
                                None
                            },
                        }
                    },
                }
            },
        }
    }
}

/// Relates a component position of the rectangle walk to its flat index:
/// with `xp < xlen` values taken on the current row and `yp` rows begun, the
/// flat index `(yp - 1) * xlen + xp` is still inside the rectangle, and its
/// division by the row length recovers the two components.
proof fn lemma_rect_pos(xlo: int, xhi: int, ylo: int, yhi: int, yp: int, xp: int)
    requires
        xlo <= xhi,
        ylo <= yhi,
        1 <= yp <= zz_len(ylo, yhi),
        0 <= xp < zz_len(xlo, xhi),
    ensures
        ({
            let xlen = zz_len(xlo, xhi);
            let ylen = zz_len(ylo, yhi);
            let k = (yp - 1) * xlen + xp;
            &&& 0 <= k < xlen * ylen
            &&& k % xlen == xp
            &&& k / xlen == yp - 1
        }),
{
    let xlen = zz_len(xlo, xhi);
    let ylen = zz_len(ylo, yhi);
    let k = (yp - 1) * xlen + xp;
    vstd::arithmetic::div_mod::lemma_fundamental_div_mod_converse(k, xlen, yp - 1, xp);
    assert(k >= 0) by (nonlinear_arith)
        requires
            yp >= 1,
            xlen >= 1,
            xp >= 0,
            k == (yp - 1) * xlen + xp,
    ;
    assert(k < xlen * ylen) by (nonlinear_arith)
        requires
            1 <= yp <= ylen,
            xlen >= 1,
            0 <= xp < xlen,
            k == (yp - 1) * xlen + xp,
    ;
}

/// Every point of the rectangle's traversal lies in the rectangle.
pub proof fn lemma_rect_at_in(r: Rectangle, k: int)
    requires
        rect_wf(r),
        0 <= k < rect_len(r),
    ensures
        r.x_axis.lhe <= rect_at(r, k).0 <= r.x_axis.rhe,
        r.y_axis.lhe <= rect_at(r, k).1 <= r.y_axis.rhe,
{
    let xlo = r.x_axis.lhe as int;
    let xhi = r.x_axis.rhe as int;
    let ylo = r.y_axis.lhe as int;
    let yhi = r.y_axis.rhe as int;
    let xlen = zz_len(xlo, xhi);
    let ylen = zz_len(ylo, yhi);
    vstd::arithmetic::div_mod::lemma_fundamental_div_mod(k, xlen);
    vstd::arithmetic::div_mod::lemma_div_pos_is_pos(k, xlen);
    let q = k / xlen;
    let rem = k % xlen;
    assert(0 <= rem < xlen);
    assert(q < ylen) by (nonlinear_arith)
        requires
            k < xlen * ylen,
            xlen >= 1,
            k == xlen * q + rem,
            0 <= rem < xlen,
            q >= 0,
    ;
    lemma_zz_range(xlo, xhi, rem);
    lemma_zz_range(ylo, yhi, q);
}

/// The zig-zag walk of an interval `[lo, hi]` with `lo <= hi` visits exactly
/// `hi - lo + 1` values, all of them on the interval, no value twice, and
/// starts at zero whenever the interval holds zero.
pub proof fn lemma_zigzag_law(lo: int, hi: int)
    requires
        lo <= hi,
    ensures
        zz_len(lo, hi) == hi - lo + 1,
        forall|i: int| 0 <= i < zz_len(lo, hi) ==> zz_in(lo, hi, #[trigger] zz_at(lo, hi, i)),
        forall|i: int, j: int|
            0 <= i < zz_len(lo, hi) && 0 <= j < zz_len(lo, hi) && i != j ==> #[trigger] zz_at(
                lo,
                hi,
                i,
            ) != #[trigger] zz_at(lo, hi, j),
        lo <= 0 <= hi ==> zz_at(lo, hi, 0) == 0,
{
    assert forall|i: int| 0 <= i < zz_len(lo, hi) implies zz_in(
        lo,
        hi,
        #[trigger] zz_at(lo, hi, i),
    ) by {
        lemma_zz_range(lo, hi, i);
    }
    assert forall|i: int, j: int|
        0 <= i < zz_len(lo, hi) && 0 <= j < zz_len(lo, hi) && i != j implies #[trigger] zz_at(
        lo,
        hi,
        i,
    ) != #[trigger] zz_at(lo, hi, j) by {
        lemma_zz_distinct(lo, hi, i, j);
    }
}

} // verus!

