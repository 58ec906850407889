//! Pieces: a centre point plus three direction steps describing the
//! remaining blocks, either each relative to the block placed before it
//! ("chained") or each relative to the centre ("radial"). The generator
//! hands out the seven classic shapes at the spawn anchor, never the same
//! one twice in a row, each shape family in one color of a shuffled palette
//! whose last color is reserved for the field background.
#![allow(non_snake_case)]
use vstd::prelude::*;

use crate::color::{all_colors, Color, N_COLORS};
use crate::geometry::{dir_dx, dir_dy, Coord, Direction, Rectangle, Segment};
use crate::map::{
    blocks_ok, committed, field_unchanged, live_colored, piece_blocks, Field,
};
use crate::random::{non_serial_rnd, shuffle_colors};
use vstd::math::{max, min};

verus! {

/// Number of piece shapes the generator can produce.
pub const N_TETRIMINOS: u8 = 7;

/// Coordinates of the `i`-th block (0 through 3) of a piece: block 0 is the
/// centre; with `is_rel` each later block hangs off the one before it,
/// without it each hangs off the centre.
pub open spec fn block_at(center: Coord, shape: Seq<Direction>, is_rel: bool, i: int) -> (
    int,
    int,
)
    decreases i,
{
    if i <= 0 {
        (center.x as int, center.y as int)
    } else {
        let base = if is_rel {
            block_at(center, shape, is_rel, i - 1)
        } else {
            (center.x as int, center.y as int)
        };
        (base.0 + dir_dx(shape[i - 1]), base.1 + dir_dy(shape[i - 1]))
    }
}

/// A block is never further than `i` steps from the centre.
pub proof fn lemma_block_near_center(center: Coord, shape: Seq<Direction>, is_rel: bool, i: int)
    requires
        0 <= i,
    ensures
        center.x - i <= block_at(center, shape, is_rel, i).0 <= center.x + i,
        center.y - i <= block_at(center, shape, is_rel, i).1 <= center.y + i,
    decreases i,
{
    if i > 0 {
        lemma_block_near_center(center, shape, is_rel, i - 1);
    }
}

/// The four blocks of a falling piece.
pub struct Tetrimino {
    /// anchor of the shape
    center: Coord,
    /// position of the remaining blocks
    shape: Vec<Direction>,
    /// whether each step is relative to the block before it (chained) rather
    /// than to the centre (radial)
    is_rel: bool,
    /// pieces of the same shape share their color
    color: Color,
}

impl Tetrimino {
    pub closed spec fn spec_center(self) -> Coord {
        self.center
    }

    pub closed spec fn spec_shape(self) -> Seq<Direction> {
        self.shape@
    }

    pub closed spec fn spec_is_rel(self) -> bool {
        self.is_rel
    }

    pub closed spec fn spec_color(self) -> Color {
        self.color
    }

    /// The piece's color.
    pub fn color(&self) -> (c: Color)
        ensures
            c == self.spec_color(),
    {
        self.color
    }

    /// The piece's centre point.
    pub fn center(&self) -> (c: Coord)
        ensures
            c == self.spec_center(),
    {
        self.center
    }

    /// Three shape steps, and a centre far enough from the numeric limits
    /// that every trial position of interest still fits its type.
    pub open spec fn wf(self) -> bool {
        &&& self.spec_shape().len() == 3
        &&& -110 <= self.spec_center().x <= 110
        &&& -110 <= self.spec_center().y <= 110
    }

    /// Coordinates of the `i`-th block.
    pub open spec fn block(self, i: int) -> (int, int) {
        block_at(self.spec_center(), self.spec_shape(), self.spec_is_rel(), i)
    }

    /// Builds a piece; meant for tests and for the shape constructors.
    pub fn assemble(center: Coord, shape: Vec<Direction>, is_rel: bool, color: Color) -> (t:
        Tetrimino)
        ensures
            t.spec_center() == center,
            t.spec_shape() == shape@,
            t.spec_is_rel() == is_rel,
            t.spec_color() == color,
    {
        Tetrimino { center, shape, is_rel, color }
    }

    /// Walks the four block coordinates, the centre first.
    pub fn iter(&self) -> (it: TetriminoIter)
        requires
            self.wf(),
        ensures
            it.wf(),
            it.center() == self.spec_center(),
            it.steps() == self.spec_shape(),
            it.rel() == self.spec_is_rel(),
            it.at() == 0,
    {
        let mut steps: Vec<Direction> = Vec::new();
        steps.push(self.shape[0]);
        steps.push(self.shape[1]);
        steps.push(self.shape[2]);
        proof {
            assert(steps@ =~= self.shape@);
        }
        TetriminoIter {
            shape: steps,
            is_rel: self.is_rel,
            index: 0,
            point: self.center,
            start: Ghost(self.center),
        }
    }

    /// The four block coordinates as a vector, centre first.
    pub fn blocks(&self) -> (v: Vec<Coord>)
        requires
            self.wf(),
        ensures
            v@.len() == 4,
            forall|i: int|
                0 <= i < 4 ==> ((#[trigger] v@[i]).x as int, v@[i].y as int) == self.block(i),
    {
        let mut it = self.iter();
        let mut v: Vec<Coord> = Vec::new();
        let ghost me = *self;
        for k in 0..4usize
            invariant
                it.wf(),
                it.center() == me.spec_center(),
                it.steps() == me.spec_shape(),
                it.rel() == me.spec_is_rel(),
                it.at() == k,
                v@.len() == k,
                forall|i: int|
                    0 <= i < k ==> ((#[trigger] v@[i]).x as int, v@[i].y as int) == me.block(i),
        {
            match it.next() {
                Some(c) => v.push(c),
                None => {
                    proof {
                        assert(false);
                    }
                },
            }
        }
        v
    }

    /// The bounding rectangle of the four blocks, recomputed on demand.
    pub fn bounds(&self) -> (r: Rectangle)
        requires
            self.wf(),
        ensures
            r.x_axis.lhe as int == bb_min_x(*self),
            r.x_axis.rhe as int == bb_max_x(*self),
            r.y_axis.lhe as int == bb_min_y(*self),
            r.y_axis.rhe as int == bb_max_y(*self),
    {
        let bs = self.blocks();
        let mut rect = Rectangle::from_coords(self.center, self.center);
        rect.extend(bs[0]);
        rect.extend(bs[1]);
        rect.extend(bs[2]);
        rect.extend(bs[3]);
        rect
    }

    /// Tries to move the piece one cell towards `dir`. Upward shifts are
    /// rejected outright; otherwise the field validates the trial position,
    /// and a rejection leaves piece and field exactly as they were.
    pub fn shift(&mut self, dir: Direction, map: &mut Field) -> (r: bool)
        requires
            old(self).wf(),
            -90 <= old(self).spec_center().x <= 90,
            -90 <= old(self).spec_center().y <= 90,
            old(map).wf(),
            live_colored(*old(map), old(self).spec_color()),
        ensures
            final(self).wf(),
            final(map).wf(),
            final(map).background() == old(map).background(),
            final(self).spec_shape() == old(self).spec_shape(),
            final(self).spec_is_rel() == old(self).spec_is_rel(),
            final(self).spec_color() == old(self).spec_color(),
            dir == Direction::Top ==> !r && same_piece(*final(self), *old(self))
                && field_unchanged(*old(map), *final(map)),
            dir != Direction::Top ==> r == blocks_ok(*old(map), moved_blocks(*old(self), dir)),
            dir != Direction::Top && r ==> final(self).spec_center() == shift_target(
                *old(self),
                dir,
            ) && committed(*old(map), *final(map), *final(self)) && live_colored(
                *final(map),
                old(self).spec_color(),
            ),
            dir != Direction::Top && !r ==> same_piece(*final(self), *old(self))
                && field_unchanged(*old(map), *final(map)),
    {
        if dir == Direction::Top {
            return false;
        }
        let ghost t0 = *self;
        let motion = dir.as_coord();
        self.center.add_coord(motion);
        proof {
            assert(piece_blocks(*self) =~= moved_blocks(t0, dir));
        }
        if map.put(self) {
            true
        } else {
            self.center.sub_coord(motion);
            false
        }
    }

    /// Tries to turn the piece a quarter turn. The steps are rotated, the
    /// bounding box is re-anchored against the old one (bottom aligned,
    /// centred horizontally), and every displacement of the search window is
    /// tried in zig-zag order — the smallest correction first — until the
    /// field accepts one. When none fits, the rotation is undone completely.
    #[verifier::rlimit(100)]
    pub fn rotate(&mut self, clockwise: bool, map: &mut Field) -> (r: bool)
        requires
            old(self).wf(),
            -90 <= old(self).spec_center().x <= 90,
            -90 <= old(self).spec_center().y <= 90,
            old(map).wf(),
            live_colored(*old(map), old(self).spec_color()),
        ensures
            final(self).wf(),
            final(map).wf(),
            final(map).background() == old(map).background(),
            final(self).spec_color() == old(self).spec_color(),
            r == (exists|k: int|
                0 <= k < crate::geometry::rect_len(rot_rect(*old(self), clockwise)) && blocks_ok(
                    *old(map),
                    #[trigger] rot_cand_blocks(*old(self), clockwise, k),
                )),
            r ==> (exists|k: int|
                {
                    &&& 0 <= k < crate::geometry::rect_len(rot_rect(*old(self), clockwise))
                    &&& blocks_ok(*old(map), #[trigger] rot_cand_blocks(*old(self), clockwise, k))
                    &&& (forall|j: int|
                        0 <= j < k ==> !blocks_ok(
                            *old(map),
                            #[trigger] rot_cand_blocks(*old(self), clockwise, j),
                        ))
                    &&& is_rot_cand(*old(self), clockwise, k, *final(self))
                }) && committed(*old(map), *final(map), *final(self)) && live_colored(
                *final(map),
                old(self).spec_color(),
            ),
            !r ==> same_piece(*final(self), *old(self)) && field_unchanged(
                *old(map),
                *final(map),
            ),
    {
        let ghost t0 = *self;
        let ghost m0 = *map;
        proof {
            lemma_bb_of_bounds(t0.spec_center(), t0.spec_shape(), t0.spec_is_rel());
            lemma_bb_of_bounds(
                t0.spec_center(),
                rotated_shape(t0.spec_shape(), clockwise),
                t0.spec_is_rel(),
            );
        }
        let old_bounds = self.bounds();

        // turn the steps themselves; chained or radial makes no difference
        for i in 0..3usize
            invariant
                *map == m0,
                t0.spec_shape().len() == 3,
                self.shape@.len() == 3,
                self.center == t0.spec_center(),
                self.is_rel == t0.spec_is_rel(),
                self.color == t0.spec_color(),
                forall|j: int|
                    0 <= j < i ==> #[trigger] self.shape@[j] == rotated_shape(
                        t0.spec_shape(),
                        clockwise,
                    )[j],
                forall|j: int| i <= j < 3 ==> #[trigger] self.shape@[j] == t0.spec_shape()[j],
        {
            let mut d = self.shape[i];
            d.rotate(clockwise);
            self.shape[i] = d;
        }
        proof {
            assert(self.spec_shape() =~= rotated_shape(t0.spec_shape(), clockwise));
        }
        let mut new_bounds = self.bounds();

        // re-anchor the rotated bounding box against the old one
        let motion = new_bounds.move_to(&old_bounds);
        proof {
            assert(motion.x as int == rot_base_dx(t0, clockwise));
            assert(motion.y as int == rot_base_dy(t0, clockwise));
        }
        self.center.add_coord(motion);
        let ghost base_center = self.center;

        // the window of extra displacements worth trying
        let old_w = old_bounds.x_axis.len();
        let new_w = new_bounds.x_axis.len();
        let old_h = old_bounds.y_axis.len();
        let new_h = new_bounds.y_axis.len();
        let offset_x: i8 = if new_w >= old_w {
            new_w - old_w
        } else {
            old_w - new_w
        };
        let offset_lft: i8 = -(offset_x / 2);
        let offset_rgt: i8 = offset_x - offset_x / 2;
        let offset_top: i8 = if new_h < old_h {
            old_h - new_h
        } else {
            0
        };
        let offset = Rectangle::from_coords(
            Coord { x: offset_lft, y: offset_top },
            Coord { x: offset_rgt, y: 0 },
        );
        let ghost srect = rot_rect(t0, clockwise);
        proof {
            assert(offset == srect);
            assert(-3 <= srect.x_axis.lhe <= 0 && 0 <= srect.x_axis.rhe <= 3);
            assert(srect.y_axis.lhe == 0 && 0 <= srect.y_axis.rhe <= 6);
        }

        // try every displacement, smallest first
        let mut it = offset.iter();
        let mut found = false;
        let mut exhausted = false;
        while !found && !exhausted
            invariant
                it.wf(),
                it.rect() == srect,
                srect == rot_rect(t0, clockwise),
                -3 <= srect.x_axis.lhe <= 0 && 0 <= srect.x_axis.rhe <= 3,
                srect.y_axis.lhe == 0 && 0 <= srect.y_axis.rhe <= 6,
                t0.wf(),
                -90 <= t0.spec_center().x <= 90,
                -90 <= t0.spec_center().y <= 90,
                -99 <= base_center.x <= 99,
                -99 <= base_center.y <= 99,
                base_center.x as int == t0.spec_center().x + rot_base_dx(t0, clockwise),
                base_center.y as int == t0.spec_center().y + rot_base_dy(t0, clockwise),
                m0.wf(),
                live_colored(m0, t0.spec_color()),
                0 <= it.rpos() <= crate::geometry::rect_len(srect),
                exhausted ==> it.rpos() == crate::geometry::rect_len(srect),
                !found ==> {
                    &&& self.center == base_center
                    &&& self.shape@ == rotated_shape(t0.spec_shape(), clockwise)
                    &&& self.is_rel == t0.spec_is_rel()
                    &&& self.color == t0.spec_color()
                    &&& field_unchanged(m0, *map)
                    &&& map.wf()
                    &&& forall|j: int|
                        0 <= j < it.rpos() ==> !blocks_ok(
                            m0,
                            #[trigger] rot_cand_blocks(t0, clockwise, j),
                        )
                },
                found ==> {
                    &&& is_rot_cand(t0, clockwise, it.rpos() - 1, *self)
                    &&& self.wf()
                    &&& 1 <= it.rpos()
                    &&& blocks_ok(m0, rot_cand_blocks(t0, clockwise, it.rpos() - 1))
                    &&& (forall|j: int|
                        0 <= j < it.rpos() - 1 ==> !blocks_ok(
                            m0,
                            #[trigger] rot_cand_blocks(t0, clockwise, j),
                        ))
                    &&& committed(m0, *map, *self)
                    &&& live_colored(*map, t0.spec_color())
                    &&& map.wf()
                },
            decreases
                    crate::geometry::rect_len(srect) - it.rpos(),
                    (if exhausted {
                        0int
                    } else {
                        1int
                    }),
        {
            let ghost j: int = it.rpos();
            match it.next() {
                None => {
                    exhausted = true;
                },
                Some(m) => {
                    proof {
                        crate::geometry::lemma_rect_at_in(srect, j);
                        assert(live_colored(*map, t0.spec_color()));
                    }
                    self.center.add_coord(m);
                    proof {
                        assert(self.spec_center() == rot_cand_center(t0, clockwise, j));
                        assert(piece_blocks(*self) =~= rot_cand_blocks(t0, clockwise, j));
                    }
                    let ghost mpre = *map;
                    if map.put(self) {
                        found = true;
                        proof {
                            assert(blocks_ok(mpre, piece_blocks(*self)));
                            assert(blocks_ok(m0, rot_cand_blocks(t0, clockwise, j)));
                            assert(committed(m0, *map, *self));
                        }
                    } else {
                        self.center.sub_coord(m);
                        proof {
                            assert(!blocks_ok(m0, rot_cand_blocks(t0, clockwise, j)));
                        }
                    }
                },
            }
        }
        if found {
            return true;
        }

        // no displacement fits: undo the turn and the re-anchoring
        for i in 0..3usize
            invariant
                field_unchanged(m0, *map),
                map.wf(),
                t0.spec_shape().len() == 3,
                self.shape@.len() == 3,
                self.center == base_center,
                self.is_rel == t0.spec_is_rel(),
                self.color == t0.spec_color(),
                forall|j: int| 0 <= j < i ==> #[trigger] self.shape@[j] == t0.spec_shape()[j],
                forall|j: int|
                    i <= j < 3 ==> #[trigger] self.shape@[j] == rotated_shape(
                        t0.spec_shape(),
                        clockwise,
                    )[j],
        {
            let mut d = self.shape[i];
            d.rotate(!clockwise);
            self.shape[i] = d;
            proof {
                crate::geometry::lemma_rotation_cancels(t0.spec_shape()[i as int]);
            }
        }
        proof {
            assert(self.spec_shape() =~= t0.spec_shape());
        }
        self.center.sub_coord(motion);
        false
    }
}

/// Leftmost column any block of a piece shape occupies.
pub open spec fn bb_min_x_of(c: Coord, s: Seq<Direction>, rel: bool) -> int {
    min(
        min(block_at(c, s, rel, 0).0, block_at(c, s, rel, 1).0),
        min(block_at(c, s, rel, 2).0, block_at(c, s, rel, 3).0),
    )
}

/// Rightmost column any block of a piece shape occupies.
pub open spec fn bb_max_x_of(c: Coord, s: Seq<Direction>, rel: bool) -> int {
    max(
        max(block_at(c, s, rel, 0).0, block_at(c, s, rel, 1).0),
        max(block_at(c, s, rel, 2).0, block_at(c, s, rel, 3).0),
    )
}

/// Lowest row any block of a piece shape occupies.
pub open spec fn bb_min_y_of(c: Coord, s: Seq<Direction>, rel: bool) -> int {
    min(
        min(block_at(c, s, rel, 0).1, block_at(c, s, rel, 1).1),
        min(block_at(c, s, rel, 2).1, block_at(c, s, rel, 3).1),
    )
}

/// Highest row any block of a piece shape occupies.
pub open spec fn bb_max_y_of(c: Coord, s: Seq<Direction>, rel: bool) -> int {
    max(
        max(block_at(c, s, rel, 0).1, block_at(c, s, rel, 1).1),
        max(block_at(c, s, rel, 2).1, block_at(c, s, rel, 3).1),
    )
}

/// Leftmost column any block of the piece occupies.
pub open spec fn bb_min_x(t: Tetrimino) -> int {
    bb_min_x_of(t.spec_center(), t.spec_shape(), t.spec_is_rel())
}

/// Rightmost column any block of the piece occupies.
pub open spec fn bb_max_x(t: Tetrimino) -> int {
    bb_max_x_of(t.spec_center(), t.spec_shape(), t.spec_is_rel())
}

/// Lowest row any block of the piece occupies.
pub open spec fn bb_min_y(t: Tetrimino) -> int {
    bb_min_y_of(t.spec_center(), t.spec_shape(), t.spec_is_rel())
}

/// Highest row any block of the piece occupies.
pub open spec fn bb_max_y(t: Tetrimino) -> int {
    bb_max_y_of(t.spec_center(), t.spec_shape(), t.spec_is_rel())
}

/// The bounding box hugs the centre: its edges lie within three steps of it,
/// and it always contains the centre itself.
pub proof fn lemma_bb_of_bounds(c: Coord, s: Seq<Direction>, rel: bool)
    ensures
        c.x - 3 <= bb_min_x_of(c, s, rel) <= c.x,
        c.x <= bb_max_x_of(c, s, rel) <= c.x + 3,
        c.y - 3 <= bb_min_y_of(c, s, rel) <= c.y,
        c.y <= bb_max_y_of(c, s, rel) <= c.y + 3,
{
    lemma_block_near_center(c, s, rel, 0);
    lemma_block_near_center(c, s, rel, 1);
    lemma_block_near_center(c, s, rel, 2);
    lemma_block_near_center(c, s, rel, 3);
}

/// Two pieces that agree in everything observable.
pub open spec fn same_piece(a: Tetrimino, b: Tetrimino) -> bool {
    &&& a.spec_center() == b.spec_center()
    &&& a.spec_shape() == b.spec_shape()
    &&& a.spec_is_rel() == b.spec_is_rel()
    &&& a.spec_color() == b.spec_color()
}

/// The centre a shift towards `dir` aims at.
pub open spec fn shift_target(t: Tetrimino, dir: Direction) -> Coord {
    Coord {
        x: (t.spec_center().x + dir_dx(dir)) as i8,
        y: (t.spec_center().y + dir_dy(dir)) as i8,
    }
}

/// The blocks the piece would occupy after a shift towards `dir`.
pub open spec fn moved_blocks(t: Tetrimino, dir: Direction) -> Seq<(int, int)> {
    Seq::new(4, |i: int| block_at(shift_target(t, dir), t.spec_shape(), t.spec_is_rel(), i))
}

/// Every step turned a quarter turn, the way `clockwise` says.
pub open spec fn rotated_shape(s: Seq<Direction>, clockwise: bool) -> Seq<Direction> {
    s.map_values(
        |d: Direction|
            if clockwise {
                crate::geometry::spec_cw(d)
            } else {
                crate::geometry::spec_ccw(d)
            },
    )
}

/// Turning a shape's steps twice one way and then twice the other restores
/// the original step sequence, and four quarter turns the same way do too.
pub proof fn lemma_shape_rotation_cancels(s: Seq<Direction>)
    ensures
        rotated_shape(rotated_shape(rotated_shape(rotated_shape(s, true), true), false), false)
            == s,
        rotated_shape(rotated_shape(rotated_shape(rotated_shape(s, true), true), true), true)
            == s,
{
    let once = rotated_shape(s, true);
    let twice = rotated_shape(once, true);
    assert forall|i: int| 0 <= i < s.len() implies #[trigger] rotated_shape(
        rotated_shape(twice, false),
        false,
    )[i] == s[i] by {
        crate::geometry::lemma_rotation_cancels(s[i]);
        crate::geometry::lemma_rotation_cancels(crate::geometry::spec_cw(s[i]));
    }
    assert(rotated_shape(rotated_shape(twice, false), false) =~= s);
    assert forall|i: int| 0 <= i < s.len() implies #[trigger] rotated_shape(
        rotated_shape(twice, true),
        true,
    )[i] == s[i] by {
        crate::geometry::lemma_rotation_cancels(s[i]);
    }
    assert(rotated_shape(rotated_shape(twice, true), true) =~= s);
}

/// The base horizontal correction a rotation applies: the rotated bounding
/// box is centred over the old one, the odd leftover column biased by which
/// of the two is wider.
pub open spec fn rot_base_dx(t: Tetrimino, clockwise: bool) -> int {
    let c = t.spec_center();
    let s0 = t.spec_shape();
    let s1 = rotated_shape(s0, clockwise);
    let rel = t.spec_is_rel();
    let ow = bb_max_x_of(c, s0, rel) - bb_min_x_of(c, s0, rel) + 1;
    let nw = bb_max_x_of(c, s1, rel) - bb_min_x_of(c, s1, rel) + 1;
    let off = if ow < nw {
        -(crate::geometry::abs_int(nw - ow) / 2)
    } else {
        crate::geometry::abs_int(nw - ow) / 2
    };
    bb_min_x_of(c, s0, rel) + off - bb_min_x_of(c, s1, rel)
}

/// The base vertical correction a rotation applies: bottoms aligned.
pub open spec fn rot_base_dy(t: Tetrimino, clockwise: bool) -> int {
    let c = t.spec_center();
    let s0 = t.spec_shape();
    let s1 = rotated_shape(s0, clockwise);
    let rel = t.spec_is_rel();
    bb_min_y_of(c, s0, rel) - bb_min_y_of(c, s1, rel)
}

/// The search window of corrective displacements a rotation may add to the
/// base correction: horizontal slack split to both sides where the widths of
/// the old and new bounding boxes differ, and upward slack exactly where the
/// rotated box is shorter — never downward.
pub open spec fn rot_rect(t: Tetrimino, clockwise: bool) -> Rectangle {
    let c = t.spec_center();
    let s0 = t.spec_shape();
    let s1 = rotated_shape(s0, clockwise);
    let rel = t.spec_is_rel();
    let ow = bb_max_x_of(c, s0, rel) - bb_min_x_of(c, s0, rel) + 1;
    let nw = bb_max_x_of(c, s1, rel) - bb_min_x_of(c, s1, rel) + 1;
    let oh = bb_max_y_of(c, s0, rel) - bb_min_y_of(c, s0, rel) + 1;
    let nh = bb_max_y_of(c, s1, rel) - bb_min_y_of(c, s1, rel) + 1;
    let dx = crate::geometry::abs_int(nw - ow);
    let top = if nh < oh {
        oh - nh
    } else {
        0
    };
    Rectangle {
        x_axis: Segment { lhe: (-(dx / 2)) as i8, rhe: (dx - dx / 2) as i8 },
        y_axis: Segment { lhe: 0, rhe: top as i8 },
    }
}

/// The centre the `k`-th rotation trial puts the piece at: the base
/// correction plus the `k`-th displacement of the search window's zig-zag
/// walk.
pub open spec fn rot_cand_center(t: Tetrimino, clockwise: bool, k: int) -> Coord {
    let m = crate::geometry::rect_at(rot_rect(t, clockwise), k);
    Coord {
        x: (t.spec_center().x + rot_base_dx(t, clockwise) + m.0) as i8,
        y: (t.spec_center().y + rot_base_dy(t, clockwise) + m.1) as i8,
    }
}

/// The blocks the `k`-th rotation trial would occupy.
pub open spec fn rot_cand_blocks(t: Tetrimino, clockwise: bool, k: int) -> Seq<(int, int)> {
    Seq::new(
        4,
        |i: int|
            block_at(
                rot_cand_center(t, clockwise, k),
                rotated_shape(t.spec_shape(), clockwise),
                t.spec_is_rel(),
                i,
            ),
    )
}

/// Whether `t` is the outcome of the `k`-th rotation trial of `t0`.
pub open spec fn is_rot_cand(t0: Tetrimino, clockwise: bool, k: int, t: Tetrimino) -> bool {
    &&& t.spec_center() == rot_cand_center(t0, clockwise, k)
    &&& t.spec_shape() == rotated_shape(t0.spec_shape(), clockwise)
    &&& t.spec_is_rel() == t0.spec_is_rel()
    &&& t.spec_color() == t0.spec_color()
}

/// What `rotate` does to piece and field: when some trial position fits, the
/// piece becomes the first fitting trial and the field commits it; when none
/// fits, both are exactly as they were.
pub open spec fn rotate_post(
    clockwise: bool,
    f0: Field,
    t0: Tetrimino,
    f1: Field,
    t1: Tetrimino,
) -> bool {
    if exists|k: int|
        0 <= k < crate::geometry::rect_len(rot_rect(t0, clockwise)) && blocks_ok(
            f0,
            #[trigger] rot_cand_blocks(t0, clockwise, k),
        ) {
        exists|k: int|
            {
                &&& 0 <= k < crate::geometry::rect_len(rot_rect(t0, clockwise))
                &&& blocks_ok(f0, #[trigger] rot_cand_blocks(t0, clockwise, k))
                &&& (forall|j: int|
                    0 <= j < k ==> !blocks_ok(f0, #[trigger] rot_cand_blocks(t0, clockwise, j)))
                &&& is_rot_cand(t0, clockwise, k, t1)
                &&& committed(f0, f1, t1)
                &&& live_colored(f1, t0.spec_color())
            }
    } else {
        same_piece(t1, t0) && field_unchanged(f0, f1)
    }
}

/// Walks the four blocks of a piece: the centre, then each step applied to
/// the block before it (chained) or to the centre (radial).
pub struct TetriminoIter {
    /// the piece's shape steps
    shape: Vec<Direction>,
    is_rel: bool,
    /// number of the block `next` will yield
    index: usize,
    /// the point the next block is computed from
    point: Coord,
    /// the centre the walk started at
    start: Ghost<Coord>,
}

impl TetriminoIter {
    pub closed spec fn center(self) -> Coord {
        self.start@
    }

    pub closed spec fn steps(self) -> Seq<Direction> {
        self.shape@
    }

    pub closed spec fn rel(self) -> bool {
        self.is_rel
    }

    /// Number of blocks yielded so far.
    pub closed spec fn at(self) -> int {
        self.index as int
    }

    pub closed spec fn wf(self) -> bool {
        &&& self.shape@.len() == 3
        &&& -110 <= self.start@.x <= 110
        &&& -110 <= self.start@.y <= 110
        &&& self.index <= 4
        &&& if self.is_rel && self.index >= 1 {
            (self.point.x as int, self.point.y as int) == block_at(
                self.start@,
                self.shape@,
                self.is_rel,
                self.index - 1,
            )
        } else {
            self.point == self.start@
        }
    }

    /// The next block's coordinates, or `None` after the fourth.
    pub fn next(&mut self) -> (r: Option<Coord>)
        requires
            old(self).wf(),
        ensures
            final(self).wf(),
            final(self).center() == old(self).center(),
            final(self).steps() == old(self).steps(),
            final(self).rel() == old(self).rel(),
            ({
                let i = old(self).at();
                if i < 4 {
                    &&& r matches Some(c) && (c.x as int, c.y as int) == block_at(
                        old(self).center(),
                        old(self).steps(),
                        old(self).rel(),
                        i,
                    )
                    &&& final(self).at() == i + 1
                } else {
                    r.is_none() && final(self).at() == i
                }
            }),
    {
        if self.index >= 4 {
            return None;
        }
        if self.index == 0 {
            self.index = 1;
            return Some(self.point);
        }
        proof {
            lemma_block_near_center(self.start@, self.shape@, self.is_rel, self.index - 1);
            lemma_block_near_center(self.start@, self.shape@, self.is_rel, self.index as int);
        }
        let mut item = self.point;
        item.add_dir(self.shape[self.index - 1]);
        self.index = self.index + 1;
        if self.is_rel {
            self.point = item;
        }
        Some(item)
    }
}

// ---------------------------------------------------------------------------
// Generator
// ---------------------------------------------------------------------------

/// Centre a shape spawns at, by shape number.
pub open spec fn spec_piece_center(id: int) -> Coord {
    if id == 0 {
        Coord { x: 4, y: 19 }
    } else if id == 1 || id == 2 {
        Coord { x: 4, y: 18 }
    } else if id == 3 || id == 5 {
        Coord { x: 4, y: 17 }
    } else {
        Coord { x: 4, y: 16 }
    }
}

/// Shape steps, by shape number.
pub open spec fn spec_piece_shape(id: int) -> Seq<Direction> {
    if id == 0 {
        seq![Direction::Dwn, Direction::Dwn, Direction::Dwn]
    } else if id == 1 {
        seq![Direction::Dwn, Direction::Dwn, Direction::Lft]
    } else if id == 2 {
        seq![Direction::Dwn, Direction::Dwn, Direction::Rgt]
    } else if id == 3 {
        seq![Direction::Rgt, Direction::Dwn, Direction::Lft]
    } else if id == 4 {
        seq![Direction::Rgt, Direction::Top, Direction::Rgt]
    } else if id == 5 {
        seq![Direction::Rgt, Direction::Dwn, Direction::Rgt]
    } else {
        seq![Direction::Lft, Direction::Top, Direction::Rgt]
    }
}

/// Whether a shape's steps are chained; only the T shape is radial.
pub open spec fn spec_piece_is_rel(id: int) -> bool {
    id != 6
}

/// A freshly spawned piece of the given shape number, colored from the
/// palette.
pub open spec fn is_spawned_piece(t: Tetrimino, id: int, picker: Seq<Color>) -> bool {
    &&& t.spec_center() == spec_piece_center(id)
    &&& t.spec_shape() == spec_piece_shape(id)
    &&& t.spec_is_rel() == spec_piece_is_rel(id)
    &&& t.spec_color() == picker[id]
}

/// Hands out pieces: a shuffled palette assigns one color per shape family,
/// the last shuffled color is reserved for the field background, and the
/// shape drawn always differs from the one drawn before.
pub struct Generator {
    /// a piece's color is the palette entry at its shape number
    color_picker: Vec<Color>,
    /// shape number handed out last
    prev: u8,
}

impl Generator {
    pub closed spec fn picker(self) -> Seq<Color> {
        self.color_picker@
    }

    pub closed spec fn prev_id(self) -> u8 {
        self.prev
    }

    /// The palette holds each named color exactly once.
    pub open spec fn wf(self) -> bool {
        &&& self.picker().len() == N_COLORS
        &&& self.picker().to_multiset() == all_colors().to_multiset()
    }

    pub fn new() -> (g: Generator)
        ensures
            g.wf(),
            g.prev_id() == 0,
    {
        let mut colors = Color::all();
        shuffle_colors(&mut colors);
        proof {
            crate::color::lemma_all_colors_distinct();
            colors@.to_multiset_ensures();
            all_colors().to_multiset_ensures();
        }
        Generator { color_picker: colors, prev: 0 }
    }

    /// The last color of the shuffle, reserved for the field background.
    pub fn map_bg(&self) -> (c: Color)
        requires
            self.wf(),
        ensures
            c == self.picker()[N_COLORS - 1],
    {
        self.color_picker[N_COLORS - 1]
    }

    /// The background color never equals a piece color: the palette is a
    /// permutation of the eight distinct named colors, so its last entry
    /// differs from the seven that shapes draw from.
    pub proof fn lemma_bg_not_piece_color(self)
        requires
            self.wf(),
        ensures
            forall|id: int|
                0 <= id < 7 ==> #[trigger] self.picker()[id] != self.picker()[N_COLORS - 1],
            forall|id: int| 0 <= id < 8 ==> #[trigger] self.picker()[id] != Color::Non,
    {
        crate::color::lemma_all_colors_distinct();
        all_colors().lemma_multiset_has_no_duplicates();
        self.picker().lemma_multiset_has_no_duplicates_conv();
        self.picker().to_multiset_ensures();
        all_colors().to_multiset_ensures();
        assert forall|id: int| 0 <= id < 8 implies self.picker()[id] != Color::Non by {
            assert(self.picker().contains(self.picker()[id]));
            assert(self.picker().to_multiset().count(self.picker()[id]) > 0);
            assert(all_colors().contains(self.picker()[id]));
        }
    }

    /// A random piece whose shape differs from the one generated before.
    pub fn gen(&mut self) -> (t: Tetrimino)
        requires
            old(self).wf(),
        ensures
            final(self).wf(),
            final(self).picker() == old(self).picker(),
            final(self).prev_id() < N_TETRIMINOS,
            final(self).prev_id() != old(self).prev_id(),
            t.wf(),
            is_spawned_piece(t, final(self).prev_id() as int, final(self).picker()),
    {
        let id = non_serial_rnd(self.prev, N_TETRIMINOS);
        self.prev = id;
        match id {
            0 => self.I(),
            1 => self.J(),
            2 => self.L(),
            3 => self.O(),
            4 => self.S(),
            5 => self.Z(),
            _ => self.T(),
        }
    }

    pub fn I(&self) -> (t: Tetrimino)
        requires
            self.wf(),
        ensures
            t.wf(),
            is_spawned_piece(t, 0, self.picker()),
    {
        let t = Tetrimino {
            center: Field::top().offset(0, 3),
            shape: vec![Direction::Dwn, Direction::Dwn, Direction::Dwn],
            is_rel: true,
            color: self.color_picker[0],
        };
        proof {
            assert(t.spec_shape() =~= spec_piece_shape(0));
        }
        t
    }

    pub fn J(&self) -> (t: Tetrimino)
        requires
            self.wf(),
        ensures
            t.wf(),
            is_spawned_piece(t, 1, self.picker()),
    {
        let t = Tetrimino {
            center: Field::top().offset(0, 2),
            shape: vec![Direction::Dwn, Direction::Dwn, Direction::Lft],
            is_rel: true,
            color: self.color_picker[1],
        };
        proof {
            assert(t.spec_shape() =~= spec_piece_shape(1));
        }
        t
    }

    pub fn L(&self) -> (t: Tetrimino)
        requires
            self.wf(),
        ensures
            t.wf(),
            is_spawned_piece(t, 2, self.picker()),
    {
        let t = Tetrimino {
            center: Field::top().offset(0, 2),
            shape: vec![Direction::Dwn, Direction::Dwn, Direction::Rgt],
            is_rel: true,
            color: self.color_picker[2],
        };
        proof {
            assert(t.spec_shape() =~= spec_piece_shape(2));
        }
        t
    }

    pub fn O(&self) -> (t: Tetrimino)
        requires
            self.wf(),
        ensures
            t.wf(),
            is_spawned_piece(t, 3, self.picker()),
    {
        let t = Tetrimino {
            center: Field::top().offset(0, 1),
            shape: vec![Direction::Rgt, Direction::Dwn, Direction::Lft],
            is_rel: true,
            color: self.color_picker[3],
        };
        proof {
            assert(t.spec_shape() =~= spec_piece_shape(3));
        }
        t
    }

    pub fn S(&self) -> (t: Tetrimino)
        requires
            self.wf(),
        ensures
            t.wf(),
            is_spawned_piece(t, 4, self.picker()),
    {
        let t = Tetrimino {
            center: Field::top(),
            shape: vec![Direction::Rgt, Direction::Top, Direction::Rgt],
            is_rel: true,
            color: self.color_picker[4],
        };
        proof {
            assert(t.spec_shape() =~= spec_piece_shape(4));
        }
        t
    }

    pub fn Z(&self) -> (t: Tetrimino)
        requires
            self.wf(),
        ensures
            t.wf(),
            is_spawned_piece(t, 5, self.picker()),
    {
        let t = Tetrimino {
            center: Field::top().offset(0, 1),
            shape: vec![Direction::Rgt, Direction::Dwn, Direction::Rgt],
            is_rel: true,
            color: self.color_picker[5],
        };
        proof {
            assert(t.spec_shape() =~= spec_piece_shape(5));
        }
        t
    }

    pub fn T(&self) -> (t: Tetrimino)
        requires
            self.wf(),
        ensures
            t.wf(),
            is_spawned_piece(t, 6, self.picker()),
    {
        let t = Tetrimino {
            center: Field::top(),
            shape: vec![Direction::Lft, Direction::Top, Direction::Rgt],
            is_rel: false,
            color: self.color_picker[6],
        };
        proof {
            assert(t.spec_shape() =~= spec_piece_shape(6));
        }
        t
    }
}

} // verus!
