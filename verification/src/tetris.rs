//! The session: generation, fall, lock, clear, scoring and level
//! progression, driven from outside by advance ticks and discrete commands.
//! The session owns the field, the generator and the optional active piece —
//! the piece is absent exactly between a lock and the next advance tick.
use vstd::prelude::*;

use crate::game::Msg;
use crate::geometry::{Coord, Direction};
use crate::map::{
    blocks_ok, committed, field_unchanged, kept_rows, live_colored, snap_color, snap_coord, Field,
    MapIter, FIELD_HEIGHT, FIELD_WIDTH,
};
use crate::tetrimino::{
    block_at, is_rot_cand, lemma_bb_of_bounds, moved_blocks, rot_base_dx, rot_base_dy,
    rot_cand_blocks, rot_rect, rotate_post, rotated_shape, same_piece, shift_target,
    spec_piece_center, spec_piece_is_rel, spec_piece_shape, Generator, Tetrimino, N_TETRIMINOS,
};

verus! {

/// Cleared-line total that finishes each level; the last entry holds for
/// every later level.
pub open spec fn spec_level_lines(l: int) -> int {
    if l <= 0 {
        20
    } else if l == 1 {
        40
    } else if l == 2 {
        60
    } else if l == 3 {
        80
    } else if l == 4 {
        100
    } else if l == 5 {
        120
    } else if l == 6 {
        140
    } else if l == 7 {
        160
    } else if l == 8 {
        180
    } else {
        200
    }
}

/// Milliseconds between automatic advances on each level; the last entry
/// holds for every later level.
pub open spec fn spec_level_time(l: int) -> int {
    if l <= 0 {
        1000
    } else if l == 1 {
        850
    } else if l == 2 {
        700
    } else if l == 3 {
        600
    } else if l == 4 {
        500
    } else if l == 5 {
        400
    } else if l == 6 {
        300
    } else if l == 7 {
        250
    } else if l == 8 {
        220
    } else {
        190
    }
}

/// Points one lock earns: the burned-line table times the level multiplier.
/// Counts outside the table earn nothing; a four-block piece cannot complete
/// more than four rows.
pub open spec fn spec_points(cleared: int, level: int) -> int {
    (if cleared == 1 {
        40int
    } else if cleared == 2 {
        100
    } else if cleared == 3 {
        300
    } else if cleared == 4 {
        1200
    } else {
        0
    }) * (level + 1)
}

/// Addition capped at the counter type's largest value.
pub open spec fn sat_cap(v: int) -> int {
    if v > usize::MAX {
        usize::MAX as int
    } else {
        v
    }
}

/// The blocks a freshly spawned shape would occupy one row below its spawn
/// anchor: what the first descend of shape `id` must validate.
pub open spec fn spawn_descend_blocks(id: int) -> Seq<(int, int)> {
    Seq::new(
        4,
        |i: int|
            block_at(
                Coord {
                    x: spec_piece_center(id).x,
                    y: (spec_piece_center(id).y - 1) as i8,
                },
                spec_piece_shape(id),
                spec_piece_is_rel(id),
                i,
            ),
    )
}

/// The first block of a legal placement is the centre, so a committed piece
/// always has its centre on a field column and at or above the floor.
proof fn lemma_blocks_ok_center(f: Field, blocks: Seq<(int, int)>, cx: int, cy: int)
    requires
        blocks_ok(f, blocks),
        blocks[0] == (cx, cy),
    ensures
        0 <= cx < FIELD_WIDTH,
        0 <= cy,
{
    assert(crate::map::block_ok(
        crate::map::erase_live(f.cells(), f.live()),
        blocks[0],
    ));
}

/// After a lateral shift attempt, the piece's centre is still on the field:
/// either the field accepted the new position, whose centre is its first
/// block, or the piece did not move.
proof fn lemma_lateral_bounds(f: Field, tp: Tetrimino, dir: Direction, t: Tetrimino)
    requires
        tp.wf(),
        0 <= tp.spec_center().x <= 9,
        0 <= tp.spec_center().y <= 80,
        dir == Direction::Rgt || dir == Direction::Lft,
        if blocks_ok(f, moved_blocks(tp, dir)) {
            t.spec_center() == shift_target(tp, dir)
        } else {
            t.spec_center() == tp.spec_center()
        },
    ensures
        0 <= t.spec_center().x <= 9,
        0 <= t.spec_center().y <= 80,
{
    if blocks_ok(f, moved_blocks(tp, dir)) {
        let blocks = moved_blocks(tp, dir);
        assert(blocks[0] == (t.spec_center().x as int, t.spec_center().y as int));
        lemma_blocks_ok_center(f, blocks, t.spec_center().x as int, t.spec_center().y as int);
    }
}

/// After a rotation attempt from a centre at most 60 rows up, the piece's
/// centre is still on the field and below the headroom bound: a committed
/// trial centres on a field column at or above the floor, and the base
/// correction plus the search window lift the centre by at most twelve rows.
proof fn lemma_rotated_bounds(f: Field, tp: Tetrimino, clockwise: bool, t: Tetrimino)
    requires
        tp.wf(),
        0 <= tp.spec_center().x <= 9,
        0 <= tp.spec_center().y <= 60,
        if exists|k: int|
            0 <= k < crate::geometry::rect_len(rot_rect(tp, clockwise)) && blocks_ok(
                f,
                #[trigger] rot_cand_blocks(tp, clockwise, k),
            ) {
            exists|k: int|
                {
                    &&& 0 <= k < crate::geometry::rect_len(rot_rect(tp, clockwise))
                    &&& blocks_ok(f, #[trigger] rot_cand_blocks(tp, clockwise, k))
                    &&& is_rot_cand(tp, clockwise, k, t)
                }
        } else {
            same_piece(t, tp)
        },
    ensures
        (exists|k: int|
            0 <= k < crate::geometry::rect_len(rot_rect(tp, clockwise)) && blocks_ok(
                f,
                #[trigger] rot_cand_blocks(tp, clockwise, k),
            )) || same_piece(t, tp),
        0 <= t.spec_center().x <= 9,
        0 <= t.spec_center().y <= 80,
        t.spec_shape().len() == 3,
{
    if exists|k: int|
        0 <= k < crate::geometry::rect_len(rot_rect(tp, clockwise)) && blocks_ok(
            f,
            #[trigger] rot_cand_blocks(tp, clockwise, k),
        ) {
        let k = choose|k: int|
            {
                &&& 0 <= k < crate::geometry::rect_len(rot_rect(tp, clockwise))
                &&& blocks_ok(f, #[trigger] rot_cand_blocks(tp, clockwise, k))
                &&& is_rot_cand(tp, clockwise, k, t)
            };
        lemma_bb_of_bounds(tp.spec_center(), tp.spec_shape(), tp.spec_is_rel());
        lemma_bb_of_bounds(
            tp.spec_center(),
            rotated_shape(tp.spec_shape(), clockwise),
            tp.spec_is_rel(),
        );
        let srect = rot_rect(tp, clockwise);
        assert(-3 <= srect.x_axis.lhe as int <= 0 && 0 <= srect.x_axis.rhe as int <= 3);
        assert(srect.y_axis.lhe as int == 0 && 0 <= srect.y_axis.rhe as int <= 6);
        crate::geometry::lemma_rect_at_in(srect, k);
        let m = crate::geometry::rect_at(srect, k);
        assert(-9 <= rot_base_dx(tp, clockwise) <= 9);
        assert(-6 <= rot_base_dy(tp, clockwise) <= 6);
        assert(t.spec_center().x as int == tp.spec_center().x + rot_base_dx(tp, clockwise) + m.0);
        assert(t.spec_center().y as int == tp.spec_center().y + rot_base_dy(tp, clockwise) + m.1);
        let blocks = rot_cand_blocks(tp, clockwise, k);
        assert(blocks[0] == (t.spec_center().x as int, t.spec_center().y as int));
        lemma_blocks_ok_center(f, blocks, t.spec_center().x as int, t.spec_center().y as int);
        assert(t.spec_shape().len() == 3) by {
            assert(rotated_shape(tp.spec_shape(), clockwise).len() == 3);
        }
    }
}

/// Generator observables untouched.
pub open spec fn gen_unchanged(pre: Generator, post: Generator) -> bool {
    post.picker() == pre.picker() && post.prev_id() == pre.prev_id()
}

/// The rules engine of the game.
pub struct Tetris {
    /// counted from zero
    level: usize,
    score: usize,
    lines: usize,
    generator: Generator,
    /// absent exactly between a lock and the next advance tick
    tetrimino: Option<Tetrimino>,
    map: Field,
}

impl Tetris {
    pub closed spec fn spec_level(self) -> usize {
        self.level
    }

    pub closed spec fn spec_score(self) -> usize {
        self.score
    }

    pub closed spec fn spec_lines(self) -> usize {
        self.lines
    }

    pub closed spec fn spec_gen(self) -> Generator {
        self.generator
    }

    pub closed spec fn spec_piece(self) -> Option<Tetrimino> {
        self.tetrimino
    }

    pub closed spec fn spec_field(self) -> Field {
        self.map
    }

    pub open spec fn wf(self) -> bool {
        &&& self.spec_field().wf()
        &&& self.spec_gen().wf()
        &&& self.spec_level() <= 10
        &&& match self.spec_piece() {
            Some(t) => {
                &&& t.wf()
                &&& 0 <= t.spec_center().x <= 9
                &&& 0 <= t.spec_center().y <= 80
                &&& live_colored(self.spec_field(), t.spec_color())
            },
            None => self.spec_field().live().len() == 0,
        }
    }

    /// A fresh game: level, score and line count at zero, no active piece,
    /// an empty field whose background is the generator's reserved color.
    pub fn new() -> (t: Tetris)
        ensures
            t.wf(),
            t.spec_level() == 0,
            t.spec_score() == 0,
            t.spec_lines() == 0,
            t.spec_piece() is None,
            t.spec_gen().prev_id() == 0,
            t.spec_field().background() == t.spec_gen().picker()[crate::color::N_COLORS - 1],
            t.spec_field().live().len() == 0,
            forall|x: int, y: int|
                0 <= x < FIELD_WIDTH && 0 <= y < FIELD_HEIGHT ==> #[trigger] t.spec_field().cells()[x][y]
                    == crate::color::Color::Non,
    {
        let generator = Generator::new();
        let bg = generator.map_bg();
        let map = Field::new(bg);
        Tetris { level: 0, score: 0, lines: 0, generator, tetrimino: None, map }
    }

    /// Adds one lock's burned lines to the counters: points from the table
    /// times the level multiplier, the line total capped only at the counter
    /// limit, and one level step when the total reaches the current level's
    /// threshold — the level never moves past the end of the table.
    pub fn apply_score(&mut self, cleared: usize)
        requires
            old(self).wf(),
        ensures
            final(self).wf(),
            final(self).spec_score() == sat_cap(
                old(self).spec_score() + spec_points(cleared as int, old(self).spec_level() as int),
            ),
            final(self).spec_lines() == sat_cap(old(self).spec_lines() + cleared),
            final(self).spec_level() as int == if final(self).spec_lines() >= spec_level_lines(
                old(self).spec_level() as int,
            ) && old(self).spec_level() < 10 {
                old(self).spec_level() + 1
            } else {
                old(self).spec_level() as int
            },
            final(self).spec_piece() == old(self).spec_piece(),
            final(self).spec_field() == old(self).spec_field(),
            gen_unchanged(old(self).spec_gen(), final(self).spec_gen()),
    {
        let mult = self.level + 1;
        let points: usize = if cleared == 1 {
            40 * mult
        } else if cleared == 2 {
            100 * mult
        } else if cleared == 3 {
            300 * mult
        } else if cleared == 4 {
            1200 * mult
        } else {
            0
        };
        self.score = self.score.saturating_add(points);
        self.lines = self.lines.saturating_add(cleared);
        let threshold = level_lines_at(self.level);
        if self.lines >= threshold && self.level < 10 {
            self.level = self.level + 1;
        }
    }

    /// One advance tick: spawn a piece when none is active, then try to
    /// descend it; when it cannot descend, lock it, burn completed rows and
    /// score them.
    pub fn proceed(&mut self)
        requires
            old(self).wf(),
        ensures
            final(self).wf(),
            proceed_post(*old(self), *final(self)),
    {
        let ghost pre = *self;
        if self.tetrimino.is_none() {
            let t = self.generator.gen();
            proof {
                let id = self.generator.prev_id() as int;
                assert(moved_blocks(t, Direction::Dwn) =~= spawn_descend_blocks(id));
                assert(0 <= t.spec_center().x <= 9 && 0 <= t.spec_center().y <= 80);
            }
            self.tetrimino = Some(t);
        }
        let mut descended = false;
        match &mut self.tetrimino {
            Some(t) => {
                let ghost tp = *t;
                descended = t.shift(Direction::Dwn, &mut self.map);
                proof {
                    if descended {
                        let blocks = moved_blocks(tp, Direction::Dwn);
                        assert(blocks[0] == (t.spec_center().x as int, t.spec_center().y as int));
                        lemma_blocks_ok_center(
                            pre.spec_field(),
                            blocks,
                            t.spec_center().x as int,
                            t.spec_center().y as int,
                        );
                    }
                }
            },
            None => {
                proof {
                    assert(false);
                }
            },
        }
        if !descended {
            self.map.kill();
            self.tetrimino = None;
            let cleared = self.map.burn();
            self.apply_score(cleared);
        }
    }

    /// Dispatches one command to the active piece; with no active piece every
    /// command is ignored. Failures of the piece are silently absorbed:
    /// commands are best-effort, never fatal.
    pub fn react_to(&mut self, msg: Msg)
        requires
            old(self).wf(),
            msg != Msg::Exit,
        ensures
            final(self).wf(),
            react_post(*old(self), msg, *final(self)),
    {
        if self.tetrimino.is_none() {
            return ;
        }
        let ghost pre = *self;
        match msg {
            Msg::Proceed => self.proceed(),
            Msg::ShiftRgt => {
                match &mut self.tetrimino {
                    Some(t) => {
                        let ghost tp = *t;
                        let _ = t.shift(Direction::Rgt, &mut self.map);
                        proof {
                            lemma_lateral_bounds(pre.spec_field(), tp, Direction::Rgt, *t);
                        }
                    },
                    None => {
                        proof {
                            assert(false);
                        }
                    },
                }
            },
            Msg::ShiftLft => {
                match &mut self.tetrimino {
                    Some(t) => {
                        let ghost tp = *t;
                        let _ = t.shift(Direction::Lft, &mut self.map);
                        proof {
                            lemma_lateral_bounds(pre.spec_field(), tp, Direction::Lft, *t);
                        }
                    },
                    None => {
                        proof {
                            assert(false);
                        }
                    },
                }
            },
            Msg::Clockwise => {
                match &mut self.tetrimino {
                    Some(t) => {
                        let ghost tp = *t;
                        if t.center().y <= 60 {
                            let _ = t.rotate(true, &mut self.map);
                            proof {
                                lemma_rotated_bounds(pre.spec_field(), tp, true, *t);
                            }
                        }
                    },
                    None => {
                        proof {
                            assert(false);
                        }
                    },
                }
            },
            Msg::Counterclockwise => {
                match &mut self.tetrimino {
                    Some(t) => {
                        let ghost tp = *t;
                        if t.center().y <= 60 {
                            let _ = t.rotate(false, &mut self.map);
                            proof {
                                lemma_rotated_bounds(pre.spec_field(), tp, false, *t);
                            }
                        }
                    },
                    None => {
                        proof {
                            assert(false);
                        }
                    },
                }
            },
            Msg::Exit => {
                proof {
                    assert(false);
                }
            },
        }
    }

    /// How long the piece hangs before the next automatic advance, in
    /// milliseconds; the driver turns this into its own scheduling.
    pub fn level_time(&self) -> (ms: u64)
        ensures
            ms as int == spec_level_time(self.spec_level() as int),
    {
        if self.level == 0 {
            1000
        } else if self.level == 1 {
            850
        } else if self.level == 2 {
            700
        } else if self.level == 3 {
            600
        } else if self.level == 4 {
            500
        } else if self.level == 5 {
            400
        } else if self.level == 6 {
            300
        } else if self.level == 7 {
            250
        } else if self.level == 8 {
            220
        } else {
            190
        }
    }

    /// Cumulative score.
    pub fn score(&self) -> (r: usize)
        ensures
            r == self.spec_score(),
    {
        self.score
    }

    /// Cumulative count of burned lines.
    pub fn lines(&self) -> (r: usize)
        ensures
            r == self.spec_lines(),
    {
        self.lines
    }

    /// Current level, counted from zero.
    pub fn level(&self) -> (r: usize)
        ensures
            r == self.spec_level(),
    {
        self.level
    }

    /// A snapshot walk over the field for a renderer.
    pub fn map_iter(&self) -> (it: MapIter)
        requires
            self.wf(),
        ensures
            it.wf(),
            it.pos() == 0,
            it.entries().len() == FIELD_WIDTH * FIELD_HEIGHT,
            forall|k: int|
                0 <= k < FIELD_WIDTH * FIELD_HEIGHT ==> #[trigger] it.entries()[k] == (
                snap_coord(k),
                snap_color(self.spec_field().cells(), self.spec_field().background(), k),
                ),
    {
        self.map.iter()
    }
}

/// Threshold lookup for the current level.
fn level_lines_at(l: usize) -> (r: usize)
    ensures
        r == spec_level_lines(l as int),
{
    if l == 0 {
        20
    } else if l == 1 {
        40
    } else if l == 2 {
        60
    } else if l == 3 {
        80
    } else if l == 4 {
        100
    } else if l == 5 {
        120
    } else if l == 6 {
        140
    } else if l == 7 {
        160
    } else if l == 8 {
        180
    } else {
        200
    }
}

/// The field after a burn, cell for cell: the incomplete rows of the old
/// grid move to the bottom in their order and the top fills with empty rows.
pub open spec fn burned_grid(pre: Seq<Seq<crate::color::Color>>, post: Seq<Seq<crate::color::Color>>) -> bool {
    &&& forall|x: int, j: int|
        0 <= x < FIELD_WIDTH && 0 <= j < kept_rows(pre).len() ==> (#[trigger] post[x][j]) == pre[x][kept_rows(pre)[j]]
    &&& forall|x: int, j: int|
        0 <= x < FIELD_WIDTH && kept_rows(pre).len() <= j < FIELD_HEIGHT ==> (#[trigger] post[x][j])
            == crate::color::Color::Non
}

/// What a lock does to the session: the piece is consumed, the field burns
/// its completed rows, and the counters take the cleared total.
pub open spec fn locked_post(pre: Tetris, post: Tetris) -> bool {
    let cleared = FIELD_HEIGHT - kept_rows(pre.spec_field().cells()).len();
    &&& post.spec_piece() is None
    &&& post.spec_field().live().len() == 0
    &&& post.spec_field().background() == pre.spec_field().background()
    &&& burned_grid(pre.spec_field().cells(), post.spec_field().cells())
    &&& post.spec_score() == sat_cap(
        pre.spec_score() + spec_points(cleared, pre.spec_level() as int),
    )
    &&& post.spec_lines() == sat_cap(pre.spec_lines() + cleared)
    &&& post.spec_level() as int == if post.spec_lines() >= spec_level_lines(
        pre.spec_level() as int,
    ) && pre.spec_level() < 10 {
        pre.spec_level() + 1
    } else {
        pre.spec_level() as int
    }
}

/// One fall step of the active piece `t`: either it descends one row and the
/// field commits the new position, or it cannot and the session locks it.
pub open spec fn step_post(pre: Tetris, t: Tetrimino, post: Tetris) -> bool {
    if blocks_ok(pre.spec_field(), moved_blocks(t, Direction::Dwn)) {
        match post.spec_piece() {
            Some(p) => {
                &&& p.spec_center() == shift_target(t, Direction::Dwn)
                &&& p.spec_shape() == t.spec_shape()
                &&& p.spec_is_rel() == t.spec_is_rel()
                &&& p.spec_color() == t.spec_color()
                &&& committed(pre.spec_field(), post.spec_field(), p)
                &&& post.spec_score() == pre.spec_score()
                &&& post.spec_lines() == pre.spec_lines()
                &&& post.spec_level() == pre.spec_level()
            },
            None => false,
        }
    } else {
        locked_post(pre, post)
    }
}

/// What one advance tick does: with a piece active, one fall step; with none,
/// a fresh piece — never the shape drawn before — spawns and takes its first
/// fall step, locking right away when even that first step cannot validate.
pub open spec fn proceed_post(pre: Tetris, post: Tetris) -> bool {
    match pre.spec_piece() {
        Some(t) => gen_unchanged(pre.spec_gen(), post.spec_gen()) && step_post(pre, t, post),
        None => {
            let id = post.spec_gen().prev_id() as int;
            &&& post.spec_gen().picker() == pre.spec_gen().picker()
            &&& post.spec_gen().prev_id() < N_TETRIMINOS
            &&& post.spec_gen().prev_id() != pre.spec_gen().prev_id()
            &&& if blocks_ok(pre.spec_field(), spawn_descend_blocks(id)) {
                match post.spec_piece() {
                    Some(p) => {
                        &&& p.spec_center().x == spec_piece_center(id).x
                        &&& p.spec_center().y == spec_piece_center(id).y - 1
                        &&& p.spec_shape() == spec_piece_shape(id)
                        &&& p.spec_is_rel() == spec_piece_is_rel(id)
                        &&& p.spec_color() == pre.spec_gen().picker()[id]
                        &&& committed(pre.spec_field(), post.spec_field(), p)
                        &&& post.spec_score() == pre.spec_score()
                        &&& post.spec_lines() == pre.spec_lines()
                        &&& post.spec_level() == pre.spec_level()
                    },
                    None => false,
                }
            } else {
                locked_post(pre, post)
            }
        },
    }
}

/// What one lateral command does: the piece moves one cell when the field
/// validates the new position and stays put when it does not; the counters
/// and the generator never move.
pub open spec fn shift_cmd_post(pre: Tetris, t: Tetrimino, dir: Direction, post: Tetris) -> bool {
    &&& post.spec_score() == pre.spec_score()
    &&& post.spec_lines() == pre.spec_lines()
    &&& post.spec_level() == pre.spec_level()
    &&& gen_unchanged(pre.spec_gen(), post.spec_gen())
    &&& if blocks_ok(pre.spec_field(), moved_blocks(t, dir)) {
        match post.spec_piece() {
            Some(p) => {
                &&& p.spec_center() == shift_target(t, dir)
                &&& p.spec_shape() == t.spec_shape()
                &&& p.spec_is_rel() == t.spec_is_rel()
                &&& p.spec_color() == t.spec_color()
                &&& committed(pre.spec_field(), post.spec_field(), p)
            },
            None => false,
        }
    } else {
        match post.spec_piece() {
            Some(p) => same_piece(p, t) && field_unchanged(pre.spec_field(), post.spec_field()),
            None => false,
        }
    }
}

/// What one rotation command does: the full wall-kick search of `rotate`,
/// attempted only while the piece is near the field — a piece high in the
/// headroom ignores the command; the counters and the generator never move.
pub open spec fn rot_cmd_post(pre: Tetris, t: Tetrimino, clockwise: bool, post: Tetris) -> bool {
    &&& post.spec_score() == pre.spec_score()
    &&& post.spec_lines() == pre.spec_lines()
    &&& post.spec_level() == pre.spec_level()
    &&& gen_unchanged(pre.spec_gen(), post.spec_gen())
    &&& if t.spec_center().y <= 60 {
        match post.spec_piece() {
            Some(p) => rotate_post(clockwise, pre.spec_field(), t, post.spec_field(), p),
            None => false,
        }
    } else {
        match post.spec_piece() {
            Some(p) => same_piece(p, t) && field_unchanged(pre.spec_field(), post.spec_field()),
            None => false,
        }
    }
}

/// The points for a clear are never negative.
proof fn lemma_points_nonneg(cleared: int, level: int)
    requires
        0 <= level,
    ensures
        spec_points(cleared, level) >= 0,
{
    let table = if cleared == 1 {
        40int
    } else if cleared == 2 {
        100
    } else if cleared == 3 {
        300
    } else if cleared == 4 {
        1200
    } else {
        0
    };
    assert(table * (level + 1) >= 0) by (nonlinear_arith)
        requires
            table >= 0,
            level + 1 >= 1,
    ;
}

/// Across any advance tick, the score, the cleared-line total and the level
/// never move backwards.
pub proof fn lemma_proceed_monotone(pre: Tetris, post: Tetris)
    requires
        pre.wf(),
        proceed_post(pre, post),
    ensures
        post.spec_score() >= pre.spec_score(),
        post.spec_lines() >= pre.spec_lines(),
        post.spec_level() >= pre.spec_level(),
{
    lemma_points_nonneg(
        FIELD_HEIGHT - kept_rows(pre.spec_field().cells()).len(),
        pre.spec_level() as int,
    );
    crate::map::lemma_kept_rows_bounds(pre.spec_field().cells(), FIELD_HEIGHT as int);
}

/// Across any command, the score, the cleared-line total and the level never
/// move backwards.
pub proof fn lemma_react_monotone(pre: Tetris, msg: Msg, post: Tetris)
    requires
        pre.wf(),
        react_post(pre, msg, post),
        msg != Msg::Exit,
    ensures
        post.spec_score() >= pre.spec_score(),
        post.spec_lines() >= pre.spec_lines(),
        post.spec_level() >= pre.spec_level(),
{
    match pre.spec_piece() {
        None => {},
        Some(t) => match msg {
            Msg::Proceed => lemma_proceed_monotone(pre, post),
            _ => {},
        },
    }
}

/// What one command does to the session: nothing at all without an active
/// piece, and with one, the advance, shift or rotation behaviour above.
pub open spec fn react_post(pre: Tetris, msg: Msg, post: Tetris) -> bool {
    match pre.spec_piece() {
        None => {
            &&& post.spec_piece() is None
            &&& field_unchanged(pre.spec_field(), post.spec_field())
            &&& post.spec_score() == pre.spec_score()
            &&& post.spec_lines() == pre.spec_lines()
            &&& post.spec_level() == pre.spec_level()
            &&& gen_unchanged(pre.spec_gen(), post.spec_gen())
        },
        Some(t) => match msg {
            Msg::Proceed => proceed_post(pre, post),
            Msg::ShiftRgt => shift_cmd_post(pre, t, Direction::Rgt, post),
            Msg::ShiftLft => shift_cmd_post(pre, t, Direction::Lft, post),
            Msg::Clockwise => rot_cmd_post(pre, t, true, post),
            Msg::Counterclockwise => rot_cmd_post(pre, t, false, post),
            Msg::Exit => true,
        },
    }
}

} // verus!
