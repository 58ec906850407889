//! The playing field: a fixed 10 x 16 occupancy grid of colors, indexed
//! `[x][y]` with row 0 as the floor, plus the set of cells the live piece
//! currently occupies. Pieces spawn just above the visible rows; a cell
//! holding the sentinel `Non` is unoccupied. `put` validates and commits a
//! piece position, `kill` locks the live piece, `burn` clears and compacts
//! completed rows.
use vstd::prelude::*;

use crate::color::Color;
use crate::geometry::Coord;
use crate::tetrimino::Tetrimino;

verus! {

/// Columns of the field.
pub const FIELD_WIDTH: usize = 10;

/// Visible rows of the field; rows above exist only as spawn headroom.
pub const FIELD_HEIGHT: usize = 16;

/// Whether some live cell sits at `(x, y)`.
pub open spec fn live_at(live: Seq<Coord>, x: int, y: int) -> bool {
    exists|i: int| 0 <= i < live.len() && live[i].x == x && live[i].y == y
}

/// Every cell of `live` lies on the visible grid.
pub open spec fn live_in_range(live: Seq<Coord>) -> bool {
    forall|i: int|
        0 <= i < live.len() ==> 0 <= (#[trigger] live[i]).x < FIELD_WIDTH && 0 <= live[i].y
            < FIELD_HEIGHT
}

/// Whether some block of `blocks` is the visible cell `(x, y)`.
pub open spec fn block_covers(blocks: Seq<(int, int)>, x: int, y: int) -> bool {
    exists|i: int| 0 <= i < blocks.len() && blocks[i] == (x, y)
}

/// The grid with every live cell reset to the empty sentinel.
pub open spec fn erase_live(g: Seq<Seq<Color>>, live: Seq<Coord>) -> Seq<Seq<Color>>
    decreases live.len(),
{
    if live.len() == 0 {
        g
    } else {
        let g1 = erase_live(g, live.drop_last());
        let c = live.last();
        g1.update(c.x as int, g1[c.x as int].update(c.y as int, Color::Non))
    }
}

/// The grid with every visible block of `blocks` painted `color`.
pub open spec fn paint_blocks(g: Seq<Seq<Color>>, blocks: Seq<(int, int)>, color: Color) -> Seq<
    Seq<Color>,
>
    decreases blocks.len(),
{
    if blocks.len() == 0 {
        g
    } else {
        let g1 = paint_blocks(g, blocks.drop_last(), color);
        let b = blocks.last();
        if 0 <= b.0 < FIELD_WIDTH && 0 <= b.1 < FIELD_HEIGHT {
            g1.update(b.0, g1[b.0].update(b.1, color))
        } else {
            g1
        }
    }
}

/// Dimensions of a well-formed grid.
pub open spec fn grid_dims(g: Seq<Seq<Color>>) -> bool {
    g.len() == FIELD_WIDTH && forall|x: int| 0 <= x < FIELD_WIDTH ==> g[x].len() == FIELD_HEIGHT
}

/// Erasing the live cells changes exactly those cells, to the sentinel.
pub proof fn lemma_erase_live_cells(g: Seq<Seq<Color>>, live: Seq<Coord>)
    requires
        grid_dims(g),
        forall|i: int|
            0 <= i < live.len() ==> 0 <= (#[trigger] live[i]).x < FIELD_WIDTH && 0 <= live[i].y
                < FIELD_HEIGHT,
    ensures
        grid_dims(erase_live(g, live)),
        forall|x: int, y: int|
            0 <= x < FIELD_WIDTH && 0 <= y < FIELD_HEIGHT ==> #[trigger] erase_live(g, live)[x][y]
                == if live_at(live, x, y) {
                Color::Non
            } else {
                g[x][y]
            },
    decreases live.len(),
{
    if live.len() > 0 {
        lemma_erase_live_cells(g, live.drop_last());
        let prev = erase_live(g, live.drop_last());
        let c = live.last();
        assert forall|x: int, y: int|
            0 <= x < FIELD_WIDTH && 0 <= y < FIELD_HEIGHT implies #[trigger] erase_live(g, live)[x][y]
            == if live_at(live, x, y) {
            Color::Non
        } else {
            g[x][y]
        } by {
            if x == c.x as int && y == c.y as int {
                assert(live_at(live, x, y));
            } else {
                assert(erase_live(g, live)[x][y] == prev[x][y]);
                if live_at(live, x, y) {
                    let i = choose|i: int|
                        0 <= i < live.len() && live[i].x == x && live[i].y == y;
                    assert(i < live.len() - 1);
                    assert(live.drop_last()[i] == live[i]);
                    assert(live_at(live.drop_last(), x, y));
                } else {
                    assert(!live_at(live.drop_last(), x, y)) by {
                        if live_at(live.drop_last(), x, y) {
                            let i = choose|i: int|
                                0 <= i < live.drop_last().len() && live.drop_last()[i].x == x
                                    && live.drop_last()[i].y == y;
                            assert(live[i] == live.drop_last()[i]);
                        }
                    }
                }
            }
        }
    }
}

/// Painting the blocks changes exactly the visible block cells, to `color`.
pub proof fn lemma_paint_blocks_cells(g: Seq<Seq<Color>>, blocks: Seq<(int, int)>, color: Color)
    requires
        grid_dims(g),
    ensures
        grid_dims(paint_blocks(g, blocks, color)),
        forall|x: int, y: int|
            0 <= x < FIELD_WIDTH && 0 <= y < FIELD_HEIGHT ==> #[trigger] paint_blocks(
                g,
                blocks,
                color,
            )[x][y] == if block_covers(blocks, x, y) {
                color
            } else {
                g[x][y]
            },
    decreases blocks.len(),
{
    if blocks.len() > 0 {
        lemma_paint_blocks_cells(g, blocks.drop_last(), color);
        let prev = paint_blocks(g, blocks.drop_last(), color);
        let b = blocks.last();
        assert forall|x: int, y: int|
            0 <= x < FIELD_WIDTH && 0 <= y < FIELD_HEIGHT implies #[trigger] paint_blocks(
            g,
            blocks,
            color,
        )[x][y] == if block_covers(blocks, x, y) {
            color
        } else {
            g[x][y]
        } by {
            if b == (x, y) {
                assert(block_covers(blocks, x, y));
            } else {
                assert(paint_blocks(g, blocks, color)[x][y] == prev[x][y]);
                if block_covers(blocks, x, y) {
                    let i = choose|i: int| 0 <= i < blocks.len() && blocks[i] == (x, y);
                    assert(i < blocks.len() - 1);
                    assert(blocks.drop_last()[i] == blocks[i]);
                    assert(block_covers(blocks.drop_last(), x, y));
                } else {
                    assert(!block_covers(blocks.drop_last(), x, y)) by {
                        if block_covers(blocks.drop_last(), x, y) {
                            let i = choose|i: int|
                                0 <= i < blocks.drop_last().len() && blocks.drop_last()[i] == (
                                x,
                                y,
                                );
                            assert(blocks[i] == blocks.drop_last()[i]);
                        }
                    }
                }
            }
        }
    }
}

/// The four block coordinates of a piece.
pub open spec fn piece_blocks(t: Tetrimino) -> Seq<(int, int)> {
    Seq::new(4, |i: int| t.block(i))
}

/// The coordinates of a sequence of cells, as integer pairs.
pub open spec fn pts_of(s: Seq<Coord>) -> Seq<(int, int)> {
    s.map_values(|c: Coord| (c.x as int, c.y as int))
}

/// The live cells of the field, as integer pairs.
pub open spec fn live_pts(f: Field) -> Seq<(int, int)> {
    pts_of(f.live())
}

/// The blocks that lie in a visible row, in order; blocks above the field
/// are spawn headroom and are not drawn.
pub open spec fn keep_visible(s: Seq<(int, int)>) -> Seq<(int, int)> {
    s.filter(|b: (int, int)| b.1 < FIELD_HEIGHT)
}

/// How `keep_visible` grows with its prefix: one more block either joins the
/// kept sequence or is dropped, by its row.
pub proof fn lemma_keep_visible_take_step(s: Seq<(int, int)>, k: int)
    requires
        0 <= k < s.len(),
    ensures
        keep_visible(s.take(k + 1)) == if s[k].1 < FIELD_HEIGHT {
            keep_visible(s.take(k)).push(s[k])
        } else {
            keep_visible(s.take(k))
        },
{
    reveal(Seq::filter);
    assert(s.take(k + 1).drop_last() =~= s.take(k));
    assert(s.take(k + 1).last() == s[k]);
}

/// A visible cell is covered by the kept blocks exactly when it is covered
/// by all the blocks.
pub proof fn lemma_covers_keep_visible(s: Seq<(int, int)>, x: int, y: int)
    requires
        y < FIELD_HEIGHT,
    ensures
        block_covers(keep_visible(s), x, y) == block_covers(s, x, y),
{
    broadcast use vstd::seq_lib::group_filter_ensures;

    let pred = |b: (int, int)| b.1 < FIELD_HEIGHT;
    if block_covers(s, x, y) {
        let i = choose|i: int| 0 <= i < s.len() && s[i] == (x, y);
        assert(s.filter(pred).contains(s[i]));
        let j = choose|j: int| 0 <= j < s.filter(pred).len() && s.filter(pred)[j] == s[i];
        assert(block_covers(keep_visible(s), x, y));
    }
    if block_covers(keep_visible(s), x, y) {
        let i = choose|i: int|
            0 <= i < keep_visible(s).len() && keep_visible(s)[i] == (x, y);
        assert(s.filter(pred).contains((x, y)));
        s.lemma_filter_contains_rev(pred, (x, y));
        let j = choose|j: int| 0 <= j < s.len() && s[j] == (x, y);
        assert(block_covers(s, x, y));
    }
}

/// Erasing the live cells and painting them back in their own color leaves
/// the grid as it was.
proof fn lemma_restore_undoes(
    now_cells: Seq<Seq<Color>>,
    g0: Seq<Seq<Color>>,
    live0: Seq<Coord>,
    color: Color,
)
    requires
        grid_dims(g0),
        grid_dims(now_cells),
        forall|i: int|
            0 <= i < live0.len() ==> 0 <= (#[trigger] live0[i]).x < FIELD_WIDTH && 0 <= live0[i].y
                < FIELD_HEIGHT,
        forall|i: int|
            0 <= i < live0.len() ==> g0[(#[trigger] live0[i]).x as int][live0[i].y as int] == color,
        forall|x: int, y: int|
            0 <= x < FIELD_WIDTH && 0 <= y < FIELD_HEIGHT ==> #[trigger] now_cells[x][y]
                == if live_at(live0, x, y) {
                color
            } else {
                erase_live(g0, live0)[x][y]
            },
    ensures
        now_cells == g0,
{
    lemma_erase_live_cells(g0, live0);
    assert forall|x: int| 0 <= x < FIELD_WIDTH implies now_cells[x] =~= g0[x] by {
        assert forall|y: int| 0 <= y < FIELD_HEIGHT implies now_cells[x][y] == g0[x][y] by {
            if live_at(live0, x, y) {
                let i = choose|i: int| 0 <= i < live0.len() && live0[i].x == x && live0[i].y == y;
                assert(g0[live0[i].x as int][live0[i].y as int] == color);
            }
        }
    }
    assert(now_cells =~= g0);
}

/// Whether one block may stand where it is, over the grid `eg` (the grid
/// with the live cells already erased): its column in range, its row not
/// below the floor, and — when the row is visible — the cell unoccupied.
/// Rows above the visible region are spawn headroom and always legal.
pub open spec fn block_ok(eg: Seq<Seq<Color>>, b: (int, int)) -> bool {
    &&& 0 <= b.0 < FIELD_WIDTH
    &&& 0 <= b.1
    &&& (b.1 < FIELD_HEIGHT ==> eg[b.0][b.1] == Color::Non)
}

/// Whether four block coordinates may stand on the field: every one in
/// bounds and free of the locked cells.
pub open spec fn blocks_ok(f: Field, blocks: Seq<(int, int)>) -> bool {
    forall|i: int| 0 <= i < 4 ==> block_ok(erase_live(f.cells(), f.live()), #[trigger] blocks[i])
}

/// Whether the piece's current position is legal on the field.
pub open spec fn placement_ok(f: Field, t: Tetrimino) -> bool {
    blocks_ok(f, piece_blocks(t))
}

/// The field after a successful `put` of `t`: the old live cells erased, the
/// piece's visible blocks painted in its color and recorded as the live set,
/// the background untouched.
pub open spec fn committed(pre: Field, post: Field, t: Tetrimino) -> bool {
    &&& post.cells() == paint_blocks(
        erase_live(pre.cells(), pre.live()),
        piece_blocks(t),
        t.spec_color(),
    )
    &&& live_pts(post) == keep_visible(piece_blocks(t))
    &&& post.background() == pre.background()
}

/// Nothing observable about the field changed.
pub open spec fn field_unchanged(pre: Field, post: Field) -> bool {
    &&& post.cells() == pre.cells()
    &&& post.live() == pre.live()
    &&& post.background() == pre.background()
}

/// Every live cell of the field holds the color `c`.
pub open spec fn live_colored(f: Field, c: Color) -> bool {
    forall|i: int|
        0 <= i < f.live().len() ==> f.cells()[(#[trigger] f.live()[i]).x as int][f.live()[i].y as int]
            == c
}

/// The playing field.
pub struct Field {
    /// occupancy by column then row; a `Non` cell is empty
    grid: Vec<Vec<Color>>,
    /// the cells drawn for the live piece, tracked so they can be erased and
    /// redrawn as the piece moves without touching locked cells
    drawed: Vec<Coord>,
    /// background color, chosen by the generator; used only by the renderer
    bg: Color,
}

impl Field {
    /// The grid's contents.
    pub closed spec fn cells(self) -> Seq<Seq<Color>> {
        self.grid@.map_values(|col: Vec<Color>| col@)
    }

    /// The view is the stored vectors, column for column.
    proof fn lemma_view(self)
        ensures
            self.cells().len() == self.grid@.len(),
            forall|x: int|
                0 <= x < self.grid@.len() ==> #[trigger] self.cells()[x] == self.grid@[x]@,
    {
    }

    /// The cells the live piece occupies.
    pub closed spec fn live(self) -> Seq<Coord> {
        self.drawed@
    }

    /// The background color empty cells are reported as.
    pub closed spec fn background(self) -> Color {
        self.bg
    }

    pub open spec fn wf(self) -> bool {
        &&& grid_dims(self.cells())
        &&& live_in_range(self.live())
    }

    /// An empty field over the given background color.
    pub fn new(bg: Color) -> (f: Field)
        ensures
            f.wf(),
            f.background() == bg,
            f.live().len() == 0,
            forall|x: int, y: int|
                0 <= x < FIELD_WIDTH && 0 <= y < FIELD_HEIGHT ==> #[trigger] f.cells()[x][y]
                    == Color::Non,
    {
        let mut grid: Vec<Vec<Color>> = Vec::new();
        for x in 0..FIELD_WIDTH
            invariant
                grid@.len() == x,
                forall|i: int|
                    0 <= i < x ==> (#[trigger] grid@[i])@.len() == FIELD_HEIGHT && forall|j: int|
                        0 <= j < FIELD_HEIGHT ==> grid@[i]@[j] == Color::Non,
        {
            let mut col: Vec<Color> = Vec::new();
            for y in 0..FIELD_HEIGHT
                invariant
                    col@.len() == y,
                    forall|j: int| 0 <= j < y ==> #[trigger] col@[j] == Color::Non,
            {
                col.push(Color::Non);
            }
            grid.push(col);
        }
        Field { grid, drawed: Vec::new(), bg }
    }

    /// The spawn anchor: the lowermost middle point just above the visible
    /// rows.
    pub fn top() -> (c: Coord)
        ensures
            c == (Coord { x: 4, y: 16 }),
    {
        Coord { x: 4, y: 16 }
    }

    /// Locks the live piece: its cells stay on the grid and stop being
    /// tracked as live.
    pub fn kill(&mut self)
        ensures
            final(self).cells() == old(self).cells(),
            final(self).background() == old(self).background(),
            final(self).live().len() == 0,
            old(self).wf() ==> final(self).wf(),
    {
        self.drawed.clear();
    }

    /// Repaints every live cell with `color`; the inverse of the erasure at
    /// the start of a failed `put`.
    #[verifier::loop_isolation(false)]
    fn restore_live(&mut self, color: Color)
        requires
            grid_dims(old(self).cells()),
            live_in_range(old(self).live()),
        ensures
            grid_dims(final(self).cells()),
            final(self).live() == old(self).live(),
            final(self).background() == old(self).background(),
            forall|x: int, y: int|
                0 <= x < FIELD_WIDTH && 0 <= y < FIELD_HEIGHT ==> (#[trigger] final(self).cells()[x][y]) == if live_at(old(self).live(), x, y) {
                    color
                } else {
                    old(self).cells()[x][y]
                },
    {
        let ghost live0 = self.drawed@;
        let ghost g0 = self.cells();
        let n = self.drawed.len();
        for i in 0..n
            invariant
                n == self.drawed.len(),
                self.drawed@ == live0,
                self.bg == old(self).bg,
                live_in_range(live0),
                grid_dims(self.cells()),
                forall|x: int, y: int|
                    0 <= x < FIELD_WIDTH && 0 <= y < FIELD_HEIGHT ==> #[trigger] self.cells()[x][y]
                        == if live_at(live0.take(i as int), x, y) {
                        color
                    } else {
                        g0[x][y]
                    },
        {
            let c = self.drawed[i];
            let cx = c.x as usize;
            let cy = c.y as usize;
            proof {
                self.lemma_view();
                assert(c == live0[i as int]);
                assert(0 <= c.x && (c.x as int) < FIELD_WIDTH && 0 <= c.y && (c.y as int) < FIELD_HEIGHT);
                assert(self.grid@.len() == FIELD_WIDTH);
                assert(self.cells()[cx as int] == self.grid@[cx as int]@);
                assert(self.grid@[cx as int]@.len() == FIELD_HEIGHT);
            }
            let ghost pre = self.cells();
            self.grid[cx][cy] = color;
            proof {
                self.lemma_view();
                assert(self.cells() =~= pre.update(
                    cx as int,
                    pre[cx as int].update(cy as int, color),
                ));
                assert forall|x: int, y: int|
                    0 <= x < FIELD_WIDTH && 0 <= y < FIELD_HEIGHT implies #[trigger] self.cells()[x][y]
                    == if live_at(live0.take(i + 1), x, y) {
                    color
                } else {
                    g0[x][y]
                } by {
                    if x == cx as int && y == cy as int {
                        assert(live0.take(i + 1)[i as int] == c);
                        assert(live_at(live0.take(i + 1), x, y));
                    } else {
                        assert(self.cells()[x][y] == pre[x][y]);
                        assert(live_at(live0.take(i + 1), x, y) == live_at(
                            live0.take(i as int),
                            x,
                            y,
                        )) by {
                            if live_at(live0.take(i as int), x, y) {
                                let k = choose|k: int|
                                    0 <= k < i && live0.take(i as int)[k].x == x && live0.take(
                                        i as int,
                                    )[k].y == y;
                                assert(live0.take(i + 1)[k] == live0.take(i as int)[k]);
                            }
                            if live_at(live0.take(i + 1), x, y) {
                                let taken = live0.take(i + 1);
                                let k = choose|k: int|
                                    0 <= k < taken.len() && taken[k].x == x && taken[k].y == y;
                                assert(k != i);
                                assert(live0.take(i as int)[k] == taken[k]);
                            }
                        }
                    }
                }
            }
        }
        proof {
            assert(live0.take(n as int) =~= live0);
        }
    }

    /// Validates the piece's position and, when it is legal, draws it there:
    /// the previous live cells are erased, every block is checked against the
    /// bounds and the locked cells, and the visible blocks become the new
    /// live set, painted in the piece's color. When any block is illegal the
    /// previous live cells are restored and the call reports failure with the
    /// field unchanged.
    #[verifier::loop_isolation(false)]
    pub fn put(&mut self, t: &Tetrimino) -> (r: bool)
        requires
            old(self).wf(),
            t.wf(),
            live_colored(*old(self), t.spec_color()),
        ensures
            final(self).wf(),
            final(self).background() == old(self).background(),
            r == placement_ok(*old(self), *t),
            r ==> committed(*old(self), *final(self), *t),
            r ==> live_colored(*final(self), t.spec_color()),
            !r ==> field_unchanged(*old(self), *final(self)),
    {
        let ghost g0 = self.cells();
        let ghost live0 = self.drawed@;
        let ghost eg = erase_live(g0, live0);
        let ghost blocks = piece_blocks(*t);
        proof {
            lemma_erase_live_cells(g0, live0);
        }

        // erase the previous live cells
        let n = self.drawed.len();
        for i in 0..n
            invariant
                n == self.drawed.len(),
                self.drawed@ == live0,
                self.bg == old(self).bg,
                live_in_range(live0),
                grid_dims(self.cells()),
                forall|x: int, y: int|
                    0 <= x < FIELD_WIDTH && 0 <= y < FIELD_HEIGHT ==> #[trigger] self.cells()[x][y]
                        == if live_at(live0.take(i as int), x, y) {
                        Color::Non
                    } else {
                        g0[x][y]
                    },
        {
            let c = self.drawed[i];
            let cx = c.x as usize;
            let cy = c.y as usize;
            proof {
                self.lemma_view();
                assert(c == live0[i as int]);
                assert(0 <= c.x && (c.x as int) < FIELD_WIDTH && 0 <= c.y && (c.y as int) < FIELD_HEIGHT);
                assert(self.grid@.len() == FIELD_WIDTH);
                assert(self.cells()[cx as int] == self.grid@[cx as int]@);
                assert(self.grid@[cx as int]@.len() == FIELD_HEIGHT);
            }
            let ghost pre = self.cells();
            self.grid[cx][cy] = Color::Non;
            proof {
                self.lemma_view();
                assert(self.cells() =~= pre.update(
                    cx as int,
                    pre[cx as int].update(cy as int, Color::Non),
                ));
                assert forall|x: int, y: int|
                    0 <= x < FIELD_WIDTH && 0 <= y < FIELD_HEIGHT implies #[trigger] self.cells()[x][y]
                    == if live_at(live0.take(i + 1), x, y) {
                    Color::Non
                } else {
                    g0[x][y]
                } by {
                    if x == cx as int && y == cy as int {
                        assert(live0.take(i + 1)[i as int] == c);
                        assert(live_at(live0.take(i + 1), x, y));
                    } else {
                        assert(self.cells()[x][y] == pre[x][y]);
                        assert(live_at(live0.take(i + 1), x, y) == live_at(
                            live0.take(i as int),
                            x,
                            y,
                        )) by {
                            if live_at(live0.take(i as int), x, y) {
                                let k = choose|k: int|
                                    0 <= k < i && live0.take(i as int)[k].x == x && live0.take(
                                        i as int,
                                    )[k].y == y;
                                assert(live0.take(i + 1)[k] == live0.take(i as int)[k]);
                            }
                            if live_at(live0.take(i + 1), x, y) {
                                let taken = live0.take(i + 1);
                                let k = choose|k: int|
                                    0 <= k < taken.len() && taken[k].x == x && taken[k].y == y;
                                assert(k != i);
                                assert(live0.take(i as int)[k] == taken[k]);
                            }
                        }
                    }
                }
            }
        }
        proof {
            assert(live0.take(n as int) =~= live0);
        }

        // the blocks that may be drawn
        let bs = t.blocks();
        let mut drawable: Vec<Coord> = Vec::new();
        let k_end: usize = 4;
        for k in 0..k_end
            invariant
                k_end == 4,
                bs@.len() == 4,
                forall|i: int|
                    0 <= i < 4 ==> ((#[trigger] bs@[i]).x as int, bs@[i].y as int) == t.block(i),
                blocks == piece_blocks(*t),
                n == self.drawed.len(),
                self.drawed@ == live0,
                self.bg == old(self).bg,
                live_in_range(live0),
                grid_dims(self.cells()),
                forall|x: int, y: int|
                    0 <= x < FIELD_WIDTH && 0 <= y < FIELD_HEIGHT ==> #[trigger] self.cells()[x][y]
                        == eg[x][y],
                forall|j: int| 0 <= j < k ==> block_ok(eg, #[trigger] blocks[j]),
                pts_of(drawable@) == keep_visible(blocks.take(k as int)),
                live_in_range(drawable@),
        {
            let b = bs[k];
            let ghost dpts = pts_of(drawable@);
            if b.x < 0 || b.y < 0 {
                self.restore_live(t.color());
                proof {
                    assert(!block_ok(eg, blocks[k as int]));
                    lemma_restore_undoes(self.cells(), g0, live0, t.spec_color());
                    assert(self.cells() == g0);
                }
                return false;
            }
            let x = b.x as usize;
            let y = b.y as usize;
            if x >= FIELD_WIDTH {
                self.restore_live(t.color());
                proof {
                    assert(!block_ok(eg, blocks[k as int]));
                    lemma_restore_undoes(self.cells(), g0, live0, t.spec_color());
                    assert(self.cells() == g0);
                }
                return false;
            }
            if y < FIELD_HEIGHT {
                proof {
                    self.lemma_view();
                    assert(self.grid@.len() == FIELD_WIDTH);
                    assert(self.cells()[x as int] == self.grid@[x as int]@);
                    assert(self.grid@[x as int]@.len() == FIELD_HEIGHT);
                }
                let c = self.grid[x][y];
                if !(c == Color::Non) {
                    self.restore_live(t.color());
                    proof {
                        assert(!block_ok(eg, blocks[k as int]));
                        lemma_restore_undoes(self.cells(), g0, live0, t.spec_color());
                        assert(self.cells() == g0);
                    }
                    return false;
                }
                drawable.push(b);
                proof {
                    lemma_keep_visible_take_step(blocks, k as int);
                    assert(pts_of(drawable@) =~= dpts.push((b.x as int, b.y as int)));
                    assert(blocks[k as int] == (b.x as int, b.y as int));
                }
            } else {
                proof {
                    lemma_keep_visible_take_step(blocks, k as int);
                }
            }
        }
        proof {
            assert(blocks.take(4) =~= blocks);
            assert(placement_ok(*old(self), *t));
        }

        // all blocks are legal: commit the new position
        let ghost dpts = pts_of(drawable@);
        self.drawed.clear();
        proof {
            lemma_erase_live_cells(g0, live0);
            assert forall|x: int| 0 <= x < FIELD_WIDTH implies self.cells()[x] =~= eg[x] by {}
            assert(self.cells() =~= eg);
            assert(dpts.take(0).len() == 0);
        }
        let m = drawable.len();
        for j in 0..m
            invariant
                m == drawable@.len(),
                dpts == pts_of(drawable@),
                dpts == keep_visible(blocks),
                blocks == piece_blocks(*t),
                live_in_range(drawable@),
                self.bg == old(self).bg,
                self.drawed@ == drawable@.take(j as int),
                grid_dims(self.cells()),
                self.cells() == paint_blocks(eg, dpts.take(j as int), t.spec_color()),
        {
            proof {
                self.lemma_view();
                lemma_paint_blocks_cells(eg, dpts.take(j as int), t.spec_color());
            }
            let c = drawable[j];
            let cx = c.x as usize;
            let cy = c.y as usize;
            proof {
                self.lemma_view();
                assert(c == drawable@[j as int]);
                assert(0 <= c.x && (c.x as int) < FIELD_WIDTH && 0 <= c.y && (c.y as int) < FIELD_HEIGHT);
                assert(self.grid@.len() == FIELD_WIDTH);
                assert(self.cells()[cx as int] == self.grid@[cx as int]@);
                assert(self.grid@[cx as int]@.len() == FIELD_HEIGHT);
            }
            let ghost pre = self.cells();
            self.grid[cx][cy] = t.color();
            self.drawed.push(c);
            proof {
                self.lemma_view();
                assert(dpts.take(j + 1).drop_last() =~= dpts.take(j as int));
                assert(dpts.take(j + 1).last() == dpts[j as int]);
                assert(dpts[j as int] == (cx as int, cy as int));
                assert(self.cells() =~= pre.update(
                    cx as int,
                    pre[cx as int].update(cy as int, t.spec_color()),
                ));
                assert(self.cells() == paint_blocks(eg, dpts.take(j + 1), t.spec_color()));
                assert(self.drawed@ =~= drawable@.take(j + 1));
            }
        }
        proof {
            assert(dpts.take(m as int) =~= dpts);
            assert(drawable@.take(m as int) =~= drawable@);
            lemma_paint_blocks_cells(eg, dpts, t.spec_color());
            lemma_paint_blocks_cells(eg, blocks, t.spec_color());
            assert forall|x: int, y: int|
                0 <= x < FIELD_WIDTH && 0 <= y < FIELD_HEIGHT implies #[trigger] paint_blocks(
                eg,
                dpts,
                t.spec_color(),
            )[x][y] == paint_blocks(eg, blocks, t.spec_color())[x][y] by {
                lemma_covers_keep_visible(blocks, x, y);
            }
            assert forall|x: int|
                0 <= x < FIELD_WIDTH implies #[trigger] paint_blocks(eg, dpts, t.spec_color())[x]
                =~= paint_blocks(eg, blocks, t.spec_color())[x] by {}
            assert(paint_blocks(eg, dpts, t.spec_color()) =~= paint_blocks(
                eg,
                blocks,
                t.spec_color(),
            ));
            assert forall|i: int| 0 <= i < self.live().len() implies self.cells()[(
            #[trigger] self.live()[i]).x as int][self.live()[i].y as int] == t.spec_color() by {
                assert(self.live()[i] == drawable@[i]);
                assert(dpts[i] == ((drawable@[i].x as int, drawable@[i].y as int)));
                assert(block_covers(dpts, drawable@[i].x as int, drawable@[i].y as int));
                lemma_covers_keep_visible(blocks, drawable@[i].x as int, drawable@[i].y as int);
            }
        }
        true
    }

    /// Copies row `from` onto row `to`, column by column.
    #[verifier::loop_isolation(false)]
    fn copy_row(&mut self, from: usize, to: usize)
        requires
            old(self).wf(),
            from < FIELD_HEIGHT,
            to < FIELD_HEIGHT,
        ensures
            final(self).wf(),
            final(self).live() == old(self).live(),
            final(self).background() == old(self).background(),
            forall|x: int, j: int|
                0 <= x < FIELD_WIDTH && 0 <= j < FIELD_HEIGHT ==> (#[trigger] final(self).cells()[x][j]) == if j == to {
                    old(self).cells()[x][from as int]
                } else {
                    old(self).cells()[x][j]
                },
    {
        let ghost g0 = self.cells();
        for x in 0..FIELD_WIDTH
            invariant
                self.drawed@ == old(self).drawed@,
                self.bg == old(self).bg,
                grid_dims(self.cells()),
                forall|xx: int, j: int|
                    0 <= xx < FIELD_WIDTH && 0 <= j < FIELD_HEIGHT ==> (
                    #[trigger] self.cells()[xx][j]) == if xx < x && j == to {
                        g0[xx][from as int]
                    } else {
                        g0[xx][j]
                    },
        {
            proof {
                self.lemma_view();
                assert(self.grid@.len() == FIELD_WIDTH);
                assert(self.cells()[x as int] == self.grid@[x as int]@);
                assert(self.grid@[x as int]@.len() == FIELD_HEIGHT);
            }
            let v = self.grid[x][from];
            let ghost pre = self.cells();
            self.grid[x][to] = v;
            proof {
                self.lemma_view();
                assert(self.cells() =~= pre.update(
                    x as int,
                    pre[x as int].update(to as int, v),
                ));
            }
        }
    }

    /// Resets row `y` to the empty sentinel.
    #[verifier::loop_isolation(false)]
    fn clear_row(&mut self, y: usize)
        requires
            old(self).wf(),
            y < FIELD_HEIGHT,
        ensures
            final(self).wf(),
            final(self).live() == old(self).live(),
            final(self).background() == old(self).background(),
            forall|x: int, j: int|
                0 <= x < FIELD_WIDTH && 0 <= j < FIELD_HEIGHT ==> (#[trigger] final(self).cells()[x][j]) == if j == y {
                    Color::Non
                } else {
                    old(self).cells()[x][j]
                },
    {
        let ghost g0 = self.cells();
        for x in 0..FIELD_WIDTH
            invariant
                self.drawed@ == old(self).drawed@,
                self.bg == old(self).bg,
                grid_dims(self.cells()),
                forall|xx: int, j: int|
                    0 <= xx < FIELD_WIDTH && 0 <= j < FIELD_HEIGHT ==> (
                    #[trigger] self.cells()[xx][j]) == if xx < x && j == y {
                        Color::Non
                    } else {
                        g0[xx][j]
                    },
        {
            proof {
                self.lemma_view();
                assert(self.grid@.len() == FIELD_WIDTH);
                assert(self.cells()[x as int] == self.grid@[x as int]@);
                assert(self.grid@[x as int]@.len() == FIELD_HEIGHT);
            }
            let ghost pre = self.cells();
            self.grid[x][y] = Color::Non;
            proof {
                self.lemma_view();
                assert(self.cells() =~= pre.update(
                    x as int,
                    pre[x as int].update(y as int, Color::Non),
                ));
            }
        }
    }

    /// Compacts away `serial` rows starting at row `line`: every row above
    /// the span moves down by `serial`, and the top `serial` rows become
    /// empty. With `serial` zero nothing changes.
    #[verifier::loop_isolation(false)]
    pub fn burn_from(&mut self, line: usize, serial: usize)
        requires
            old(self).wf(),
            line + serial <= FIELD_HEIGHT,
        ensures
            final(self).wf(),
            final(self).live() == old(self).live(),
            final(self).background() == old(self).background(),
            forall|x: int, j: int|
                0 <= x < FIELD_WIDTH && 0 <= j < FIELD_HEIGHT ==> (#[trigger] final(self).cells()[x][j]) == if serial == 0 {
                    old(self).cells()[x][j]
                } else if line <= j < FIELD_HEIGHT - serial {
                    old(self).cells()[x][j + serial]
                } else if FIELD_HEIGHT - serial <= j {
                    Color::Non
                } else {
                    old(self).cells()[x][j]
                },
    {
        if serial == 0 {
            return ;
        }
        let ghost g0 = self.cells();
        let start = line + serial;
        for y in start..FIELD_HEIGHT
            invariant
                self.drawed@ == old(self).drawed@,
                self.bg == old(self).bg,
                self.wf(),
                forall|x: int, j: int|
                    0 <= x < FIELD_WIDTH && 0 <= j < FIELD_HEIGHT ==> (
                    #[trigger] self.cells()[x][j]) == if line <= j < y - serial {
                        g0[x][j + serial]
                    } else {
                        g0[x][j]
                    },
        {
            self.copy_row(y, y - serial);
        }
        for y in (FIELD_HEIGHT - serial)..FIELD_HEIGHT
            invariant
                self.drawed@ == old(self).drawed@,
                self.bg == old(self).bg,
                self.wf(),
                forall|x: int, j: int|
                    0 <= x < FIELD_WIDTH && 0 <= j < FIELD_HEIGHT ==> (
                    #[trigger] self.cells()[x][j]) == if FIELD_HEIGHT - serial <= j < y {
                        Color::Non
                    } else if line <= j < FIELD_HEIGHT - serial {
                        g0[x][j + serial]
                    } else {
                        g0[x][j]
                    },
        {
            self.clear_row(y);
        }
    }

    /// Clears every complete row and compacts the rest downward: the rows
    /// that survive move to the bottom in their order, the top fills with
    /// empty rows, and the count of burned rows — however many separate runs
    /// they formed — comes back in one total. Callers score that total once,
    /// rather than calling again per run.
    #[verifier::loop_isolation(false)]
    pub fn burn(&mut self) -> (r: usize)
        requires
            old(self).wf(),
            old(self).live().len() == 0,
        ensures
            final(self).wf(),
            final(self).live().len() == 0,
            final(self).background() == old(self).background(),
            r == FIELD_HEIGHT - kept_rows(old(self).cells()).len(),
            forall|x: int, j: int|
                0 <= x < FIELD_WIDTH && 0 <= j < kept_rows(old(self).cells()).len() ==> (
                #[trigger] final(self).cells()[x][j]) == old(self).cells()[x][kept_rows(old(self).cells())[j]],
            forall|x: int, j: int|
                0 <= x < FIELD_WIDTH && kept_rows(old(self).cells()).len() <= j < FIELD_HEIGHT
                    ==> (#[trigger] final(self).cells()[x][j]) == Color::Non,
    {
        let ghost g0 = self.cells();
        let mut w: usize = 0;
        proof {
            lemma_kept_rows_bounds(g0, FIELD_HEIGHT as int);
        }
        for y in 0..FIELD_HEIGHT
            invariant
                self.drawed@ == old(self).drawed@,
                self.bg == old(self).bg,
                self.wf(),
                w == kept_rows_upto(g0, y as int).len(),
                w <= y,
                forall|x: int, j: int|
                    0 <= x < FIELD_WIDTH && 0 <= j < w ==> (#[trigger] self.cells()[x][j])
                        == g0[x][kept_rows_upto(g0, y as int)[j]],
                forall|x: int, j: int|
                    0 <= x < FIELD_WIDTH && y <= j < FIELD_HEIGHT ==> (
                    #[trigger] self.cells()[x][j]) == g0[x][j],
        {
            proof {
                lemma_kept_rows_bounds(g0, y as int);
                lemma_kept_rows_bounds(g0, y + 1);
                assert(row_complete(self.cells(), y as int) == row_complete(g0, y as int)) by {
                    assert forall|x: int| 0 <= x < FIELD_WIDTH implies #[trigger] self.cells()[x][y as int]
                        == g0[x][y as int] by {}
                    if row_complete(self.cells(), y as int) {
                        assert forall|x: int| 0 <= x < FIELD_WIDTH implies #[trigger] g0[x][y as int]
                            != Color::Non by {
                            assert(self.cells()[x][y as int] != Color::Non);
                        }
                    }
                    if row_complete(g0, y as int) {
                        assert forall|x: int|
                            0 <= x < FIELD_WIDTH implies #[trigger] self.cells()[x][y as int]
                            != Color::Non by {
                            assert(g0[x][y as int] != Color::Non);
                        }
                    }
                }
            }
            if !self.line_completed(y) {
                self.copy_row(y, w);
                w = w + 1;
            }
        }
        proof {
            lemma_kept_rows_bounds(g0, FIELD_HEIGHT as int);
        }
        self.burn_from(w, FIELD_HEIGHT - w);
        FIELD_HEIGHT - w
    }

    /// A snapshot walk over every visible cell for a renderer: x fastest,
    /// then y, empty cells reported as the background color.
    #[verifier::loop_isolation(false)]
    pub fn iter(&self) -> (it: MapIter)
        requires
            self.wf(),
        ensures
            it.wf(),
            it.pos() == 0,
            it.entries().len() == FIELD_WIDTH * FIELD_HEIGHT,
            forall|k: int|
                0 <= k < FIELD_WIDTH * FIELD_HEIGHT ==> #[trigger] it.entries()[k] == (
                snap_coord(k),
                snap_color(self.cells(), self.background(), k),
                ),
    {
        let mut items: Vec<(Coord, Color)> = Vec::new();
        for y in 0..FIELD_HEIGHT
            invariant
                items@.len() == y * FIELD_WIDTH,
                forall|k: int|
                    0 <= k < items@.len() ==> #[trigger] items@[k] == (
                    snap_coord(k),
                    snap_color(self.cells(), self.background(), k),
                    ),
        {
            for x in 0..FIELD_WIDTH
                invariant
                    items@.len() == y * FIELD_WIDTH + x,
                    forall|k: int|
                        0 <= k < items@.len() ==> #[trigger] items@[k] == (
                        snap_coord(k),
                        snap_color(self.cells(), self.background(), k),
                        ),
            {
                proof {
                    self.lemma_view();
                    assert(self.grid@.len() == FIELD_WIDTH);
                    assert(self.cells()[x as int] == self.grid@[x as int]@);
                    assert(self.grid@[x as int]@.len() == FIELD_HEIGHT);
                }
                let cell = self.grid[x][y];
                let color = if cell == Color::Non {
                    self.bg
                } else {
                    cell
                };
                let coord = Coord { x: x as i8, y: y as i8 };
                proof {
                    let k = y * FIELD_WIDTH + x;
                    vstd::arithmetic::div_mod::lemma_fundamental_div_mod_converse(
                        k as int,
                        FIELD_WIDTH as int,
                        y as int,
                        x as int,
                    );
                    assert(snap_coord(k as int) == coord);
                    assert(snap_color(self.cells(), self.background(), k as int) == color);
                }
                items.push((coord, color));
            }
        }
        proof {
            assert(FIELD_HEIGHT * FIELD_WIDTH == FIELD_WIDTH * FIELD_HEIGHT);
        }
        MapIter { items, at: 0 }
    }

    /// Whether every column of row `y` is occupied.
    pub fn line_completed(&self, y: usize) -> (r: bool)
        requires
            self.wf(),
            y < FIELD_HEIGHT,
        ensures
            r == row_complete(self.cells(), y as int),
    {
        for x in 0..FIELD_WIDTH
            invariant
                self.wf(),
                y < FIELD_HEIGHT,
                forall|i: int| 0 <= i < x ==> #[trigger] self.cells()[i][y as int] != Color::Non,
        {
            proof {
                self.lemma_view();
                assert(self.grid@.len() == FIELD_WIDTH);
                assert(self.cells()[x as int] == self.grid@[x as int]@);
                assert(self.grid@[x as int]@.len() == FIELD_HEIGHT);
            }
            let c = self.grid[x][y];
            if c == Color::Non {
                return false;
            }
        }
        true
    }
}

/// The coordinate the `k`-th snapshot entry describes: x runs fastest, then
/// y, over the visible rows.
pub open spec fn snap_coord(k: int) -> Coord {
    Coord { x: (k % FIELD_WIDTH as int) as i8, y: (k / FIELD_WIDTH as int) as i8 }
}

/// The color the `k`-th snapshot entry reports: the cell's own color, or the
/// background for an empty cell, so a renderer never sees the sentinel.
pub open spec fn snap_color(g: Seq<Seq<Color>>, bg: Color, k: int) -> Color {
    let x = k % FIELD_WIDTH as int;
    let y = k / FIELD_WIDTH as int;
    if g[x][y] == Color::Non {
        bg
    } else {
        g[x][y]
    }
}

/// Walks the whole visible grid as `(coordinate, display color)` pairs, x
/// fastest within each row; restartable through `reset`.
pub struct MapIter {
    /// the snapshot entries, in traversal order
    items: Vec<(Coord, Color)>,
    /// how many entries have been produced
    at: usize,
}

impl MapIter {
    /// The snapshot being walked.
    pub closed spec fn entries(self) -> Seq<(Coord, Color)> {
        self.items@
    }

    /// Number of entries produced so far.
    pub closed spec fn pos(self) -> int {
        self.at as int
    }

    pub closed spec fn wf(self) -> bool {
        self.at as int <= self.items@.len()
    }

    /// Restarts the walk from the first cell.
    pub fn reset(&mut self)
        ensures
            final(self).wf(),
            final(self).entries() == old(self).entries(),
            final(self).pos() == 0,
    {
        self.at = 0;
    }

    /// The next `(coordinate, display color)` pair, or `None` past the last
    /// cell.
    pub fn next(&mut self) -> (r: Option<(Coord, Color)>)
        requires
            old(self).wf(),
        ensures
            final(self).wf(),
            final(self).entries() == old(self).entries(),
            ({
                let p = old(self).pos();
                if p < old(self).entries().len() {
                    r == Some(old(self).entries()[p]) && final(self).pos() == p + 1
                } else {
                    r.is_none() && final(self).pos() == p
                }
            }),
    {
        if self.at < self.items.len() {
            let item = self.items[self.at];
            self.at = self.at + 1;
            Some(item)
        } else {
            None
        }
    }
}

/// Whether every column of row `y` is occupied.
pub open spec fn row_complete(g: Seq<Seq<Color>>, y: int) -> bool {
    forall|x: int| 0 <= x < FIELD_WIDTH ==> #[trigger] g[x][y] != Color::Non
}

/// The rows below `upto` that are not complete, bottom-up.
pub open spec fn kept_rows_upto(g: Seq<Seq<Color>>, upto: int) -> Seq<int>
    decreases upto,
{
    if upto <= 0 {
        Seq::empty()
    } else if row_complete(g, upto - 1) {
        kept_rows_upto(g, upto - 1)
    } else {
        kept_rows_upto(g, upto - 1).push(upto - 1)
    }
}

/// The rows that survive a burn, bottom-up.
pub open spec fn kept_rows(g: Seq<Seq<Color>>) -> Seq<int> {
    kept_rows_upto(g, FIELD_HEIGHT as int)
}

/// The kept rows below `upto` are rows below `upto`, at most `upto` many,
/// and exactly the incomplete ones.
pub proof fn lemma_kept_rows_bounds(g: Seq<Seq<Color>>, upto: int)
    requires
        0 <= upto,
    ensures
        kept_rows_upto(g, upto).len() <= upto,
        forall|j: int|
            0 <= j < kept_rows_upto(g, upto).len() ==> 0 <= #[trigger] kept_rows_upto(g, upto)[j]
                < upto,
    decreases upto,
{
    if upto > 0 {
        lemma_kept_rows_bounds(g, upto - 1);
    }
}

} // verus!
