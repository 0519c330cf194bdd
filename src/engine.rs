//! The rain engine: a square grid of glyphs and the drips that paint it.

use crate::drip::{is_eraser_pool, Drip};
use crate::glyph::{is_glyph, is_glyph_pool, is_glyph_pool_vec, random_glyph_pool, BLANK};
use crate::random::{random_choice, random_in};
use rand::rngs::StdRng;
use vstd::prelude::*;

verus! {

/// Content drips fall with a velocity in `CONTENT_VELOCITY_MIN..CONTENT_VELOCITY_END`.
pub const CONTENT_VELOCITY_MIN: u64 = 10;
pub const CONTENT_VELOCITY_END: u64 = 100;

/// Content drips carry between 1 and `POOL_MAX` glyphs.
pub const POOL_MAX: usize = 20;

/// Free erasers fall with a velocity in `ERASER_VELOCITY_MIN..ERASER_VELOCITY_END`.
pub const ERASER_VELOCITY_MIN: u64 = 5;
pub const ERASER_VELOCITY_END: u64 = 50;

/// Erasers that follow an expired drip fall with a velocity in
/// `ERASER_VELOCITY_MIN..FOLLOWER_VELOCITY_END`.
pub const FOLLOWER_VELOCITY_END: u64 = 25;

/// Each tick flickers when its frame is a multiple of a period drawn from
/// `FLICKER_PERIOD_MIN..FLICKER_PERIOD_END`.
pub const FLICKER_PERIOD_MIN: u64 = 5;
pub const FLICKER_PERIOD_END: u64 = 30;

/// Why an engine could not be built.
#[derive(Debug, PartialEq, Eq)]
pub enum RainError {
    /// The grid would have no cells.
    EmptyGrid,
    /// A drip given to the engine does not fit its grid.
    BadDrip,
}

/// A square grid of `size` by `size` glyphs, kept column by column (cell
/// `(column, row)` at `column * size + row`), and the drips falling on it.
pub struct DigitalRain {
    size: usize,
    frame: u64,
    grid: Vec<char>,
    drips: Vec<Drip>,
}

/// The drips that a tick keeps: those that have not reached the bottom, in order.
pub open spec fn survivors(ds: Seq<Drip>, size: int) -> Seq<Drip>
    decreases ds.len(),
{
    if ds.len() == 0 {
        seq![]
    } else {
        let rest = survivors(ds.drop_last(), size);
        if ds.last().row < size {
            rest.push(ds.last())
        } else {
            rest
        }
    }
}

/// The columns of the content drips that have reached the bottom, in order;
/// erasers that reach the bottom leave nothing behind.
pub open spec fn expired_columns(ds: Seq<Drip>, size: int) -> Seq<usize>
    decreases ds.len(),
{
    if ds.len() == 0 {
        seq![]
    } else {
        let rest = expired_columns(ds.drop_last(), size);
        if ds.last().row >= size && !is_eraser_pool(ds.last().glyphs@) {
            rest.push(ds.last().column)
        } else {
            rest
        }
    }
}

/// Whether a drip moves down a row on `frame`.
pub open spec fn advances(d: Drip, frame: int) -> bool {
    frame % (d.velocity as int) == 0
}

/// `new` is `old` after one frame's fall: the same drip, a row lower exactly
/// when it advances on `frame`.
pub open spec fn fell(new: Drip, old: Drip, frame: int) -> bool {
    &&& new.column == old.column
    &&& new.velocity == old.velocity
    &&& new.glyphs@ == old.glyphs@
    &&& new.created == old.created
    &&& new.row == if advances(old, frame) { old.row + 1 } else { old.row as int }
}

/// The row a drip stood on at the start of `frame`, given where it stands at
/// its end.
pub open spec fn row_before(d: Drip, frame: int) -> int {
    if advances(d, frame) { d.row - 1 } else { d.row as int }
}

/// Drip `d`, as it stands at the end of `frame`, may have painted `g` into
/// cell `k` during that frame: `k` is the cell it stood on, and `g` is from
/// its pool or blank.
pub open spec fn may_paint(d: Drip, frame: int, size: int, k: int, g: char) -> bool {
    &&& cell_index(d.column as int, row_before(d, frame), size) == k
    &&& (d.glyphs@.contains(g) || g == BLANK)
}

/// The index of cell `(column, row)` in a grid of side `size`.
pub open spec fn cell_index(column: int, row: int, size: int) -> int {
    column * size + row
}

pub proof fn lemma_cell_in_grid(column: int, row: int, size: int)
    requires
        0 <= column < size,
        0 <= row < size,
    ensures
        0 <= cell_index(column, row, size) < size * size,
{
    assert(column * size + row < size * size) by (nonlinear_arith)
        requires
            0 <= column < size,
            0 <= row < size,
    ;
    assert(0 <= column * size) by (nonlinear_arith)
        requires
            0 <= column,
            0 <= size,
    ;
}

/// What a content drip that reached the bottom of `column` on `frame` leaves
/// behind: a new content drip, an eraser anywhere, and an eraser down `column`.
pub open spec fn is_respawn(content: Drip, eraser: Drip, follower: Drip, column: usize, frame: int) -> bool {
    &&& content.row == 0
    &&& content.created == frame
    &&& eraser.row == 0
    &&& eraser.created == frame
    &&& is_eraser_pool(eraser.glyphs@)
    &&& follower.column == column
    &&& follower.row == 0
    &&& follower.created == frame
    &&& is_eraser_pool(follower.glyphs@)
}

/// The glyph that a drip paints: the one drawn from its pool, or blank when
/// none could be drawn.
pub open spec fn painted(pick: Option<char>) -> char {
    match pick {
        Some(c) => c,
        None => BLANK,
    }
}

/// A content drip as the engine draws them, spawned on `frame`.
pub open spec fn is_fresh_content(d: Drip, size: int, frame: int) -> bool {
    &&& d.fits(size)
    &&& d.row == 0
    &&& d.created == frame
    &&& CONTENT_VELOCITY_MIN <= d.velocity < CONTENT_VELOCITY_END
    &&& d.glyphs@.len() <= POOL_MAX
}

/// The row that a drip spawned on `frame` reaches by the end of that frame.
pub open spec fn first_row(d: Drip, frame: int) -> int {
    if advances(d, frame) { 1 } else { 0 }
}

/// The three drips that a content drip, expired at the bottom of `column`,
/// leaves behind by the end of `frame`: a new content drip, a free eraser and
/// an eraser down `column`, each spawned on `frame` and fallen for that frame.
pub open spec fn is_respawned(content: Drip, eraser: Drip, follower: Drip, column: usize, size: int, frame: int) -> bool {
    &&& content.fits(size)
    &&& content.created == frame
    &&& content.row == first_row(content, frame)
    &&& CONTENT_VELOCITY_MIN <= content.velocity < CONTENT_VELOCITY_END
    &&& content.glyphs@.len() <= POOL_MAX
    &&& eraser.column < size
    &&& eraser.created == frame
    &&& eraser.row == first_row(eraser, frame)
    &&& is_eraser_pool(eraser.glyphs@)
    &&& ERASER_VELOCITY_MIN <= eraser.velocity < ERASER_VELOCITY_END
    &&& follower.column == column
    &&& follower.created == frame
    &&& follower.row == first_row(follower, frame)
    &&& is_eraser_pool(follower.glyphs@)
    &&& ERASER_VELOCITY_MIN <= follower.velocity < FOLLOWER_VELOCITY_END
}

/// The drips at `k`, `k + 1` and `k + 2` of `ds` are those just spawned, as
/// the engine draws them, after a content drip expired down `column`.
pub open spec fn spawned_at(ds: Seq<Drip>, k: int, column: usize, size: int, frame: int) -> bool {
    &&& is_fresh_content(ds[k], size, frame)
    &&& is_respawn(ds[k], ds[k + 1], ds[k + 2], column, frame)
    &&& ERASER_VELOCITY_MIN <= ds[k + 1].velocity < ERASER_VELOCITY_END
    &&& ERASER_VELOCITY_MIN <= ds[k + 2].velocity < FOLLOWER_VELOCITY_END
}

/// Draws a content drip for a grid of side `size`, spawned on `frame`.
fn random_content_drip(rng: &mut StdRng, size: usize, frame: u64) -> (d: Drip)
    requires
        size > 0,
    ensures
        is_fresh_content(d, size as int, frame as int),
{
    let column = random_in(rng, 0, size);
    let velocity = random_in(rng, CONTENT_VELOCITY_MIN as usize, CONTENT_VELOCITY_END as usize) as u64;
    let count = random_in(rng, 1, POOL_MAX + 1);
    let glyphs = random_glyph_pool(rng, count);
    Drip::new(column, velocity, glyphs, frame)
}

/// A drip that reaches the bottom leaves a column to respawn in exactly when
/// it is a content drip: an eraser at the bottom leaves nothing, and a drip
/// above the bottom is not expired at all.
pub proof fn lemma_only_content_respawns(ds: Seq<Drip>, d: Drip, size: int)
    ensures
        d.row >= size && !is_eraser_pool(d.glyphs@)
            ==> expired_columns(ds.push(d), size) == expired_columns(ds, size).push(d.column),
        d.row >= size && is_eraser_pool(d.glyphs@)
            ==> expired_columns(ds.push(d), size) == expired_columns(ds, size),
        d.row < size ==> expired_columns(ds.push(d), size) == expired_columns(ds, size),
        d.row < size ==> survivors(ds.push(d), size) == survivors(ds, size).push(d),
        d.row >= size ==> survivors(ds.push(d), size) == survivors(ds, size),
{
    assert(ds.push(d).drop_last() == ds);
}

pub proof fn lemma_expired_columns_fit(ds: Seq<Drip>, size: int)
    requires
        forall|i: int| 0 <= i < ds.len() ==> (#[trigger] ds[i]).fits(size),
    ensures
        expired_columns(ds, size).len() <= ds.len(),
        forall|c: int|
            0 <= c < expired_columns(ds, size).len() ==> #[trigger] expired_columns(ds, size)[c] < size,
    decreases ds.len(),
{
    if ds.len() > 0 {
        assert(ds.last().fits(size));
        lemma_expired_columns_fit(ds.drop_last(), size);
    }
}

/// A tick keeps no drip that had reached the bottom: every drip it keeps was
/// still falling, and was one of the drips before the tick.
pub proof fn lemma_survivors_falling(ds: Seq<Drip>, size: int)
    ensures
        survivors(ds, size).len() <= ds.len(),
        forall|i: int|
            0 <= i < survivors(ds, size).len() ==> #[trigger] survivors(ds, size)[i].row < size,
        forall|i: int|
            0 <= i < survivors(ds, size).len() ==> ds.contains(#[trigger] survivors(ds, size)[i]),
    decreases ds.len(),
{
    if ds.len() > 0 {
        lemma_survivors_falling(ds.drop_last(), size);
        let rest = survivors(ds.drop_last(), size);
        assert forall|i: int| 0 <= i < rest.len() implies ds.contains(#[trigger] rest[i]) by {
            assert(ds.drop_last().contains(rest[i]));
            let j = choose|j: int| 0 <= j < ds.drop_last().len() && ds.drop_last()[j] == rest[i];
            assert(ds[j] == rest[i]);
        }
        assert(ds[ds.len() - 1] == ds.last());
    }
}

impl DigitalRain {
    /// Side of the grid.
    pub closed spec fn spec_size(&self) -> int {
        self.size as int
    }

    /// Frames elapsed.
    pub closed spec fn spec_frame(&self) -> int {
        self.frame as int
    }

    /// The grid, column by column.
    pub closed spec fn grid_view(&self) -> Seq<char> {
        self.grid@
    }

    /// The active drips, in order.
    pub closed spec fn drips_view(&self) -> Seq<Drip> {
        self.drips@
    }

    /// The glyph in cell `(column, row)`.
    pub open spec fn cell(&self, column: int, row: int) -> char {
        self.grid_view()[cell_index(column, row, self.spec_size())]
    }

    /// A usable engine: a non-empty grid whose every cell holds a glyph, and
    /// drips that stay within it.
    pub open spec fn wf(&self) -> bool {
        &&& self.spec_size() > 0
        &&& self.spec_size() * self.spec_size() <= usize::MAX
        &&& self.grid_view().len() == self.spec_size() * self.spec_size()
        &&& forall|k: int| 0 <= k < self.grid_view().len() ==> is_glyph(#[trigger] self.grid_view()[k])
        &&& forall|i: int|
            0 <= i < self.drips_view().len() ==> (#[trigger] self.drips_view()[i]).fits(self.spec_size())
    }

    /// An engine with a blank grid of side `size` on frame 0 and a random
    /// population of content drips, between `size / 4` and `size` of them
    /// (fewer than `size`); it fails only if the grid would be empty.
    pub fn new(size: usize, rng: &mut StdRng) -> (r: Result<DigitalRain, RainError>)
        requires
            size * size <= usize::MAX,
        ensures
            r is Err <==> size == 0,
            size == 0 ==> r == Err::<DigitalRain, RainError>(RainError::EmptyGrid),
            r matches Ok(e) ==> {
                &&& e.wf()
                &&& e.spec_size() == size
                &&& e.spec_frame() == 0
                &&& forall|k: int| 0 <= k < size * size ==> #[trigger] e.grid_view()[k] == BLANK
                &&& size / 4 <= e.drips_view().len() < size
                &&& forall|i: int| 0 <= i < e.drips_view().len()
                    ==> is_fresh_content(#[trigger] e.drips_view()[i], size as int, 0)
            },
    {
        if size == 0 {
            return Err(RainError::EmptyGrid);
        }
        let count = random_in(rng, size / 4, size);
        let mut drips: Vec<Drip> = Vec::new();
        let mut i: usize = 0;
        while i < count
            invariant
                size > 0,
                i <= count,
                drips@.len() == i,
                forall|j: int| 0 <= j < i ==> is_fresh_content(#[trigger] drips@[j], size as int, 0),
            decreases count - i,
        {
            let d = random_content_drip(rng, size, 0);
            drips.push(d);
            i = i + 1;
        }
        let ghost ds = drips@;
        let r = DigitalRain::with_drips(size, drips);
        assert(!exists|j: int| 0 <= j < ds.len() && !(#[trigger] ds[j]).fits(size as int)) by {
            assert(forall|j: int| 0 <= j < ds.len() ==> is_fresh_content(#[trigger] ds[j], size as int, 0));
        }
        r
    }

    /// An engine with a blank grid of side `size` on frame 0, with the given
    /// drips; it fails if the grid would be empty or a drip does not fit it.
    pub fn with_drips(size: usize, drips: Vec<Drip>) -> (r: Result<DigitalRain, RainError>)
        requires
            size * size <= usize::MAX,
        ensures
            size == 0 ==> r == Err::<DigitalRain, RainError>(RainError::EmptyGrid),
            size > 0 ==> (r is Err <==> exists|i: int|
                0 <= i < drips@.len() && !(#[trigger] drips@[i]).fits(size as int)),
            r is Err ==> size == 0 || r == Err::<DigitalRain, RainError>(RainError::BadDrip),
            r matches Ok(e) ==> {
                &&& e.wf()
                &&& e.spec_size() == size
                &&& e.spec_frame() == 0
                &&& e.drips_view() == drips@
                &&& forall|k: int| 0 <= k < size * size ==> #[trigger] e.grid_view()[k] == BLANK
            },
    {
        if size == 0 {
            return Err(RainError::EmptyGrid);
        }
        let mut i: usize = 0;
        while i < drips.len()
            invariant
                size > 0,
                i <= drips@.len(),
                forall|j: int| 0 <= j < i ==> (#[trigger] drips@[j]).fits(size as int),
            decreases drips@.len() - i,
        {
            let d = &drips[i];
            if d.column >= size || d.row > size || d.velocity == 0 || !is_glyph_pool_vec(&d.glyphs) {
                return Err(RainError::BadDrip);
            }
            i = i + 1;
        }
        let cells = size * size;
        let mut grid: Vec<char> = Vec::new();
        let mut k: usize = 0;
        while k < cells
            invariant
                k <= cells,
                grid@.len() == k,
                forall|j: int| 0 <= j < k ==> #[trigger] grid@[j] == BLANK,
            decreases cells - k,
        {
            grid.push(BLANK);
            k = k + 1;
        }
        Ok(DigitalRain { size, frame: 0, grid, drips })
    }

    /// Removes the drips that have reached the bottom, keeping the order of
    /// the rest, and returns the columns of the content drips among them.
    pub fn expire(&mut self) -> (columns: Vec<usize>)
        requires
            old(self).wf(),
        ensures
            final(self).wf(),
            final(self).spec_size() == old(self).spec_size(),
            final(self).spec_frame() == old(self).spec_frame(),
            final(self).grid_view() == old(self).grid_view(),
            final(self).drips_view() == survivors(old(self).drips_view(), old(self).spec_size()),
            columns@ == expired_columns(old(self).drips_view(), old(self).spec_size()),
    {
        let ghost ds = self.drips@;
        let ghost size = self.size as int;
        let ghost frame = self.frame;
        let ghost grid = self.grid@;
        let n = self.drips.len();
        let mut columns: Vec<usize> = Vec::new();
        let mut i: usize = 0;
        let mut j: usize = 0;
        while i < self.drips.len()
            invariant
                self.size == size,
                self.frame == frame,
                self.grid@ == grid,
                ds.len() == n,
                self.wf(),
                j <= ds.len(),
                i <= self.drips@.len(),
                self.drips@.len() - i == ds.len() - j,
                self.drips@.subrange(0, i as int) == survivors(ds.subrange(0, j as int), size),
                self.drips@.subrange(i as int, self.drips@.len() as int) == ds.subrange(j as int, ds.len() as int),
                columns@ == expired_columns(ds.subrange(0, j as int), size),
            decreases self.drips@.len() - i,
        {
            let ghost pre = self.drips@;
            assert(ds.subrange(0, j + 1).drop_last() == ds.subrange(0, j as int));
            assert(ds[j as int] == pre[i as int]) by {
                assert(pre.subrange(i as int, pre.len() as int)[0] == pre[i as int]);
            }
            if self.drips[i].row < self.size {
                i = i + 1;
                assert(self.drips@.subrange(0, i as int) == pre.subrange(0, i - 1).push(pre[i - 1]));
            } else {
                assert(self.drips_view() == pre);
                assert(self.spec_size() == size);
                assert(forall|k: int| 0 <= k < pre.len() ==> (#[trigger] pre[k]).fits(size));
                let d = self.drips.remove(i);
                assert forall|k: int| 0 <= k < self.drips@.len() implies (#[trigger] self.drips@[k]).fits(size) by {
                    if k < i {
                        assert(self.drips@[k] == pre[k]);
                    } else {
                        assert(self.drips@[k] == pre[k + 1]);
                    }
                }
                if !d.is_eraser() {
                    columns.push(d.column);
                }
                assert(self.drips@.subrange(0, i as int) == pre.subrange(0, i as int));
                assert(self.drips@.subrange(i as int, self.drips@.len() as int)
                    == pre.subrange(i + 1, pre.len() as int));
            }
            j = j + 1;
            assert(ds.subrange(j as int, ds.len() as int) == ds.subrange(j - 1, ds.len() as int).subrange(1, ds.len() - j + 1));
        }
        assert(self.drips@.subrange(0, i as int) == self.drips@);
        assert(ds.subrange(0, j as int) == ds);
        columns
    }

    /// Adds, at the end, the three drips that follow a content drip which has
    /// reached the bottom of `expired_column`: the new drip `content`, an
    /// eraser down `eraser_column`, and an eraser down `expired_column`, the
    /// two erasers at the top and spawned this frame.
    pub fn respawn(
        &mut self,
        expired_column: usize,
        content: Drip,
        eraser_column: usize,
        eraser_velocity: u64,
        follower_velocity: u64,
    )
        requires
            old(self).wf(),
            expired_column < old(self).spec_size(),
            content.fits(old(self).spec_size()),
            content.row == 0,
            content.created == old(self).spec_frame(),
            eraser_column < old(self).spec_size(),
            eraser_velocity > 0,
            follower_velocity > 0,
        ensures
            final(self).wf(),
            final(self).spec_size() == old(self).spec_size(),
            final(self).spec_frame() == old(self).spec_frame(),
            final(self).grid_view() == old(self).grid_view(),
            ({
                let n = old(self).drips_view().len() as int;
                let ds = final(self).drips_view();
                &&& ds == old(self).drips_view().push(content).push(ds[n + 1]).push(ds[n + 2])
                &&& is_respawn(ds[n], ds[n + 1], ds[n + 2], expired_column, old(self).spec_frame())
                &&& ds[n + 1].column == eraser_column
                &&& ds[n + 1].velocity == eraser_velocity
                &&& ds[n + 2].velocity == follower_velocity
            }),
    {
        let ghost pre = self.drips@;
        assert(self.drips_view() == pre);
        assert(forall|k: int| 0 <= k < pre.len() ==> (#[trigger] pre[k]).fits(self.size as int));
        assert(is_glyph(BLANK));
        assert(is_glyph_pool(seq![BLANK]));
        self.drips.push(content);
        self.drips.push(Drip::eraser(eraser_column, eraser_velocity, self.frame));
        self.drips.push(Drip::eraser(expired_column, follower_velocity, self.frame));
        assert forall|i: int| 0 <= i < self.drips@.len() implies (#[trigger] self.drips@[i]).fits(self.size as int) by {
            if i < pre.len() {
                assert(self.drips@[i] == pre[i]);
            }
        }
    }

    /// One frame of one drip: when it advances on this frame, or when the
    /// frame flickers, it paints `pick` (blank for `None`) into the cell of its
    /// leading edge; when it advances, it moves down a row. A drip at the
    /// bottom does nothing.
    pub fn step_drip(&mut self, i: usize, flicker: bool, pick: Option<char>)
        requires
            old(self).wf(),
            i < old(self).drips_view().len(),
            pick matches Some(c) ==> old(self).drips_view()[i as int].glyphs@.contains(c),
        ensures
            final(self).wf(),
            final(self).spec_size() == old(self).spec_size(),
            final(self).spec_frame() == old(self).spec_frame(),
            final(self).drips_view().len() == old(self).drips_view().len(),
            forall|j: int| 0 <= j < old(self).drips_view().len() && j != i
                ==> #[trigger] final(self).drips_view()[j] == old(self).drips_view()[j],
            ({
                let d = old(self).drips_view()[i as int];
                let size = old(self).spec_size();
                let frame = old(self).spec_frame();
                &&& d.row < size ==> fell(final(self).drips_view()[i as int], d, frame)
                &&& d.row >= size ==> final(self).drips_view()[i as int] == d
                &&& final(self).grid_view() == if d.row < size && (advances(d, frame) || flicker) {
                    old(self).grid_view().update(cell_index(d.column as int, d.row as int, size), painted(pick))
                } else {
                    old(self).grid_view()
                }
            }),
    {
        let ghost pre = *self;
        assert(self.drips_view() == self.drips@);
        assert(self.drips@[i as int].fits(self.size as int));
        let size = self.size;
        let column = self.drips[i].column;
        let row = self.drips[i].row;
        if row >= size {
            return;
        }
        let advance = self.frame % self.drips[i].velocity == 0;
        if advance || flicker {
            let g = match pick {
                Some(c) => c,
                None => BLANK,
            };
            proof {
                lemma_cell_in_grid(column as int, row as int, size as int);
                if let Some(c) = pick {
                    let pool = self.drips@[i as int].glyphs@;
                    let k = choose|k: int| 0 <= k < pool.len() && pool[k] == c;
                    assert(is_glyph(pool[k]));
                }
                assert(is_glyph(BLANK));
            }
            self.grid.set(column * size + row, g);
            assert forall|k: int| 0 <= k < self.grid@.len() implies is_glyph(#[trigger] self.grid@[k]) by {
                assert(pre.grid_view() == pre.grid@);
                if k != cell_index(column as int, row as int, size as int) {
                    assert(self.grid@[k] == pre.grid@[k]);
                }
            }
        }
        if advance {
            self.drips[i].row = row + 1;
        }
        assert forall|j: int| 0 <= j < self.drips@.len() implies (#[trigger] self.drips@[j]).fits(size as int) by {
            assert(pre.drips_view() == pre.drips@);
            if j != i {
                assert(self.drips@[j] == pre.drips@[j]);
            }
        }
    }

    /// Advances the animation by one frame: the frame count goes up by one;
    /// the drips at the bottom leave, each content drip among them replaced
    /// by the three drips of `is_respawned`; then every drip paints and falls
    /// as `step_drip` says, under one flicker draw for the whole frame.
    pub fn update(&mut self, rng: &mut StdRng)
        requires
            old(self).wf(),
            old(self).spec_frame() < u64::MAX,
        ensures
            final(self).wf(),
            final(self).spec_size() == old(self).spec_size(),
            final(self).spec_frame() == old(self).spec_frame() + 1,
            forall|i: int| 0 <= i < final(self).drips_view().len()
                ==> (#[trigger] final(self).drips_view()[i]).row <= final(self).spec_size(),
            forall|k: int| 0 <= k < final(self).grid_view().len() ==> is_glyph(#[trigger] final(self).grid_view()[k]),
            final(self).grid_view().len() == old(self).grid_view().len(),
            forall|k: int|
                0 <= k < old(self).grid_view().len() && #[trigger] final(self).grid_view()[k] != old(self).grid_view()[k]
                ==> exists|i: int| 0 <= i < final(self).drips_view().len()
                    && may_paint(#[trigger] final(self).drips_view()[i], old(self).spec_frame() + 1,
                        old(self).spec_size(), k, final(self).grid_view()[k]),
            ({
                let size = old(self).spec_size();
                let frame = old(self).spec_frame() + 1;
                let kept = survivors(old(self).drips_view(), size);
                let columns = expired_columns(old(self).drips_view(), size);
                let ds = final(self).drips_view();
                &&& ds.len() == kept.len() + 3 * columns.len()
                &&& forall|i: int| 0 <= i < kept.len()
                    ==> (#[trigger] kept[i]).row < size && fell(ds[i], kept[i], frame)
                &&& forall|j: int| 0 <= j < columns.len()
                    ==> is_respawned(
                        ds[kept.len() + 3 * j],
                        ds[kept.len() + 3 * j + 1],
                        ds[kept.len() + 3 * j + 2],
                        #[trigger] columns[j],
                        size,
                        frame,
                    )
            }),
    {
        let ghost size = self.size as int;
        let ghost frame = self.frame + 1;
        let ghost kept = survivors(self.drips@, size);
        let ghost before = *self;
        proof {
            lemma_survivors_falling(self.drips@, size);
            assert(self.drips_view() == self.drips@);
            lemma_expired_columns_fit(self.drips@, size);
        }
        self.frame = self.frame + 1;
        assert(self.drips_view() == before.drips_view() && self.grid_view() == before.grid_view());
        let columns = self.expire();
        // Respawn after each expired content drip.
        let ghost grid_start = self.grid@;
        assert(grid_start == before.grid_view());
        let n = self.drips.len();
        let mut j: usize = 0;
        while j < columns.len()
            invariant
                self.wf(),
                self.size == size,
                self.frame == frame,
                self.grid@ == grid_start,
                j <= columns@.len(),
                n == kept.len(),
                self.drips@.len() == n + 3 * j,
                forall|i: int| 0 <= i < n ==> #[trigger] self.drips@[i] == kept[i],
                forall|i: int| 0 <= i < n ==> (#[trigger] kept[i]).row < size,
                forall|c: int| 0 <= c < columns@.len() ==> #[trigger] columns@[c] < size,
                forall|c: int| 0 <= c < j ==> spawned_at(self.drips@, n + 3 * c, #[trigger] columns@[c], size, frame),
            decreases columns@.len() - j,
        {
            let ghost pre = self.drips@;
            let content = random_content_drip(rng, self.size, self.frame);
            let eraser_column = random_in(rng, 0, self.size);
            let eraser_velocity = random_in(rng, ERASER_VELOCITY_MIN as usize, ERASER_VELOCITY_END as usize) as u64;
            let follower_velocity = random_in(rng, ERASER_VELOCITY_MIN as usize, FOLLOWER_VELOCITY_END as usize) as u64;
            self.respawn(columns[j], content, eraser_column, eraser_velocity, follower_velocity);
            let ghost post = self.drips@;
            assert(self.drips_view() == post && self.grid_view() == self.grid@);
            assert forall|i: int| 0 <= i < pre.len() implies #[trigger] post[i] == pre[i] by {
                assert(post[i] == pre[i]);
            }
            assert(spawned_at(post, pre.len() as int, columns@[j as int], size, frame));
            j = j + 1;
            assert forall|c: int| 0 <= c < j implies spawned_at(post, n + 3 * c, #[trigger] columns@[c], size, frame) by {
                if c < j - 1 {
                    assert(spawned_at(pre, n + 3 * c, columns@[c], size, frame));
                    assert(post[n + 3 * c] == pre[n + 3 * c]);
                    assert(post[n + 3 * c + 1] == pre[n + 3 * c + 1]);
                    assert(post[n + 3 * c + 2] == pre[n + 3 * c + 2]);
                } else {
                    assert(n + 3 * c == pre.len());
                }
            }
        }
        // Every drip now paints and falls.
        let ghost mid = self.drips@;
        let ghost grid0 = self.grid@;
        assert(grid0 == grid_start);
        assert forall|m: int| 0 <= m < mid.len() implies (#[trigger] mid[m]).row < size by {
            if m >= n {
                let c = (m - n) / 3;
                assert(0 <= c < columns@.len());
                assert(spawned_at(mid, n + 3 * c, columns@[c], size, frame));
                if m == n + 3 * c {
                } else if m == n + 3 * c + 1 {
                } else {
                    assert(m == n + 3 * c + 2);
                }
            } else {
                assert(mid[m] == kept[m]);
            }
        }
        let period = random_in(rng, FLICKER_PERIOD_MIN as usize, FLICKER_PERIOD_END as usize) as u64;
        let flicker = self.frame % period == 0;
        let mut i: usize = 0;
        while i < self.drips.len()
            invariant
                self.wf(),
                self.size == size,
                self.frame == frame,
                i <= self.drips@.len(),
                self.drips@.len() == mid.len(),
                forall|m: int| 0 <= m < mid.len() ==> (#[trigger] mid[m]).row < size,
                forall|m: int| 0 <= m < i ==> fell(#[trigger] self.drips@[m], mid[m], frame),
                forall|m: int| i <= m < mid.len() ==> #[trigger] self.drips@[m] == mid[m],
                self.grid@.len() == grid0.len(),
                forall|k: int| 0 <= k < grid0.len() && #[trigger] self.grid@[k] != grid0[k]
                    ==> exists|m: int| 0 <= m < i && may_paint(#[trigger] self.drips@[m], frame, size, k, self.grid@[k]),
            decreases mid.len() - i,
        {
            assert(self.drips_view() == self.drips@);
            assert(self.drips@[i as int].fits(size));
            let d = &self.drips[i];
            let pick = if d.row < self.size && (self.frame % d.velocity == 0 || flicker) {
                random_choice(rng, &d.glyphs)
            } else {
                None
            };
            let ghost g_pre = self.grid@;
            let ghost d_pre = self.drips@;
            assert(d_pre[i as int] == mid[i as int]);
            self.step_drip(i, flicker, pick);
            proof {
                let ds = self.drips@;
                assert(self.drips_view() == ds && self.grid_view() == self.grid@);
                assert(fell(ds[i as int], mid[i as int], frame));
                assert forall|m: int| 0 <= m < i implies #[trigger] ds[m] == d_pre[m] by {}
                assert forall|k: int| 0 <= k < grid0.len() && #[trigger] self.grid@[k] != grid0[k]
                    implies exists|m: int| 0 <= m < i + 1 && may_paint(#[trigger] ds[m], frame, size, k, self.grid@[k]) by {
                    if self.grid@[k] == g_pre[k] {
                        let m = choose|m: int| 0 <= m < i && may_paint(#[trigger] d_pre[m], frame, size, k, g_pre[k]);
                        assert(ds[m] == d_pre[m]);
                        assert(may_paint(ds[m], frame, size, k, self.grid@[k]));
                    } else {
                        let d = ds[i as int];
                        let idx = cell_index(mid[i as int].column as int, mid[i as int].row as int, size);
                        assert(mid[i as int].fits(size));
                        lemma_cell_in_grid(mid[i as int].column as int, mid[i as int].row as int, size);
                        assert(g_pre != self.grid@);
                        assert(self.grid@ == g_pre.update(idx, painted(pick)));
                        if k != idx {
                            assert(g_pre.update(idx, painted(pick))[k] == g_pre[k]);
                        }
                        assert(k == idx);
                        assert(self.grid@[k] == painted(pick));
                        assert(may_paint(d, frame, size, k, self.grid@[k]));
                    }
                }
            }
            i = i + 1;
        }
    }

    /// Side of the grid.
    pub fn size(&self) -> (r: usize)
        ensures
            r == self.spec_size(),
    {
        self.size
    }

    /// Frames elapsed since the engine was built.
    pub fn frame(&self) -> (r: u64)
        ensures
            r == self.spec_frame(),
    {
        self.frame
    }

    /// The grid, column by column: cell `(column, row)` at
    /// `column * size + row`. Reading it changes nothing.
    pub fn grid(&self) -> (r: &Vec<char>)
        ensures
            r@ == self.grid_view(),
    {
        &self.grid
    }

    /// The glyph in cell `(column, row)`.
    pub fn glyph_at(&self, column: usize, row: usize) -> (r: char)
        requires
            self.wf(),
            column < self.spec_size(),
            row < self.spec_size(),
        ensures
            r == self.cell(column as int, row as int),
            is_glyph(r),
    {
        proof {
            lemma_cell_in_grid(column as int, row as int, self.size as int);
        }
        self.grid[column * self.size + row]
    }

    /// The active drips, in order.
    pub fn drips(&self) -> (r: &Vec<Drip>)
        ensures
            r@ == self.drips_view(),
    {
        &self.drips
    }
}

} // verus!
