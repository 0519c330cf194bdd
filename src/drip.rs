//! One falling column segment: a content drip paints glyphs, an eraser paints
//! blanks.

use crate::glyph::{is_glyph_pool, BLANK};
use vstd::prelude::*;

verus! {

pub struct Drip {
    /// The column it falls down; never changes.
    pub column: usize,
    /// Its leading edge; starts at 0 and only grows.
    pub row: usize,
    /// Frames per row of fall: it moves down on frames that this divides.
    pub velocity: u64,
    /// The glyphs it paints with.
    pub glyphs: Vec<char>,
    /// The frame it was spawned on.
    pub created: u64,
}

/// The pool of an eraser drip: the blank glyph alone.
pub open spec fn is_eraser_pool(pool: Seq<char>) -> bool {
    pool == seq![BLANK]
}

impl Drip {
    /// A drip at the top of `column`, not yet fallen.
    pub fn new(column: usize, velocity: u64, glyphs: Vec<char>, created: u64) -> (d: Drip)
        ensures
            d.column == column,
            d.row == 0,
            d.velocity == velocity,
            d.glyphs@ == glyphs@,
            d.created == created,
    {
        Drip { column, row: 0, velocity, glyphs, created }
    }

    /// An eraser at the top of `column`.
    pub fn eraser(column: usize, velocity: u64, created: u64) -> (d: Drip)
        ensures
            d.column == column,
            d.row == 0,
            d.velocity == velocity,
            is_eraser_pool(d.glyphs@),
            d.created == created,
    {
        let mut glyphs: Vec<char> = Vec::new();
        glyphs.push(BLANK);
        assert(glyphs@ =~= seq![BLANK]);
        Drip { column, row: 0, velocity, glyphs, created }
    }

    /// A drip that a grid of side `size` can hold.
    pub open spec fn fits(&self, size: int) -> bool {
        &&& self.column < size
        &&& self.row <= size
        &&& self.velocity > 0
        &&& is_glyph_pool(self.glyphs@)
    }

    /// Whether this drip is an eraser.
    pub fn is_eraser(&self) -> (r: bool)
        ensures
            r == is_eraser_pool(self.glyphs@),
    {
        if self.glyphs.len() == 1 && self.glyphs[0] == BLANK {
            assert(self.glyphs@ =~= seq![BLANK]);
            true
        } else {
            false
        }
    }
}

} // verus!
