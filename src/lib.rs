//! A "digital rain" animation engine: columns of glyphs fall down a square
//! grid, flicker at random, and are wiped by eraser columns that follow them.

pub mod drip;
pub mod engine;
pub mod glyph;
pub mod random;
