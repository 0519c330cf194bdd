//! The alphabet that rain columns draw their glyphs from.

use crate::random::random_in;
use rand::rngs::StdRng;
use vstd::prelude::*;

verus! {

/// The glyph that an empty cell shows, and the only glyph of an eraser.
pub const BLANK: char = ' ';

/// The alphabet of visible rain: a few ASCII marks, digits, capitals and the
/// half-width katakana block.
pub const CHARSET: &'static str = " '`,-_0123456789<>?ABCDEFGHIJKLMNOPQRSTUVWXYZ｡｢｣､･ｦｧｨｩｪｫｬｭｮｯｰｱｲｳｴｵｶｷｸｹｺｻｼｽｾｿﾀﾁﾂﾃﾄﾅﾆﾇﾈﾉﾊﾋﾌﾍﾎﾏﾐﾑﾒﾓﾔﾕﾖﾗﾘﾙﾚﾛﾜ";

/// Number of glyphs in `CHARSET`.
pub const CHARSET_LEN: usize = 105;

/// The alphabet as a sequence of characters.
pub open spec fn charset() -> Seq<char> {
    CHARSET@
}

/// A glyph that a grid cell may show: one of the alphabet, or blank.
pub open spec fn is_glyph(c: char) -> bool {
    charset().contains(c) || c == BLANK
}

/// A glyph pool that a drip may carry: non-empty, every glyph allowed.
pub open spec fn is_glyph_pool(pool: Seq<char>) -> bool {
    &&& pool.len() > 0
    &&& forall|k: int| 0 <= k < pool.len() ==> is_glyph(#[trigger] pool[k])
}

pub proof fn lemma_charset_len()
    ensures
        charset().len() == CHARSET_LEN,
{
    reveal_strlit(" '`,-_0123456789<>?ABCDEFGHIJKLMNOPQRSTUVWXYZ｡｢｣､･ｦｧｨｩｪｫｬｭｮｯｰｱｲｳｴｵｶｷｸｹｺｻｼｽｾｿﾀﾁﾂﾃﾄﾅﾆﾇﾈﾉﾊﾋﾌﾍﾎﾏﾐﾑﾒﾓﾔﾕﾖﾗﾘﾙﾚﾛﾜ");
}

/// The glyph at position `i` of the alphabet.
pub fn charset_glyph(i: usize) -> (c: char)
    requires
        i < CHARSET_LEN,
    ensures
        c == charset()[i as int],
        charset().contains(c),
{
    proof {
        lemma_charset_len();
    }
    let c = CHARSET.get_char(i);
    assert(charset()[i as int] == c);
    c
}

/// Draws one glyph, uniformly, from the alphabet.
pub fn random_glyph(rng: &mut StdRng) -> (c: char)
    ensures
        charset().contains(c),
{
    let i = random_in(rng, 0, CHARSET_LEN);
    charset_glyph(i)
}

/// Draws `len` glyphs from the alphabet, each on its own; repeats may occur.
pub fn random_glyph_pool(rng: &mut StdRng, len: usize) -> (pool: Vec<char>)
    requires
        len >= 1,
    ensures
        pool@.len() == len,
        forall|k: int| 0 <= k < len ==> charset().contains(#[trigger] pool@[k]),
        is_glyph_pool(pool@),
{
    let mut pool: Vec<char> = Vec::new();
    let mut n: usize = 0;
    while n < len
        invariant
            n <= len,
            pool@.len() == n,
            forall|k: int| 0 <= k < n ==> charset().contains(#[trigger] pool@[k]),
        decreases len - n,
    {
        let c = random_glyph(rng);
        pool.push(c);
        n = n + 1;
    }
    pool
}

/// Whether `c` may be shown in a grid cell.
pub fn is_glyph_char(c: char) -> (r: bool)
    ensures
        r == is_glyph(c),
{
    if c == BLANK {
        return true;
    }
    proof {
        lemma_charset_len();
    }
    let mut i: usize = 0;
    while i < CHARSET_LEN
        invariant
            i <= CHARSET_LEN,
            charset().len() == CHARSET_LEN,
            forall|k: int| 0 <= k < i ==> charset()[k] != c,
        decreases CHARSET_LEN - i,
    {
        if charset_glyph(i) == c {
            return true;
        }
        i = i + 1;
    }
    false
}

/// Whether every glyph of `pool` may be shown, and there is at least one.
pub fn is_glyph_pool_vec(pool: &Vec<char>) -> (r: bool)
    ensures
        r == is_glyph_pool(pool@),
{
    if pool.len() == 0 {
        return false;
    }
    let mut i: usize = 0;
    while i < pool.len()
        invariant
            i <= pool@.len(),
            forall|k: int| 0 <= k < i ==> is_glyph(#[trigger] pool@[k]),
        decreases pool@.len() - i,
    {
        if !is_glyph_char(pool[i]) {
            return false;
        }
        i = i + 1;
    }
    true
}

} // verus!
