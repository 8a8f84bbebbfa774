//! A falling glyph: its character and its fixed velocity.
use vstd::prelude::*;
use crate::geometry::Velocity;

verus! {

/// The characters a particle can be drawn with.
pub open spec fn palette() -> Seq<char> {
    seq!['\\', '/', '|', '~', '(', ')', '[', ']', '*', '#', '@']
}

/// The palette as a vector.
pub fn glyph_palette() -> (r: Vec<char>)
    ensures
        r@ == palette(),
{
    let r = vec!['\\', '/', '|', '~', '(', ')', '[', ']', '*', '#', '@'];
    assert(r@ =~= palette());
    r
}

/// A glyph and its velocity, both fixed once the particle exists.
#[derive(Debug, Clone, Copy, PartialEq, Eq, Structural)]
pub struct RainEntity {
    pub c: char,
    pub velocity: Velocity,
}

impl RainEntity {
    /// A glyph drawn from the palette and a velocity drawn from the generation
    /// ranges.
    pub open spec fn is_generated(self) -> bool {
        palette().contains(self.c) && self.velocity.in_ranges()
    }

    /// A fresh particle with a random glyph and a random velocity.
    pub fn new() -> (r: RainEntity)
        ensures
            r.is_generated(),
    {
        let glyphs = glyph_palette();
        let i = crate::chance::draw_between(0, (glyphs.len() - 1) as i32);
        let c = glyphs[i as usize];
        assert(palette()[i as int] == c);
        RainEntity { c, velocity: Velocity::new() }
    }
}

} // verus!
