//! A single screen cell: one character and its current display color.

use vstd::prelude::*;
use rand_xoshiro::Xoshiro256PlusPlus;
use crate::color::{color_wf, spec_fade_color, Color};
use crate::rng::rand_below;
use crate::screen::Command;

verus! {

/// One cell of the waterfall: a character and the color it is drawn in.
#[derive(Clone, Copy, PartialEq, Eq, Structural, Debug)]
pub struct Glyph {
    pub character: char,
    pub color: Color,
}

pub open spec fn glyph_wf(g: Glyph) -> bool {
    color_wf(g.color)
}

/// One fade tick on a glyph: the character stays, the color dims.
pub open spec fn spec_fade_glyph(g: Glyph) -> Glyph {
    Glyph { character: g.character, color: spec_fade_color(g.color) }
}

/// The blank glyph a column starts from: a space on black.
pub open spec fn spec_empty_glyph() -> Glyph {
    Glyph {
        character: ' ',
        color: Color { r: 0, g: 0, b: 0, hsl: crate::color::hsl_of_rgb(0, 0, 0) },
    }
}

/// The commands that paint one glyph: set its foreground color, then print
/// its character.
pub open spec fn glyph_commands(g: Glyph) -> Seq<Command> {
    seq![
        Command::SetForeground(g.color.r, g.color.g, g.color.b),
        Command::Print(g.character),
    ]
}

impl Glyph {
    /// Build a glyph from a character and a color.
    pub fn new(character: char, color: Color) -> (g: Glyph)
        ensures
            g == (Glyph { character, color }),
    {
        Glyph { character, color }
    }

    /// The blank glyph: a space on black.
    pub fn empty() -> (g: Glyph)
        ensures
            g == spec_empty_glyph(),
            glyph_wf(g),
    {
        Glyph::new(' ', Color::from_rgb(0, 0, 0))
    }

    /// A glyph whose character is drawn uniformly from the pool, in the
    /// given color. Which pool entry is drawn is left open.
    pub fn new_random(rng: &mut Xoshiro256PlusPlus, color: Color, pool: &Vec<char>) -> (g: Glyph)
        requires
            pool@.len() >= 1,
        ensures
            exists|i: int| 0 <= i < pool@.len() && g == (Glyph { character: pool@[i], color }),
    {
        let idx = rand_below(rng, pool.len());
        Glyph { character: pool[idx], color }
    }

    /// One fade tick: dim this glyph's color by one step.
    pub fn fade_color(&mut self)
        requires
            glyph_wf(*old(self)),
        ensures
            *final(self) == spec_fade_glyph(*old(self)),
            glyph_wf(*final(self)),
    {
        self.color = self.color.faded();
    }

    /// Paint this glyph: its foreground color, then its character.
    pub fn render(&self, out: &mut Vec<Command>)
        ensures
            final(out)@ == old(out)@ + glyph_commands(*self),
    {
        out.push(Command::SetForeground(self.color.r, self.color.g, self.color.b));
        out.push(Command::Print(self.character));
        assert(out@ =~= old(out)@ + glyph_commands(*self));
    }
}

} // verus!
