//! One column of the waterfall: a fixed stack of glyphs and the trail head
//! that falls through it.
//!
//! Each tick every glyph fades one step; the trail head overwrites its row
//! with a fresh random glyph and moves down one row, wrapping to the top.
//! A Bernoulli wait-gate (one chance in ten per tick) holds the head at row
//! zero between trails, so a trail that has started always falls through the
//! whole column without pausing.

use vstd::prelude::*;
use vstd::arithmetic::div_mod::{
    lemma_add_mod_noop, lemma_mod_add_multiples_vanish, lemma_mod_self_0, lemma_mod_twice,
    lemma_small_mod,
};
use rand_xoshiro::Xoshiro256PlusPlus;
use crate::color::{color_wf, lemma_fade_color_wf, Color};
use crate::glyph::{glyph_commands, glyph_wf, spec_empty_glyph, spec_fade_glyph, Glyph};
use crate::pool::{default_glyph_pool, default_pool};
use crate::rng::rand_below;
use crate::screen::Command;

verus! {

/// The mathematical state of a column.
pub struct ColumnModel {
    pub height: nat,
    pub base_color: Color,
    pub glyphs: Seq<Glyph>,
    pub active_index: nat,
    pub pool: Seq<char>,
}

/// A column of glyphs spanning the terminal height, owning its trail head.
pub struct Column {
    pub height: u16,
    pub base_color: Color,
    pub glyphs: Vec<Glyph>,
    pub active_index: usize,
    pub pool: Vec<char>,
}

impl View for Column {
    type V = ColumnModel;

    open spec fn view(&self) -> ColumnModel {
        ColumnModel {
            height: self.height as nat,
            base_color: self.base_color,
            glyphs: self.glyphs@,
            active_index: self.active_index as nat,
            pool: self.pool@,
        }
    }
}

/// A column's invariant: as many glyphs as rows, the trail head on a real
/// row, a non-empty glyph pool, and every color within its ranges.
pub open spec fn col_wf(m: ColumnModel) -> bool {
    &&& m.height >= 1
    &&& m.glyphs.len() == m.height
    &&& m.active_index < m.height
    &&& m.pool.len() >= 1
    &&& color_wf(m.base_color)
    &&& forall|i: int| 0 <= i < m.glyphs.len() ==> glyph_wf(#[trigger] m.glyphs[i])
}

/// Every glyph of a column faded by one tick.
pub open spec fn spec_fade_column(gs: Seq<Glyph>) -> Seq<Glyph> {
    gs.map_values(|g: Glyph| spec_fade_glyph(g))
}

/// A freshly constructed column: all rows blank, trail head at row zero.
pub open spec fn spec_new_column(height: nat, base_color: Color, pool: Seq<char>) -> ColumnModel {
    ColumnModel {
        height,
        base_color,
        glyphs: Seq::new(height, |i: int| spec_empty_glyph()),
        active_index: 0,
        pool,
    }
}

/// One tick of a column, given the two random outcomes: whether the
/// wait-gate passed, and which character a fresh glyph takes. Every glyph
/// fades; unless the head waits at row zero, the head's row is overwritten
/// with a fresh glyph in the column's base color and the head advances,
/// wrapping to row zero at the bottom.
pub open spec fn spec_column_step(m: ColumnModel, gate: bool, ch: char) -> ColumnModel {
    if m.active_index == 0 && !gate {
        ColumnModel {
            height: m.height,
            base_color: m.base_color,
            glyphs: spec_fade_column(m.glyphs),
            active_index: m.active_index,
            pool: m.pool,
        }
    } else {
        ColumnModel {
            height: m.height,
            base_color: m.base_color,
            glyphs: Seq::new(
                m.glyphs.len(),
                |i: int|
                    if i == m.active_index as int {
                        Glyph { character: ch, color: m.base_color }
                    } else {
                        spec_fade_glyph(m.glyphs[i])
                    },
            ),
            active_index: if m.active_index + 1 == m.height {
                0 as nat
            } else {
                (m.active_index + 1) as nat
            },
            pool: m.pool,
        }
    }
}

/// How a column may change in one `step` with a live generator: either the
/// gate held it at row zero (fade only), or it advanced with some pool entry.
pub open spec fn col_step_rel(a: ColumnModel, b: ColumnModel) -> bool {
    ||| (a.active_index == 0 && b == spec_column_step(a, false, ' '))
    ||| (exists|i: int| 0 <= i < a.pool.len() && b == spec_column_step(a, true, a.pool[i]))
}

/// Stepping preserves the column invariant.
pub proof fn lemma_column_step_wf(m: ColumnModel, gate: bool, ch: char)
    requires
        col_wf(m),
    ensures
        col_wf(spec_column_step(m, gate, ch)),
{
    let m2 = spec_column_step(m, gate, ch);
    assert(m2.glyphs.len() == m.glyphs.len());
    assert forall|i: int| 0 <= i < m2.glyphs.len() implies glyph_wf(#[trigger] m2.glyphs[i]) by {
        if (m.active_index == 0 && !gate) || i != m.active_index as int {
            assert(m2.glyphs[i] == spec_fade_glyph(m.glyphs[i]));
            lemma_fade_color_wf(m.glyphs[i].color);
        }
    }
}

/// A column stepped repeatedly with the wait-gate forced to pass, taking the
/// glyph draws from the given sequence (one tick per entry).
pub open spec fn spec_steps_forced(m: ColumnModel, chs: Seq<char>) -> ColumnModel
    decreases chs.len(),
{
    if chs.len() == 0 {
        m
    } else {
        spec_steps_forced(spec_column_step(m, true, chs[0]), chs.drop_first())
    }
}

/// When every tick advances, the trail head moves one row per tick,
/// modulo the height.
proof fn lemma_forced_active(m: ColumnModel, chs: Seq<char>)
    requires
        m.height >= 1,
        m.active_index < m.height,
    ensures
        spec_steps_forced(m, chs).height == m.height,
        spec_steps_forced(m, chs).active_index == (m.active_index as int + chs.len()) % (
        m.height as int),
        spec_steps_forced(m, chs).active_index < m.height,
    decreases chs.len(),
{
    let a = m.active_index as int;
    let h = m.height as int;
    if chs.len() == 0 {
        lemma_small_mod(m.active_index, m.height);
    } else {
        let m1 = spec_column_step(m, true, chs[0]);
        if a + 1 == h {
            lemma_mod_self_0(h);
            assert(m1.active_index == (a + 1) % h);
        } else {
            lemma_small_mod((m.active_index + 1) as nat, m.height);
            assert(m1.active_index == (a + 1) % h);
        }
        lemma_forced_active(m1, chs.drop_first());
        let r = chs.len() - 1;
        assert(spec_steps_forced(m, chs).active_index == ((a + 1) % h + r) % h);
        lemma_add_mod_noop(a + 1, r, h);
        lemma_add_mod_noop((a + 1) % h, r, h);
        lemma_mod_twice(a + 1, h);
        assert(((a + 1) % h + r) % h == (a + 1 + r) % h);
    }
}

/// Law: with the wait-gate forced to pass, as many consecutive steps as the
/// column has rows bring the trail head back to where it began — one full
/// wrap-around cycle — whatever glyphs were drawn on the way.
pub proof fn lemma_full_cycle(m: ColumnModel, chs: Seq<char>)
    requires
        col_wf(m),
        chs.len() == m.height,
    ensures
        spec_steps_forced(m, chs).active_index == m.active_index,
{
    lemma_forced_active(m, chs);
    lemma_mod_add_multiples_vanish(m.active_index as int, m.height as int);
    lemma_small_mod(m.active_index, m.height);
}

/// Law: at height one the trail head has only row zero to stand on; neither
/// the wait-gate nor the wrap-around can ever move it off it.
pub proof fn lemma_height_one_stays(m: ColumnModel, gate: bool, ch: char)
    requires
        col_wf(m),
        m.height == 1,
    ensures
        spec_column_step(m, gate, ch).active_index == 0,
{
}

impl Column {
    /// Build a column of the given height: blank glyphs, head at row zero,
    /// the stock glyph pool.
    pub fn new(height: u16, base_color: Color) -> (c: Column)
        requires
            height >= 1,
            color_wf(base_color),
        ensures
            c@ == spec_new_column(height as nat, base_color, default_pool()),
            col_wf(c@),
    {
        Column::with_pool(height, base_color, default_glyph_pool())
    }

    /// Build a column with a caller-supplied glyph pool.
    pub fn with_pool(height: u16, base_color: Color, pool: Vec<char>) -> (c: Column)
        requires
            height >= 1,
            color_wf(base_color),
            pool@.len() >= 1,
        ensures
            c@ == spec_new_column(height as nat, base_color, pool@),
            col_wf(c@),
    {
        let mut glyphs: Vec<Glyph> = Vec::new();
        while glyphs.len() < height as usize
            invariant
                glyphs@.len() <= height as nat,
                forall|k: int| 0 <= k < glyphs@.len() ==> glyphs@[k] == spec_empty_glyph(),
            decreases height as int - glyphs@.len(),
        {
            glyphs.push(Glyph::empty());
        }
        let c = Column { height, base_color, glyphs, active_index: 0, pool };
        assert(c@.glyphs =~= spec_new_column(height as nat, base_color, c@.pool).glyphs);
        c
    }

    /// Paint the glyph at the given row. The row must be a real one: an
    /// out-of-range row is a caller error, not a runtime condition.
    pub fn render(&self, out: &mut Vec<Command>, y: u16)
        requires
            (y as int) < self@.glyphs.len(),
        ensures
            final(out)@ == old(out)@ + glyph_commands(self@.glyphs[y as int]),
    {
        let g = self.glyphs[y as usize];
        g.render(out);
    }

    /// One tick with both random outcomes supplied by the caller: whether
    /// the wait-gate passes, and which pool entry a fresh glyph takes.
    pub fn step_with(&mut self, gate: bool, idx: usize)
        requires
            col_wf(old(self)@),
            (idx as int) < old(self)@.pool.len(),
        ensures
            final(self)@ == spec_column_step(old(self)@, gate, old(self)@.pool[idx as int]),
            col_wf(final(self)@),
    {
        proof {
            lemma_column_step_wf(old(self)@, gate, old(self)@.pool[idx as int]);
        }
        let ghost orig = self@;
        let len = self.glyphs.len();
        let mut j: usize = 0;
        while j < len
            invariant
                j <= len,
                len == self.glyphs@.len(),
                self.glyphs@.len() == orig.glyphs.len(),
                self@.height == orig.height,
                self@.base_color == orig.base_color,
                self@.pool == orig.pool,
                self@.active_index == orig.active_index,
                col_wf(orig),
                forall|k: int| 0 <= k < j ==> self.glyphs@[k] == spec_fade_glyph(
                    #[trigger] orig.glyphs[k],
                ),
                forall|k: int| j <= k < orig.glyphs.len() ==> self.glyphs@[k]
                    == #[trigger] orig.glyphs[k],
            decreases len - j,
        {
            let mut g = self.glyphs[j];
            assert(g == self.glyphs@[j as int]);
            assert(self.glyphs@[j as int] == orig.glyphs[j as int]);
            assert(glyph_wf(orig.glyphs[j as int]));
            assert(glyph_wf(g));
            g.fade_color();
            self.glyphs[j] = g;
            j += 1;
        }
        assert(self.glyphs@ =~= spec_fade_column(orig.glyphs));
        if self.active_index == 0 && !gate {
            assert(self@.glyphs =~= spec_column_step(orig, gate, orig.pool[idx as int]).glyphs);
            return ;
        }
        let ch: char = self.pool[idx];
        let fresh = Glyph::new(ch, self.base_color);
        let at = self.active_index;
        self.glyphs[at] = fresh;
        self.active_index = at + 1;
        if self.active_index >= self.height as usize {
            self.active_index = 0;
        }
        assert(self@.glyphs =~= spec_column_step(orig, gate, orig.pool[idx as int]).glyphs);
    }

    /// One tick with a live generator. At row zero a draw of one in ten lets
    /// a new trail start; otherwise the column only fades this tick. A
    /// falling trail always advances. Exactly which glyph was drawn is left
    /// open; everything else is pinned by `spec_column_step`.
    pub fn step(&mut self, rng: &mut Xoshiro256PlusPlus)
        requires
            col_wf(old(self)@),
        ensures
            col_step_rel(old(self)@, final(self)@),
            col_wf(final(self)@),
            final(self)@.height == old(self)@.height,
            final(self)@.base_color == old(self)@.base_color,
            final(self)@.pool == old(self)@.pool,
    {
        let ghost orig = self@;
        if self.active_index == 0 {
            let draw = rand_below(rng, 10);
            if draw != 0 {
                self.step_with(false, 0);
                return ;
            }
        }
        let idx = rand_below(rng, self.pool.len());
        self.step_with(true, idx);
        assert(0 <= (idx as int) && (idx as int) < orig.pool.len() && self@ == spec_column_step(
            orig,
            true,
            orig.pool[idx as int],
        ));
    }
}

} // verus!
