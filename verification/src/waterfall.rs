//! The waterfall: one column per terminal column, rendered and stepped as a
//! whole. Columns are fully independent; a step touches each column's own
//! state and nothing else.

use vstd::prelude::*;
use rand_xoshiro::Xoshiro256PlusPlus;
use crate::color::{color_wf, Color};
use crate::column::{
    col_step_rel, col_wf, spec_column_step, spec_new_column, Column, ColumnModel,
};
use crate::glyph::glyph_commands;
use crate::pool::{default_glyph_pool, default_pool};
use crate::screen::Command;

verus! {

/// The mathematical state of a waterfall.
pub struct WaterfallModel {
    pub width: nat,
    pub height: nat,
    pub base_color: Color,
    pub pool: Seq<char>,
    pub columns: Seq<ColumnModel>,
}

/// The full animation state: an ordered row of columns spanning the
/// terminal width.
pub struct MatrixWaterfall {
    pub width: u16,
    pub height: u16,
    pub base_color: Color,
    pub pool: Vec<char>,
    pub columns: Vec<Column>,
}

impl View for MatrixWaterfall {
    type V = WaterfallModel;

    open spec fn view(&self) -> WaterfallModel {
        WaterfallModel {
            width: self.width as nat,
            height: self.height as nat,
            base_color: self.base_color,
            pool: self.pool@,
            columns: self.columns@.map_values(|c: Column| c@),
        }
    }
}

/// The waterfall invariant: one well-formed column per terminal column, each
/// sharing the waterfall's height, base color and glyph pool.
pub open spec fn waterfall_wf(w: WaterfallModel) -> bool {
    &&& w.width >= 1
    &&& w.height >= 1
    &&& w.pool.len() >= 1
    &&& color_wf(w.base_color)
    &&& w.columns.len() == w.width
    &&& forall|i: int|
        0 <= i < w.columns.len() ==> {
            &&& col_wf(#[trigger] w.columns[i])
            &&& w.columns[i].height == w.height
            &&& w.columns[i].base_color == w.base_color
            &&& w.columns[i].pool == w.pool
        }
}

/// The commands that paint row `y` across the first `n` columns, left to
/// right.
pub open spec fn spec_render_row(cols: Seq<ColumnModel>, y: int, n: int) -> Seq<Command>
    decreases n,
{
    if n <= 0 {
        Seq::empty()
    } else {
        spec_render_row(cols, y, n - 1) + glyph_commands(cols[n - 1].glyphs[y])
    }
}

/// The commands that paint the first `nrows` rows, top to bottom.
pub open spec fn spec_render_rows(cols: Seq<ColumnModel>, nrows: int) -> Seq<Command>
    decreases nrows,
{
    if nrows <= 0 {
        Seq::empty()
    } else {
        spec_render_rows(cols, nrows - 1) + spec_render_row(cols, nrows - 1, cols.len() as int)
    }
}

/// One full frame: hide the cursor, move to the origin, set the background
/// to black, paint every cell in row-major order, restore default colors,
/// show the cursor, and flush the batch.
pub open spec fn spec_render(w: WaterfallModel) -> Seq<Command> {
    seq![Command::HideCursor, Command::MoveTo(0, 0), Command::SetBackground(0, 0, 0)]
        + spec_render_rows(w.columns, w.height as int)
        + seq![Command::ResetColor, Command::ShowCursor, Command::Flush]
}

/// Law: for a one-by-one waterfall the frame is exactly this command
/// sequence — origin, black background, the glyph's own color, its
/// character, then the reset — in this order and nothing else.
pub proof fn lemma_render_single_cell(w: WaterfallModel)
    requires
        waterfall_wf(w),
        w.width == 1,
        w.height == 1,
    ensures
        ({
            let g = w.columns[0].glyphs[0];
            spec_render(w) =~= seq![
                Command::HideCursor,
                Command::MoveTo(0, 0),
                Command::SetBackground(0, 0, 0),
                Command::SetForeground(g.color.r, g.color.g, g.color.b),
                Command::Print(g.character),
                Command::ResetColor,
                Command::ShowCursor,
                Command::Flush,
            ]
        }),
{
    let g = w.columns[0].glyphs[0];
    assert(spec_render_row(w.columns, 0, 0) =~= Seq::<Command>::empty());
    assert(spec_render_rows(w.columns, 0) =~= Seq::<Command>::empty());
    assert(spec_render_row(w.columns, 0, 1) =~= glyph_commands(g));
    assert(spec_render_rows(w.columns, 1) =~= glyph_commands(g));
}

/// Copy a glyph pool so each column can own one.
fn clone_chars(v: &Vec<char>) -> (r: Vec<char>)
    ensures
        r@ == v@,
{
    let mut r: Vec<char> = Vec::new();
    let mut i: usize = 0;
    while i < v.len()
        invariant
            i <= v.len(),
            r@ =~= v@.subrange(0, i as int),
        decreases v.len() - i,
    {
        r.push(v[i]);
        i += 1;
    }
    assert(r@ =~= v@);
    r
}

impl MatrixWaterfall {
    /// Build a waterfall for a terminal of the given size: one fresh column
    /// per terminal column, all sharing the base color and the stock pool.
    pub fn new(width: u16, height: u16, base_color: Color) -> (w: MatrixWaterfall)
        requires
            width >= 1,
            height >= 1,
            color_wf(base_color),
        ensures
            w@.width == width,
            w@.height == height,
            w@.base_color == base_color,
            w@.pool == default_pool(),
            w@.columns.len() == width,
            forall|i: int|
                0 <= i < width ==> #[trigger] w@.columns[i] == spec_new_column(
                    height as nat,
                    base_color,
                    default_pool(),
                ),
            waterfall_wf(w@),
    {
        Self::with_pool(width, height, base_color, default_glyph_pool())
    }

    /// Build a waterfall with a caller-supplied glyph pool.
    pub fn with_pool(width: u16, height: u16, base_color: Color, pool: Vec<char>) -> (w:
        MatrixWaterfall)
        requires
            width >= 1,
            height >= 1,
            color_wf(base_color),
            pool@.len() >= 1,
        ensures
            w@.width == width,
            w@.height == height,
            w@.base_color == base_color,
            w@.pool == pool@,
            w@.columns.len() == width,
            forall|i: int|
                0 <= i < width ==> #[trigger] w@.columns[i] == spec_new_column(
                    height as nat,
                    base_color,
                    pool@,
                ),
            waterfall_wf(w@),
    {
        let mut columns: Vec<Column> = Vec::new();
        while columns.len() < width as usize
            invariant
                columns@.len() <= width as nat,
                height >= 1,
                color_wf(base_color),
                pool@.len() >= 1,
                forall|i: int|
                    0 <= i < columns@.len() ==> (#[trigger] columns@[i])@ == spec_new_column(
                        height as nat,
                        base_color,
                        pool@,
                    ),
            decreases width as int - columns@.len(),
        {
            columns.push(Column::with_pool(height, base_color, clone_chars(&pool)));
        }
        let w = MatrixWaterfall { width, height, base_color, pool, columns };
        assert forall|i: int| 0 <= i < width implies #[trigger] w@.columns[i] == spec_new_column(
            height as nat,
            base_color,
            w@.pool,
        ) by {
            assert(w@.columns[i] == w.columns@[i]@);
        }
        w
    }

    /// One full-screen repaint, appended to `out` as commands: hide cursor,
    /// origin, black background, every cell in row-major order (each cell's
    /// color directive immediately before its character), reset, show
    /// cursor, flush.
    pub fn render(&self, out: &mut Vec<Command>)
        requires
            waterfall_wf(self@),
        ensures
            final(out)@ == old(out)@ + spec_render(self@),
    {
        out.push(Command::HideCursor);
        out.push(Command::MoveTo(0, 0));
        out.push(Command::SetBackground(0, 0, 0));
        let ghost pre = old(out)@ + seq![
            Command::HideCursor,
            Command::MoveTo(0, 0),
            Command::SetBackground(0, 0, 0),
        ];
        assert(out@ =~= pre);
        let mut y: u16 = 0;
        while y < self.height
            invariant
                y <= self.height,
                waterfall_wf(self@),
                out@ == pre + spec_render_rows(self@.columns, y as int),
            decreases self.height as int - y as int,
        {
            let mut x: usize = 0;
            let ghost row_pre = out@;
            while x < self.columns.len()
                invariant
                    x <= self.columns.len(),
                    waterfall_wf(self@),
                    y < self.height,
                    self.columns@.len() == self@.columns.len(),
                    out@ == row_pre + spec_render_row(self@.columns, y as int, x as int),
                decreases self.columns.len() - x,
            {
                let col = &self.columns[x];
                assert(col@ == self@.columns[x as int]);
                assert((y as int) < col@.glyphs.len());
                col.render(out, y);
                x += 1;
                assert(out@ =~= row_pre + spec_render_row(self@.columns, y as int, x as int));
            }
            y += 1;
            assert(out@ =~= pre + spec_render_rows(self@.columns, y as int));
        }
        out.push(Command::ResetColor);
        out.push(Command::ShowCursor);
        out.push(Command::Flush);
        assert(out@ =~= old(out)@ + spec_render(self@));
    }

    /// One tick: every column steps once, each from its own prior state
    /// alone — stepping one column never reads or changes another.
    pub fn step(&mut self, rng: &mut Xoshiro256PlusPlus)
        requires
            waterfall_wf(old(self)@),
        ensures
            waterfall_wf(final(self)@),
            final(self)@.width == old(self)@.width,
            final(self)@.height == old(self)@.height,
            final(self)@.base_color == old(self)@.base_color,
            final(self)@.pool == old(self)@.pool,
            final(self)@.columns.len() == old(self)@.columns.len(),
            forall|i: int|
                0 <= i < old(self)@.columns.len() ==> col_step_rel(
                    old(self)@.columns[i],
                    #[trigger] final(self)@.columns[i],
                ),
    {
        let ghost orig = self@;
        let mut x: usize = 0;
        while x < self.columns.len()
            invariant
                x <= self.columns.len(),
                self.columns@.len() == orig.columns.len(),
                self.width == old(self).width,
                self.height == old(self).height,
                self.base_color == old(self).base_color,
                self.pool@ == orig.pool,
                waterfall_wf(orig),
                forall|i: int|
                    0 <= i < x ==> col_step_rel(orig.columns[i], (#[trigger] self.columns@[i])@),
                forall|i: int|
                    0 <= i < x ==> {
                        &&& col_wf((#[trigger] self.columns@[i])@)
                        &&& self.columns@[i]@.height == orig.height
                        &&& self.columns@[i]@.base_color == orig.base_color
                        &&& self.columns@[i]@.pool == orig.pool
                    },
                forall|i: int|
                    x <= i < orig.columns.len() ==> (#[trigger] self.columns@[i])@
                        == orig.columns[i],
            decreases self.columns.len() - x,
        {
            assert(self.columns@[x as int]@ == orig.columns[x as int]);
            let col = &mut self.columns[x];
            col.step(rng);
            x += 1;
        }
        assert forall|i: int| 0 <= i < orig.columns.len() implies col_step_rel(
            orig.columns[i],
            #[trigger] self@.columns[i],
        ) by {
            assert(self@.columns[i] == self.columns@[i]@);
        }
        assert forall|i: int|
            0 <= i < self@.columns.len() implies {
                &&& col_wf(#[trigger] self@.columns[i])
                &&& self@.columns[i].height == self@.height
                &&& self@.columns[i].base_color == self@.base_color
                &&& self@.columns[i].pool == self@.pool
            } by {
            assert(self@.columns[i] == self.columns@[i]@);
        }
    }

    /// One tick with both random outcomes supplied by the caller, applied to
    /// every column alike: whether the wait-gate passes, and which pool
    /// entry a fresh glyph takes.
    pub fn step_with(&mut self, gate: bool, idx: usize)
        requires
            waterfall_wf(old(self)@),
            (idx as int) < old(self)@.pool.len(),
        ensures
            waterfall_wf(final(self)@),
            final(self)@.width == old(self)@.width,
            final(self)@.height == old(self)@.height,
            final(self)@.base_color == old(self)@.base_color,
            final(self)@.pool == old(self)@.pool,
            final(self)@.columns.len() == old(self)@.columns.len(),
            forall|i: int|
                0 <= i < old(self)@.columns.len() ==> #[trigger] final(self)@.columns[i]
                    == spec_column_step(old(self)@.columns[i], gate, old(self)@.pool[idx as int]),
    {
        let ghost orig = self@;
        let mut x: usize = 0;
        while x < self.columns.len()
            invariant
                x <= self.columns.len(),
                self.columns@.len() == orig.columns.len(),
                self.width == old(self).width,
                self.height == old(self).height,
                self.base_color == old(self).base_color,
                self.pool@ == orig.pool,
                (idx as int) < orig.pool.len(),
                waterfall_wf(orig),
                forall|i: int|
                    0 <= i < x ==> (#[trigger] self.columns@[i])@ == spec_column_step(
                        orig.columns[i],
                        gate,
                        orig.pool[idx as int],
                    ),
                forall|i: int|
                    0 <= i < x ==> {
                        &&& col_wf((#[trigger] self.columns@[i])@)
                        &&& self.columns@[i]@.height == orig.height
                        &&& self.columns@[i]@.base_color == orig.base_color
                        &&& self.columns@[i]@.pool == orig.pool
                    },
                forall|i: int|
                    x <= i < orig.columns.len() ==> (#[trigger] self.columns@[i])@
                        == orig.columns[i],
            decreases self.columns.len() - x,
        {
            assert(self.columns@[x as int]@ == orig.columns[x as int]);
            let col = &mut self.columns[x];
            col.step_with(gate, idx);
            x += 1;
        }
        assert forall|i: int| 0 <= i < orig.columns.len() implies #[trigger] self@.columns[i]
            == spec_column_step(orig.columns[i], gate, orig.pool[idx as int]) by {
            assert(self@.columns[i] == self.columns@[i]@);
        }
        assert forall|i: int|
            0 <= i < self@.columns.len() implies {
                &&& col_wf(#[trigger] self@.columns[i])
                &&& self@.columns[i].height == self@.height
                &&& self@.columns[i].base_color == self@.base_color
                &&& self@.columns[i].pool == self@.pool
            } by {
            assert(self@.columns[i] == self.columns@[i]@);
        }
    }
}

} // verus!
