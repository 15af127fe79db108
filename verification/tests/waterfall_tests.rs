use matrix_waterfall::color::Color;
use matrix_waterfall::glyph::Glyph;
use matrix_waterfall::screen::Command;
use matrix_waterfall::waterfall::MatrixWaterfall;
use rand_xoshiro::rand_core::SeedableRng;
use rand_xoshiro::Xoshiro256PlusPlus;

#[test]
fn single_cell_frame_is_the_exact_command_sequence() {
    let base = Color::from_rgb(10, 20, 30);
    let mut w = MatrixWaterfall::with_pool(1, 1, base, vec!['A']);
    // Place a known glyph: gate forced to pass, the only pool entry drawn.
    w.step_with(true, 0);
    let mut out: Vec<Command> = Vec::new();
    w.render(&mut out);
    assert_eq!(
        out,
        vec![
            Command::HideCursor,
            Command::MoveTo(0, 0),
            Command::SetBackground(0, 0, 0),
            Command::SetForeground(10, 20, 30),
            Command::Print('A'),
            Command::ResetColor,
            Command::ShowCursor,
            Command::Flush,
        ]
    );
}

#[test]
fn fresh_single_cell_renders_a_blank_black_glyph() {
    let base = Color::from_rgb(10, 20, 30);
    let w = MatrixWaterfall::new(1, 1, base);
    let mut out: Vec<Command> = Vec::new();
    w.render(&mut out);
    assert_eq!(
        out,
        vec![
            Command::HideCursor,
            Command::MoveTo(0, 0),
            Command::SetBackground(0, 0, 0),
            Command::SetForeground(0, 0, 0),
            Command::Print(' '),
            Command::ResetColor,
            Command::ShowCursor,
            Command::Flush,
        ]
    );
}

#[test]
fn render_is_row_major_with_color_before_each_character() {
    let base = Color::from_rgb(1, 2, 3);
    let w = MatrixWaterfall::new(3, 2, base);
    let mut out: Vec<Command> = Vec::new();
    w.render(&mut out);
    // 3 prologue commands, two per cell over a 3 by 2 grid, 3 epilogue.
    assert_eq!(out.len(), 3 + 2 * 6 + 3);
    assert_eq!(out[0], Command::HideCursor);
    assert_eq!(out[1], Command::MoveTo(0, 0));
    assert_eq!(out[2], Command::SetBackground(0, 0, 0));
    for cell in 0..6 {
        assert_eq!(out[3 + 2 * cell], Command::SetForeground(0, 0, 0));
        assert_eq!(out[3 + 2 * cell + 1], Command::Print(' '));
    }
    assert_eq!(out[15], Command::ResetColor);
    assert_eq!(out[16], Command::ShowCursor);
    assert_eq!(out[17], Command::Flush);
}

#[test]
fn three_by_two_forced_step_writes_the_known_glyph() {
    let base = Color::from_rgb(0, 255, 43);
    let mut w = MatrixWaterfall::with_pool(3, 2, base, vec!['X']);
    w.step_with(true, 0);
    // Every glyph was the blank one; one uniform fade tick applies to all.
    let mut faded_blank = Glyph::empty();
    faded_blank.fade_color();
    // Column zero's top row now holds the known character in the base color.
    assert_eq!(w.columns[0].glyphs[0], Glyph::new('X', base));
    for col in &w.columns {
        assert_eq!(col.glyphs[0], Glyph::new('X', base));
        assert_eq!(col.glyphs[1], faded_blank);
        assert_eq!(col.active_index, 1);
    }
}

#[test]
fn same_seed_same_run() {
    let base = Color::from_rgb(0, 255, 43);
    let mut w1 = MatrixWaterfall::new(4, 3, base);
    let mut w2 = MatrixWaterfall::new(4, 3, base);
    let mut r1 = Xoshiro256PlusPlus::seed_from_u64(424242);
    let mut r2 = Xoshiro256PlusPlus::seed_from_u64(424242);
    for _ in 0..60 {
        w1.step(&mut r1);
        w2.step(&mut r2);
    }
    for (c1, c2) in w1.columns.iter().zip(w2.columns.iter()) {
        assert_eq!(c1.active_index, c2.active_index);
        assert_eq!(c1.glyphs, c2.glyphs);
    }
    let mut out1: Vec<Command> = Vec::new();
    let mut out2: Vec<Command> = Vec::new();
    w1.render(&mut out1);
    w2.render(&mut out2);
    assert_eq!(out1, out2);
}

#[test]
fn different_seeds_eventually_differ() {
    let base = Color::from_rgb(0, 255, 43);
    let mut w1 = MatrixWaterfall::new(4, 3, base);
    let mut w2 = MatrixWaterfall::new(4, 3, base);
    let mut r1 = Xoshiro256PlusPlus::seed_from_u64(1);
    let mut r2 = Xoshiro256PlusPlus::seed_from_u64(2);
    let mut differed = false;
    for _ in 0..200 {
        w1.step(&mut r1);
        w2.step(&mut r2);
        let same = w1
            .columns
            .iter()
            .zip(w2.columns.iter())
            .all(|(a, b)| a.glyphs == b.glyphs && a.active_index == b.active_index);
        if !same {
            differed = true;
            break;
        }
    }
    assert!(differed, "two hundred ticks under different seeds should diverge");
}

#[test]
fn new_waterfall_shares_height_and_color_across_columns() {
    let base = Color::from_rgb(7, 8, 9);
    let w = MatrixWaterfall::new(5, 11, base);
    assert_eq!(w.width, 5);
    assert_eq!(w.height, 11);
    assert_eq!(w.columns.len(), 5);
    for col in &w.columns {
        assert_eq!(col.height, 11);
        assert_eq!(col.base_color, base);
        assert_eq!(col.glyphs.len(), 11);
    }
}

#[test]
fn live_stepping_keeps_every_head_in_range() {
    let base = Color::from_rgb(0, 255, 43);
    let mut w = MatrixWaterfall::new(6, 4, base);
    let mut rng = Xoshiro256PlusPlus::seed_from_u64(5);
    for _ in 0..150 {
        w.step(&mut rng);
        for col in &w.columns {
            assert!(col.active_index < 4);
        }
    }
}
