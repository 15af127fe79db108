use matrix_waterfall::color::Color;
use matrix_waterfall::column::Column;
use matrix_waterfall::glyph::Glyph;
use matrix_waterfall::pool::default_glyph_pool;
use rand_xoshiro::rand_core::SeedableRng;
use rand_xoshiro::Xoshiro256PlusPlus;

#[test]
fn new_column_is_blank_with_head_at_top() {
    let base = Color::from_rgb(0, 255, 43);
    let col = Column::new(7, base);
    assert_eq!(col.height, 7);
    assert_eq!(col.active_index, 0);
    assert_eq!(col.glyphs.len(), 7);
    for g in &col.glyphs {
        assert_eq!(*g, Glyph::empty());
    }
    assert_eq!(col.base_color, base);
}

#[test]
fn full_cycle_returns_head_to_start() {
    // With the wait-gate forced to pass, height many steps wrap the head
    // back to where it began.
    let base = Color::from_rgb(0, 255, 43);
    let mut col = Column::new(5, base);
    assert_eq!(col.active_index, 0);
    for k in 1..=5usize {
        col.step_with(true, k % 3);
        assert_eq!(col.active_index, k % 5);
    }
    assert_eq!(col.active_index, 0);
}

#[test]
fn gate_failure_at_top_only_fades() {
    let base = Color::from_rgb(0, 255, 43);
    let mut col = Column::new(4, base);
    let before: Vec<Glyph> = col.glyphs.clone();
    col.step_with(false, 0);
    assert_eq!(col.active_index, 0, "a failed gate must not advance the head");
    for (g, b) in col.glyphs.iter().zip(before.iter()) {
        let mut faded = *b;
        faded.fade_color();
        assert_eq!(*g, faded);
    }
}

#[test]
fn gate_ignored_mid_fall() {
    // Once the head has left row zero it advances every tick, gate or not.
    let base = Color::from_rgb(0, 255, 43);
    let mut col = Column::new(4, base);
    col.step_with(true, 0);
    assert_eq!(col.active_index, 1);
    col.step_with(false, 0);
    assert_eq!(col.active_index, 2, "a falling trail advances regardless of the trial");
}

#[test]
fn height_one_head_never_leaves_row_zero() {
    let base = Color::from_rgb(0, 255, 43);
    let mut col = Column::new(1, base);
    let mut rng = Xoshiro256PlusPlus::seed_from_u64(7);
    for _ in 0..50 {
        col.step_with(true, 0);
        assert_eq!(col.active_index, 0);
        col.step_with(false, 0);
        assert_eq!(col.active_index, 0);
        col.step(&mut rng);
        assert_eq!(col.active_index, 0);
    }
}

#[test]
fn stepping_one_column_leaves_another_untouched() {
    let base = Color::from_rgb(0, 255, 43);
    let mut a = Column::new(6, base);
    let b = Column::new(6, base);
    let b_glyphs_before: Vec<Glyph> = b.glyphs.clone();
    let mut rng = Xoshiro256PlusPlus::seed_from_u64(99);
    for _ in 0..40 {
        a.step(&mut rng);
    }
    assert_eq!(b.glyphs, b_glyphs_before);
    assert_eq!(b.active_index, 0);
}

#[test]
fn live_steps_stay_in_range_and_draw_from_pool() {
    let base = Color::from_rgb(0, 255, 43);
    let pool = default_glyph_pool();
    let mut col = Column::new(9, base);
    let mut rng = Xoshiro256PlusPlus::seed_from_u64(1234);
    let mut advanced = false;
    for _ in 0..300 {
        let before = col.active_index;
        col.step(&mut rng);
        assert!(col.active_index < 9);
        if col.active_index != before {
            advanced = true;
            let written = col.glyphs[before];
            assert!(pool.contains(&written.character), "glyph came from the pool");
            assert_eq!(written.color, base);
        }
    }
    assert!(advanced, "three hundred ticks should start at least one trail");
}

#[test]
fn random_glyph_draws_from_the_pool_in_the_given_color() {
    let base = Color::from_rgb(200, 100, 50);
    let pool = default_glyph_pool();
    let mut rng = Xoshiro256PlusPlus::seed_from_u64(77);
    let mut seen_distinct = false;
    let first = Glyph::new_random(&mut rng, base, &pool);
    for _ in 0..100 {
        let g = Glyph::new_random(&mut rng, base, &pool);
        assert!(pool.contains(&g.character));
        assert_eq!(g.color, base);
        if g.character != first.character {
            seen_distinct = true;
        }
    }
    assert!(seen_distinct, "a hundred draws should not all repeat one glyph");
}
