use matrix_waterfall::color::{Color, HslColor};

#[test]
fn from_rgb_derives_exact_hsl() {
    let c = Color::from_rgb(0, 255, 43);
    assert_eq!(c.r, 0);
    assert_eq!(c.g, 255);
    assert_eq!(c.b, 43);
    let hsl = c.as_hsl();
    assert_eq!(hsl, HslColor { h: 130, s: 100, l: 50 });
}

#[test]
fn from_rgb_black_and_white() {
    let black = Color::from_rgb(0, 0, 0);
    assert_eq!(black.as_hsl(), HslColor { h: 0, s: 0, l: 0 });
    let white = Color::from_rgb(255, 255, 255);
    assert_eq!(white.as_hsl(), HslColor { h: 0, s: 0, l: 100 });
}

#[test]
fn hsl_to_rgb_exact() {
    let hsl = HslColor::new(130, 100, 50);
    assert_eq!(hsl.to_rgb(), (0, 255, 40));
}

#[test]
fn fade_is_monotone_and_converges_to_floor() {
    let mut c = Color::from_rgb(0, 255, 43);
    let start = c.as_hsl();
    assert_eq!(start.s, 100);
    assert_eq!(start.l, 50);
    let mut prev = start;
    for _ in 0..200 {
        c = c.faded();
        let cur = c.as_hsl();
        assert!(cur.s <= prev.s, "saturation rose from {} to {}", prev.s, cur.s);
        assert!(cur.l <= prev.l, "lightness rose from {} to {}", prev.l, cur.l);
        assert_eq!(cur.h, start.h, "hue moved");
        prev = cur;
    }
    assert_eq!(c.as_hsl(), HslColor { h: 130, s: 10, l: 10 });
}

#[test]
fn fade_fixed_at_floor() {
    let mut c = Color::from_rgb(0, 255, 43);
    for _ in 0..90 {
        c = c.faded();
    }
    assert_eq!(c.as_hsl(), HslColor { h: 130, s: 10, l: 10 });
    let again = c.faded();
    assert_eq!(again, c);
}

#[test]
fn fade_first_step_exact() {
    // One tick of 100 / 50 keeps nine tenths: 90 / 45.
    let c = Color::from_rgb(0, 255, 43).faded();
    assert_eq!(c.as_hsl(), HslColor { h: 130, s: 90, l: 45 });
}

#[test]
fn hexstring_valid_uppercase() {
    let c = Color::from_hexstring("00FF2B").expect("six hex digits parse");
    assert_eq!(c, Color::from_rgb(0, 255, 43));
}

#[test]
fn hexstring_valid_lowercase_with_hash() {
    let c = Color::from_hexstring("#00ff2b").expect("hash form parses");
    assert_eq!(c, Color::from_rgb(0, 255, 43));
}

#[test]
fn hexstring_mixed_digits() {
    let c = Color::from_hexstring("1a2B3c").expect("mixed case parses");
    assert_eq!(c, Color::from_rgb(26, 43, 60));
}

#[test]
fn hexstring_rejects_bad_length() {
    assert!(Color::from_hexstring("").is_none());
    assert!(Color::from_hexstring("00FF2").is_none());
    assert!(Color::from_hexstring("00FF2BA").is_none());
    assert!(Color::from_hexstring("#00FF2BA").is_none());
}

#[test]
fn hexstring_rejects_bad_digit() {
    assert!(Color::from_hexstring("00FF2G").is_none());
    assert!(Color::from_hexstring("#00ff2g").is_none());
    assert!(Color::from_hexstring("-00F2B").is_none());
}

#[test]
fn hexstring_hash_needs_six_digits() {
    assert!(Color::from_hexstring("#0F2B").is_none());
    assert!(Color::from_hexstring("##0F2B").is_none());
}
