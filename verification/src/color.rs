//! The color model: RGB for display, HSL for the fade math.
//!
//! A `Color` carries its RGB triple (what the terminal is told to draw)
//! together with its HSL form (hue 0..=360, saturation and lightness as
//! percentages 0..=100). Fading scales saturation and lightness down to a
//! floor of 10, at which point further fades leave the color unchanged.
//! All arithmetic is integral, so the fade sequence is exactly reproducible
//! and provably monotone.

use vstd::prelude::*;
use vstd::arithmetic::div_mod::{
    lemma_div_by_multiple, lemma_div_is_ordered, lemma_div_pos_is_pos, lemma_fundamental_div_mod,
    lemma_mod_division_less_than_divisor,
};
use vstd::arithmetic::mul::lemma_mul_inequality;
use vstd::string::StringSliceAdditionalSpecFns;

verus! {

/// A color in hue / saturation / lightness form: hue in degrees (0..=360),
/// saturation and lightness as percentages (0..=100).
#[derive(Clone, Copy, PartialEq, Eq, Structural, Debug)]
pub struct HslColor {
    pub h: u16,
    pub s: u8,
    pub l: u8,
}

/// The ranges the HSL fields are kept in.
pub open spec fn hsl_wf(c: HslColor) -> bool {
    c.h <= 360 && c.s <= 100 && c.l <= 100
}

/// A display color: the RGB triple the terminal is given, together with the
/// HSL form the fade math works on.
#[derive(Clone, Copy, PartialEq, Eq, Structural, Debug)]
pub struct Color {
    pub r: u8,
    pub g: u8,
    pub b: u8,
    pub hsl: HslColor,
}

pub open spec fn color_wf(c: Color) -> bool {
    hsl_wf(c.hsl)
}

pub open spec fn iabs(x: int) -> int {
    if x < 0 {
        -x
    } else {
        x
    }
}

pub open spec fn max3(a: int, b: int, c: int) -> int {
    if a >= b && a >= c {
        a
    } else if b >= c {
        b
    } else {
        c
    }
}

pub open spec fn min3(a: int, b: int, c: int) -> int {
    if a <= b && a <= c {
        a
    } else if b <= c {
        b
    } else {
        c
    }
}

/// Hue in degrees of an RGB triple whose extremes differ (max > min).
pub open spec fn hue_of(r: int, g: int, b: int) -> int {
    let mx = max3(r, g, b);
    let mn = min3(r, g, b);
    let d = mx - mn;
    if mx == r {
        if g >= b {
            60 * (g - b) / d
        } else {
            let k = 60 * (b - g) / d;
            if k == 0 {
                0
            } else {
                360 - k
            }
        }
    } else if mx == g {
        if b >= r {
            120 + 60 * (b - r) / d
        } else {
            120 - 60 * (r - b) / d
        }
    } else {
        if r >= g {
            240 + 60 * (r - g) / d
        } else {
            240 - 60 * (g - r) / d
        }
    }
}

/// The HSL form of an RGB triple, in integer arithmetic.
pub open spec fn hsl_of_rgb(r: u8, g: u8, b: u8) -> HslColor {
    let mx = max3(r as int, g as int, b as int);
    let mn = min3(r as int, g as int, b as int);
    let d = mx - mn;
    let sum = mx + mn;
    let l = sum * 100 / 510;
    if d == 0 {
        HslColor { h: 0u16, s: 0u8, l: l as u8 }
    } else {
        let den = 255 - iabs(sum - 255);
        let s = d * 100 / den;
        HslColor { h: hue_of(r as int, g as int, b as int) as u16, s: s as u8, l: l as u8 }
    }
}

/// Chroma of an HSL color, as a percentage.
pub open spec fn chroma_of(c: HslColor) -> int {
    (100 - iabs(2 * (c.l as int) - 100)) * (c.s as int) / 100
}

/// The secondary channel value within a hue sector.
pub open spec fn hue_mix_of(c: HslColor) -> int {
    chroma_of(c) * (60 - iabs((c.h as int) % 120 - 60)) / 60
}

/// The lightness offset added to every channel.
pub open spec fn light_base_of(c: HslColor) -> int {
    c.l as int - chroma_of(c) / 2
}

/// The three channels before the lightness offset, by hue sector.
pub open spec fn sector_channels_of(c: HslColor) -> (int, int, int) {
    let ch = chroma_of(c);
    let x = hue_mix_of(c);
    let sector = (c.h as int / 60) % 6;
    if sector == 0 {
        (ch, x, 0)
    } else if sector == 1 {
        (x, ch, 0)
    } else if sector == 2 {
        (0, ch, x)
    } else if sector == 3 {
        (0, x, ch)
    } else if sector == 4 {
        (x, 0, ch)
    } else {
        (ch, 0, x)
    }
}

/// One channel rescaled from the percent range to the byte range.
pub open spec fn scale_channel(v: int, m: int) -> int {
    (v + m) * 255 / 100
}

/// The RGB triple of an HSL color, in integer arithmetic.
pub open spec fn rgb_of_hsl(c: HslColor) -> (int, int, int) {
    let chans = sector_channels_of(c);
    let m = light_base_of(c);
    (scale_channel(chans.0, m), scale_channel(chans.1, m), scale_channel(chans.2, m))
}

/// One fade tick in HSL: saturation and lightness each keep 9/10 of their
/// value; once either would drop below 10, the color is clamped to
/// (hue, 10, 10) and stays there.
pub open spec fn fade_hsl(c: HslColor) -> HslColor {
    let s2 = (c.s as int) * 9 / 10;
    let l2 = (c.l as int) * 9 / 10;
    if s2 < 10 || l2 < 10 {
        HslColor { h: c.h, s: 10u8, l: 10u8 }
    } else {
        HslColor { h: c.h, s: s2 as u8, l: l2 as u8 }
    }
}

/// One fade tick on a full color: the HSL form fades, and the RGB triple is
/// recomputed from the faded HSL form.
pub open spec fn spec_fade_color(c: Color) -> Color {
    let nh = fade_hsl(c.hsl);
    let rgb = rgb_of_hsl(nh);
    Color { r: rgb.0 as u8, g: rgb.1 as u8, b: rgb.2 as u8, hsl: nh }
}

pub open spec fn is_hex_digit(b: u8) -> bool {
    (48 <= b && b <= 57) || (97 <= b && b <= 102) || (65 <= b && b <= 70)
}

pub open spec fn hex_digit_val(b: u8) -> int {
    if 48 <= b && b <= 57 {
        b - 48
    } else if 97 <= b && b <= 102 {
        b - 87
    } else {
        b - 55
    }
}

/// The byte named by two hex digits, high first.
pub open spec fn hex_byte(hi: u8, lo: u8) -> int {
    hex_digit_val(hi) * 16 + hex_digit_val(lo)
}

/// What a hex color string names: six hex digits, optionally after a `#`,
/// as an RGB triple; anything else is rejected.
pub open spec fn spec_parse_hex_color(bytes: Seq<u8>) -> Option<(u8, u8, u8)> {
    let body = if bytes.len() == 7 && bytes[0] == 35 {
        bytes.drop_first()
    } else {
        bytes
    };
    if body.len() == 6 && is_hex_digit(body[0]) && is_hex_digit(body[1]) && is_hex_digit(body[2])
        && is_hex_digit(body[3]) && is_hex_digit(body[4]) && is_hex_digit(body[5]) {
        Some(
            (
                hex_byte(body[0], body[1]) as u8,
                hex_byte(body[2], body[3]) as u8,
                hex_byte(body[4], body[5]) as u8,
            ),
        )
    } else {
        None
    }
}

/// `a / d <= k` whenever `a <= k * d`.
proof fn lemma_mul_div_le(a: int, k: int, d: int)
    requires
        0 <= a,
        0 <= k,
        0 < d,
        a <= k * d,
    ensures
        0 <= a / d <= k,
{
    lemma_div_is_ordered(a, k * d, d);
    lemma_div_by_multiple(k, d);
    lemma_div_pos_is_pos(a, d);
}

/// The hue of a triple with max > min lies in 0..360.
proof fn lemma_hue_of_range(r: int, g: int, b: int)
    requires
        0 <= r <= 255,
        0 <= g <= 255,
        0 <= b <= 255,
        max3(r, g, b) > min3(r, g, b),
    ensures
        0 <= hue_of(r, g, b) < 360,
{
    let mx = max3(r, g, b);
    let mn = min3(r, g, b);
    let d = mx - mn;
    if mx == r {
        if g >= b {
            lemma_mul_div_le(60 * (g - b), 60, d);
        } else {
            lemma_mul_div_le(60 * (b - g), 60, d);
        }
    } else if mx == g {
        if b >= r {
            lemma_mul_div_le(60 * (b - r), 60, d);
        } else {
            lemma_mul_div_le(60 * (r - b), 60, d);
        }
    } else {
        if r >= g {
            lemma_mul_div_le(60 * (r - g), 60, d);
        } else {
            lemma_mul_div_le(60 * (g - r), 60, d);
        }
    }
}

/// The pieces of the RGB form of an in-range HSL color are themselves in
/// range: chroma within the percent scale, every channel within a byte.
pub proof fn lemma_rgb_of_hsl_in_range(c: HslColor)
    requires
        hsl_wf(c),
    ensures
        0 <= chroma_of(c) <= 100,
        0 <= hue_mix_of(c) <= chroma_of(c),
        0 <= light_base_of(c) <= 100,
        chroma_of(c) + light_base_of(c) <= 100,
        0 <= rgb_of_hsl(c).0 <= 255,
        0 <= rgb_of_hsl(c).1 <= 255,
        0 <= rgb_of_hsl(c).2 <= 255,
{
    let l = c.l as int;
    let s = c.s as int;
    let q = 100 - iabs(2 * l - 100);
    let ch = chroma_of(c);
    let x = hue_mix_of(c);
    let m = light_base_of(c);
    assert(0 <= q <= 100);
    lemma_mul_inequality(s, 100, q);
    lemma_mul_div_le(q * s, q, 100);
    assert(0 <= ch <= q);
    let t = 60 - iabs((c.h as int) % 120 - 60);
    lemma_mod_division_less_than_divisor(c.h as int, 120);
    assert(0 <= t <= 60);
    lemma_mul_inequality(t, 60, ch);
    lemma_mul_div_le(ch * t, ch, 60);
    assert(0 <= x <= ch);
    // The halved chroma never exceeds what lightness leaves room for.
    lemma_div_is_ordered(ch, q, 2);
    lemma_div_pos_is_pos(ch, 2);
    if l >= 50 {
        lemma_div_by_multiple(100 - l, 2);
        assert(q == (100 - l) * 2);
        assert(q / 2 == 100 - l);
    } else {
        lemma_div_by_multiple(l, 2);
        assert(q == l * 2);
        assert(q / 2 == l);
    }
    assert(0 <= m);
    // The brightest channel stays within the percent scale.
    assert(ch + m <= 100) by {
        lemma_fundamental_div_mod(ch, 2);
        if ch % 2 != 0 {
            assert(ch < q) by {
                lemma_fundamental_div_mod(q, 2);
                if l >= 50 {
                    lemma_div_by_multiple(100 - l, 2);
                } else {
                    lemma_div_by_multiple(l, 2);
                }
            }
            lemma_div_is_ordered(ch + 1, q, 2);
            lemma_fundamental_div_mod(ch + 1, 2);
        }
    }
    lemma_scale_channel_range(0, m);
    lemma_scale_channel_range(x, m);
    lemma_scale_channel_range(ch, m);
}

proof fn lemma_scale_channel_range(v: int, m: int)
    requires
        0 <= v + m <= 100,
    ensures
        0 <= scale_channel(v, m) <= 255,
{
    lemma_mul_div_le((v + m) * 255, 255, 100);
}

/// Fading keeps a color inside its ranges and never moves the hue.
pub proof fn lemma_fade_hsl_wf(c: HslColor)
    requires
        hsl_wf(c),
    ensures
        hsl_wf(fade_hsl(c)),
        fade_hsl(c).h == c.h,
{
    lemma_mul_div_le((c.s as int) * 9, c.s as int, 10);
    lemma_mul_div_le((c.l as int) * 9, c.l as int, 10);
}

/// Fading keeps a full color well formed.
pub proof fn lemma_fade_color_wf(c: Color)
    requires
        color_wf(c),
    ensures
        color_wf(spec_fade_color(c)),
{
    lemma_fade_hsl_wf(c.hsl);
}

/// The color after `n` fade ticks in HSL.
pub open spec fn fade_hsl_iter(c: HslColor, n: nat) -> HslColor
    decreases n,
{
    if n == 0 {
        c
    } else {
        fade_hsl(fade_hsl_iter(c, (n - 1) as nat))
    }
}

/// The color after `n` fade ticks.
pub open spec fn fade_color_iter(c: Color, n: nat) -> Color
    decreases n,
{
    if n == 0 {
        c
    } else {
        spec_fade_color(fade_color_iter(c, (n - 1) as nat))
    }
}

/// One fade tick, for a color at or above the floor: hue fixed, saturation
/// and lightness non-increasing, never below the floor of 10, strictly
/// falling while above it, and fixed exactly at the floor.
pub proof fn lemma_fade_step(c: HslColor)
    requires
        hsl_wf(c),
        c.s >= 10,
        c.l >= 10,
    ensures
        fade_hsl(c).h == c.h,
        hsl_wf(fade_hsl(c)),
        10 <= fade_hsl(c).s <= c.s,
        10 <= fade_hsl(c).l <= c.l,
        c.s > 10 ==> fade_hsl(c).s <= c.s - 1,
        c.l > 10 ==> fade_hsl(c).l <= c.l - 1,
        c.s == 10 && c.l == 10 ==> fade_hsl(c) == c,
{
    let s = c.s as int;
    let l = c.l as int;
    lemma_mul_div_le(s * 9, s, 10);
    lemma_mul_div_le(l * 9, l, 10);
    if c.s > 10 {
        lemma_div_is_ordered(s * 9, (s - 1) * 10, 10);
        lemma_div_by_multiple(s - 1, 10);
    }
    if c.l > 10 {
        lemma_div_is_ordered(l * 9, (l - 1) * 10, 10);
        lemma_div_by_multiple(l - 1, 10);
    }
}

/// After `n` ticks, saturation and lightness have each either reached the
/// floor of 10 or come down by at least `n`, the hue has not moved, and the
/// color is still well formed.
proof fn lemma_fade_iter_bound(c: HslColor, n: nat)
    requires
        hsl_wf(c),
        c.s >= 10,
        c.l >= 10,
    ensures
        fade_hsl_iter(c, n).h == c.h,
        hsl_wf(fade_hsl_iter(c, n)),
        10 <= fade_hsl_iter(c, n).s <= c.s,
        10 <= fade_hsl_iter(c, n).l <= c.l,
        fade_hsl_iter(c, n).s == 10 || fade_hsl_iter(c, n).s + n <= c.s,
        fade_hsl_iter(c, n).l == 10 || fade_hsl_iter(c, n).l + n <= c.l,
    decreases n,
{
    if n > 0 {
        lemma_fade_iter_bound(c, (n - 1) as nat);
        lemma_fade_step(fade_hsl_iter(c, (n - 1) as nat));
    }
}

/// Law: fading is monotone. Tick after tick, saturation and lightness never
/// increase and the hue never moves, for any color at or above the floor.
pub proof fn lemma_fade_monotone(c: HslColor, n: nat)
    requires
        hsl_wf(c),
        c.s >= 10,
        c.l >= 10,
    ensures
        fade_hsl_iter(c, n + 1).s <= fade_hsl_iter(c, n).s,
        fade_hsl_iter(c, n + 1).l <= fade_hsl_iter(c, n).l,
        fade_hsl_iter(c, n).h == c.h,
{
    lemma_fade_iter_bound(c, n);
    lemma_fade_step(fade_hsl_iter(c, n));
    assert(fade_hsl_iter(c, n + 1) == fade_hsl(fade_hsl_iter(c, n)));
}

/// Law: fading converges. Within 90 ticks any color at or above the floor
/// reaches exactly (hue, 10, 10).
pub proof fn lemma_fade_converges(c: HslColor, n: nat)
    requires
        hsl_wf(c),
        c.s >= 10,
        c.l >= 10,
        n >= 90,
    ensures
        fade_hsl_iter(c, n) == (HslColor { h: c.h, s: 10u8, l: 10u8 }),
    decreases n,
{
    lemma_fade_iter_bound(c, n);
}

/// Law: the floor is a fixed point. Fading a color whose saturation and
/// lightness are both 10 leaves it exactly as it is.
pub proof fn lemma_fade_idempotent_at_floor(c: HslColor)
    requires
        c.s == 10,
        c.l == 10,
    ensures
        fade_hsl(c) == c,
{
}

/// The HSL component of an iterated full-color fade is the iterated HSL fade.
proof fn lemma_fade_color_iter_hsl(c: Color, n: nat)
    ensures
        fade_color_iter(c, n).hsl == fade_hsl_iter(c.hsl, n),
    decreases n,
{
    if n > 0 {
        lemma_fade_color_iter_hsl(c, (n - 1) as nat);
    }
}

/// Once at least 90 ticks have passed, a further tick changes nothing.
proof fn lemma_fade_color_stable(c: Color, k: nat)
    requires
        color_wf(c),
        c.hsl.s >= 10,
        c.hsl.l >= 10,
        k >= 90,
    ensures
        fade_color_iter(c, k + 1) == fade_color_iter(c, k),
{
    lemma_fade_color_iter_hsl(c, k);
    lemma_fade_color_iter_hsl(c, (k - 1) as nat);
    lemma_fade_converges(c.hsl, k);
    lemma_fade_converges(c.hsl, (k - 1) as nat + 1);
    let e = fade_color_iter(c, k);
    let floor = HslColor { h: c.hsl.h, s: 10u8, l: 10u8 };
    assert(e.hsl == floor);
    assert(e == spec_fade_color(fade_color_iter(c, (k - 1) as nat)));
    assert(fade_hsl(e.hsl) == e.hsl) by {
        lemma_fade_idempotent_at_floor(e.hsl);
    }
    assert(spec_fade_color(e).hsl == e.hsl);
    assert(spec_fade_color(e).r == e.r && spec_fade_color(e).g == e.g && spec_fade_color(e).b
        == e.b);
}

/// Law: fading a full color is monotone. Tick after tick, saturation and
/// lightness never increase and the hue never moves, for any color at or
/// above the floor.
pub proof fn lemma_fade_color_monotone(c: Color, n: nat)
    requires
        color_wf(c),
        c.hsl.s >= 10,
        c.hsl.l >= 10,
    ensures
        fade_color_iter(c, n + 1).hsl.s <= fade_color_iter(c, n).hsl.s,
        fade_color_iter(c, n + 1).hsl.l <= fade_color_iter(c, n).hsl.l,
        fade_color_iter(c, n).hsl.h == c.hsl.h,
{
    lemma_fade_color_iter_hsl(c, n);
    lemma_fade_color_iter_hsl(c, n + 1);
    lemma_fade_monotone(c.hsl, n);
}

/// Law: for any color at or above the floor, repeated fading reaches the
/// fixed color (hue, 10, 10) within 90 ticks and then never changes again —
/// the whole color, RGB included, is the same at every later tick.
pub proof fn lemma_fade_color_converges(c: Color, n: nat, m: nat)
    requires
        color_wf(c),
        c.hsl.s >= 10,
        c.hsl.l >= 10,
        90 <= n <= m,
    ensures
        fade_color_iter(c, n).hsl == (HslColor { h: c.hsl.h, s: 10u8, l: 10u8 }),
        fade_color_iter(c, m) == fade_color_iter(c, n),
    decreases m,
{
    lemma_fade_color_iter_hsl(c, n);
    lemma_fade_converges(c.hsl, n);
    if m > n {
        lemma_fade_color_converges(c, n, (m - 1) as nat);
        lemma_fade_color_stable(c, (m - 1) as nat);
    }
}

impl HslColor {
    /// Build an HSL color from its three components.
    pub fn new(h: u16, s: u8, l: u8) -> (r: HslColor)
        requires
            h <= 360,
            s <= 100,
            l <= 100,
        ensures
            r == (HslColor { h, s, l }),
            hsl_wf(r),
    {
        HslColor { h, s, l }
    }

    /// The RGB triple this HSL color displays as.
    pub fn to_rgb(&self) -> (rgb: (u8, u8, u8))
        requires
            hsl_wf(*self),
        ensures
            rgb.0 as int == rgb_of_hsl(*self).0,
            rgb.1 as int == rgb_of_hsl(*self).1,
            rgb.2 as int == rgb_of_hsl(*self).2,
    {
        proof {
            lemma_rgb_of_hsl_in_range(*self);
        }
        let l: u32 = self.l as u32;
        let s: u32 = self.s as u32;
        let h: u32 = self.h as u32;
        let q: u32 = if l >= 50 {
            200 - 2 * l
        } else {
            2 * l
        };
        proof {
            lemma_mul_inequality(s as int, 100, q as int);
        }
        let ch: u32 = q * s / 100;
        assert(ch as int == chroma_of(*self));
        let hm: u32 = h % 120;
        let t: u32 = if hm >= 60 {
            60 - (hm - 60)
        } else {
            60 - (60 - hm)
        };
        proof {
            lemma_mul_inequality(t as int, 60, ch as int);
        }
        let x: u32 = ch * t / 60;
        assert(x as int == hue_mix_of(*self));
        let m: u32 = l - ch / 2;
        assert(m as int == light_base_of(*self));
        let sector: u32 = (h / 60) % 6;
        let chans: (u32, u32, u32) = if sector == 0 {
            (ch, x, 0)
        } else if sector == 1 {
            (x, ch, 0)
        } else if sector == 2 {
            (0, ch, x)
        } else if sector == 3 {
            (0, x, ch)
        } else if sector == 4 {
            (x, 0, ch)
        } else {
            (ch, 0, x)
        };
        assert((chans.0 as int, chans.1 as int, chans.2 as int) == sector_channels_of(*self));
        (((chans.0 + m) * 255 / 100) as u8, ((chans.1 + m) * 255 / 100) as u8, ((chans.2 + m) * 255
            / 100) as u8)
    }
}

impl Color {
    /// Build a color from an RGB triple; its HSL form is derived from it.
    pub fn from_rgb(r: u8, g: u8, b: u8) -> (c: Color)
        ensures
            c.r == r,
            c.g == g,
            c.b == b,
            c.hsl == hsl_of_rgb(r, g, b),
            color_wf(c),
    {
        let mx: u32 = if r >= g && r >= b {
            r as u32
        } else if g >= b {
            g as u32
        } else {
            b as u32
        };
        let mn: u32 = if r <= g && r <= b {
            r as u32
        } else if g <= b {
            g as u32
        } else {
            b as u32
        };
        let d: u32 = mx - mn;
        let sum: u32 = mx + mn;
        proof {
            lemma_mul_div_le(sum as int * 100, 100, 510);
        }
        let l: u32 = sum * 100 / 510;
        if d == 0 {
            Color { r, g, b, hsl: HslColor { h: 0, s: 0, l: l as u8 } }
        } else {
            let den: u32 = if sum >= 255 {
                255 - (sum - 255)
            } else {
                255 - (255 - sum)
            };
            proof {
                lemma_mul_div_le(d as int * 100, 100, den as int);
            }
            let s: u32 = d * 100 / den;
            let h: u32 = Self::hue_exec(r as u32, g as u32, b as u32, mx, mn);
            Color { r, g, b, hsl: HslColor { h: h as u16, s: s as u8, l: l as u8 } }
        }
    }

    fn hue_exec(r: u32, g: u32, b: u32, mx: u32, mn: u32) -> (h: u32)
        requires
            r <= 255 && g <= 255 && b <= 255,
            mx == max3(r as int, g as int, b as int),
            mn == min3(r as int, g as int, b as int),
            mx > mn,
        ensures
            h as int == hue_of(r as int, g as int, b as int),
            h < 360,
    {
        proof {
            lemma_hue_of_range(r as int, g as int, b as int);
        }
        let d: u32 = mx - mn;
        if mx == r {
            if g >= b {
                60 * (g - b) / d
            } else {
                let k: u32 = 60 * (b - g) / d;
                if k == 0 {
                    0
                } else {
                    360 - k
                }
            }
        } else if mx == g {
            if b >= r {
                120 + 60 * (b - r) / d
            } else {
                120 - 60 * (r - b) / d
            }
        } else {
            if r >= g {
                240 + 60 * (r - g) / d
            } else {
                240 - 60 * (g - r) / d
            }
        }
    }

    /// Parse a hex color string: six hex digits, optionally after a `#`,
    /// either case. Exactly the malformed strings are rejected.
    pub fn from_hexstring(s: &str) -> (r: Option<Color>)
        ensures
            ({
                match spec_parse_hex_color(s.spec_bytes()) {
                    Some(t) => r == Some(
                        (Color { r: t.0, g: t.1, b: t.2, hsl: hsl_of_rgb(t.0, t.1, t.2) }),
                    ) && color_wf(r.unwrap()),
                    None => r is None,
                }
            }),
    {
        let bytes: &[u8] = s.as_bytes();
        let n = bytes.len();
        let has_hash = n == 7 && bytes[0] == 35;
        if !(n == 6 || has_hash) {
            return None;
        }
        let off: usize = if has_hash {
            1
        } else {
            0
        };
        let ghost body = if s.spec_bytes().len() == 7 && s.spec_bytes()[0] == 35 {
            s.spec_bytes().drop_first()
        } else {
            s.spec_bytes()
        };
        assert(body.len() == 6);
        assert(forall|i: int| 0 <= i < 6 ==> body[i] == s.spec_bytes()[i + off]);
        let d0 = Self::hex_val(bytes[off]);
        let d1 = Self::hex_val(bytes[off + 1]);
        let d2 = Self::hex_val(bytes[off + 2]);
        let d3 = Self::hex_val(bytes[off + 3]);
        let d4 = Self::hex_val(bytes[off + 4]);
        let d5 = Self::hex_val(bytes[off + 5]);
        if d0.is_none() || d1.is_none() || d2.is_none() || d3.is_none() || d4.is_none()
            || d5.is_none() {
            proof {
                if d0 is None {
                    assert(!is_hex_digit(body[0]));
                } else if d1 is None {
                    assert(!is_hex_digit(body[1]));
                } else if d2 is None {
                    assert(!is_hex_digit(body[2]));
                } else if d3 is None {
                    assert(!is_hex_digit(body[3]));
                } else if d4 is None {
                    assert(!is_hex_digit(body[4]));
                } else {
                    assert(!is_hex_digit(body[5]));
                }
                assert(spec_parse_hex_color(s.spec_bytes()) is None);
            }
            return None;
        }
        let h0 = d0.unwrap();
        let h1 = d1.unwrap();
        let h2 = d2.unwrap();
        let h3 = d3.unwrap();
        let h4 = d4.unwrap();
        let h5 = d5.unwrap();
        let rr: u8 = h0 * 16 + h1;
        let gg: u8 = h2 * 16 + h3;
        let bb: u8 = h4 * 16 + h5;
        assert(rr as int == hex_byte(body[0], body[1]));
        assert(gg as int == hex_byte(body[2], body[3]));
        assert(bb as int == hex_byte(body[4], body[5]));
        assert(spec_parse_hex_color(s.spec_bytes()) == Some((rr, gg, bb)));
        let c = Color::from_rgb(rr, gg, bb);
        assert(c == (Color { r: rr, g: gg, b: bb, hsl: hsl_of_rgb(rr, gg, bb) }));
        Some(c)
    }

    /// The value of one hex digit, in either case; anything else is refused.
    fn hex_val(b: u8) -> (v: Option<u8>)
        ensures
            v is Some <==> is_hex_digit(b),
            v is Some ==> v.unwrap() as int == hex_digit_val(b) && v.unwrap() < 16,
    {
        if b >= 48 && b <= 57 {
            Some(b - 48)
        } else if b >= 97 && b <= 102 {
            Some(b - 97 + 10)
        } else if b >= 65 && b <= 70 {
            Some(b - 65 + 10)
        } else {
            None
        }
    }

    /// The HSL form of this color.
    pub fn as_hsl(&self) -> (r: HslColor)
        ensures
            r == self.hsl,
    {
        self.hsl
    }

    /// One fade tick: the HSL form dims by one step and the RGB triple is
    /// recomputed from it.
    pub fn faded(&self) -> (c: Color)
        requires
            color_wf(*self),
        ensures
            c == spec_fade_color(*self),
            color_wf(c),
    {
        let s2: u32 = (self.hsl.s as u32) * 9 / 10;
        let l2: u32 = (self.hsl.l as u32) * 9 / 10;
        let nh: HslColor = if s2 < 10 || l2 < 10 {
            HslColor { h: self.hsl.h, s: 10, l: 10 }
        } else {
            HslColor { h: self.hsl.h, s: s2 as u8, l: l2 as u8 }
        };
        proof {
            lemma_mul_div_le((self.hsl.s as int) * 9, self.hsl.s as int, 10);
            lemma_mul_div_le((self.hsl.l as int) * 9, self.hsl.l as int, 10);
        }
        let rgb = nh.to_rgb();
        Color { r: rgb.0, g: rgb.1, b: rgb.2, hsl: nh }
    }
}

} // verus!
