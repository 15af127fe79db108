//! The glyph pool: the fixed set of characters a fresh trail-head glyph is
//! drawn from. Provided at construction time so a deterministic pool can be
//! substituted; this is the stock one, a mix of half-width katakana, digits,
//! and symbols.

use vstd::prelude::*;

verus! {

/// The stock glyph pool, in order.
pub open spec fn default_pool() -> Seq<char> {
    seq![
        'ﾊ', 'ﾐ', 'ﾋ', 'ｰ', 'ｳ', 'ｼ', 'ﾅ', 'ﾓ', 'ﾆ', 'ｻ', 'ﾜ', 'ﾂ', 'ｵ', 'ﾘ', 'ｱ', 'ﾎ', 'ﾃ',
        'ﾏ', 'ｹ', 'ﾒ', 'ｴ', 'ｶ', 'ｷ', 'ﾑ', 'ﾕ', 'ﾗ', 'ｾ', 'ﾈ', 'ｽ', 'ﾀ', 'ﾇ', 'ﾍ', 'ｦ', 'ｲ',
        'ｸ', 'ｺ', 'ｿ', 'ﾁ', 'ﾄ', 'ﾉ', 'ﾌ', 'ﾔ', 'ﾖ', 'ﾙ', 'ﾚ', 'ﾛ', 'ﾝ', '0', '1', '2', '3',
        '4', '5', '7', '8', '9', 'Z', ':', '.', '"', '=', '*', '+', '-', '<', '>', '¦', '╌', 'ç',
    ]
}

/// Build the stock glyph pool.
pub fn default_glyph_pool() -> (p: Vec<char>)
    ensures
        p@ == default_pool(),
        p@.len() >= 1,
{
    let mut p: Vec<char> = Vec::new();
    p.push('ﾊ');
    p.push('ﾐ');
    p.push('ﾋ');
    p.push('ｰ');
    p.push('ｳ');
    p.push('ｼ');
    p.push('ﾅ');
    p.push('ﾓ');
    p.push('ﾆ');
    p.push('ｻ');
    p.push('ﾜ');
    p.push('ﾂ');
    p.push('ｵ');
    p.push('ﾘ');
    p.push('ｱ');
    p.push('ﾎ');
    p.push('ﾃ');
    p.push('ﾏ');
    p.push('ｹ');
    p.push('ﾒ');
    p.push('ｴ');
    p.push('ｶ');
    p.push('ｷ');
    p.push('ﾑ');
    p.push('ﾕ');
    p.push('ﾗ');
    p.push('ｾ');
    p.push('ﾈ');
    p.push('ｽ');
    p.push('ﾀ');
    p.push('ﾇ');
    p.push('ﾍ');
    p.push('ｦ');
    p.push('ｲ');
    p.push('ｸ');
    p.push('ｺ');
    p.push('ｿ');
    p.push('ﾁ');
    p.push('ﾄ');
    p.push('ﾉ');
    p.push('ﾌ');
    p.push('ﾔ');
    p.push('ﾖ');
    p.push('ﾙ');
    p.push('ﾚ');
    p.push('ﾛ');
    p.push('ﾝ');
    p.push('0');
    p.push('1');
    p.push('2');
    p.push('3');
    p.push('4');
    p.push('5');
    p.push('7');
    p.push('8');
    p.push('9');
    p.push('Z');
    p.push(':');
    p.push('.');
    p.push('"');
    p.push('=');
    p.push('*');
    p.push('+');
    p.push('-');
    p.push('<');
    p.push('>');
    p.push('¦');
    p.push('╌');
    p.push('ç');
    assert(p@ =~= default_pool());
    p
}

} // verus!
