use vstd::prelude::*;

verus! {

/// The glyph ramp, ordered from the visually darkest character to the brightest.
pub const GLYPH_RAMP: &'static str = " .:,;'_\"^<>-!~=)(|j?}{}][ti+l7v1%yrfcJ32uIC$zwo96sgnaT5qpkyVOL40&mG8*xhedbZUSAPQFDXWK#RNEHBM@";

/// Number of glyphs in `GLYPH_RAMP`.
pub const RAMP_LEN: usize = 93;

/// Upper bound on `luminance`: white, 255 on every channel.
pub const LUMINANCE_MAX: u64 = 2550000;

/// Perceptual luminance of a pixel, with the weights 0.2126 / 0.7152 / 0.0722
/// scaled by 10000 so that it stays an integer.
pub open spec fn luminance(p: [u8; 3]) -> int {
    2126 * p[0] + 7152 * p[1] + 722 * p[2]
}

/// Index into a ramp of `ramp_len` glyphs for a pixel: its luminance mapped
/// linearly onto `0 ..= ramp_len - 1`, rounded to the nearest index.
pub open spec fn glyph_index(p: [u8; 3], ramp_len: nat) -> int {
    (2 * luminance(p) * (ramp_len - 1) + LUMINANCE_MAX) / (2 * LUMINANCE_MAX)
}

/// The glyph that `GLYPH_RAMP` holds at `idx`; a space past its end.
pub open spec fn ramp_glyph(idx: u8) -> char {
    if (idx as int) < GLYPH_RAMP@.len() {
        GLYPH_RAMP@[idx as int]
    } else {
        ' '
    }
}

pub proof fn lemma_glyph_index_bounds(p: [u8; 3], ramp_len: nat)
    requires
        ramp_len >= 1,
    ensures
        0 <= glyph_index(p, ramp_len) < ramp_len,
{
    let l = luminance(p);
    let n = ramp_len - 1;
    assert(0 <= l <= 2550000);
    assert(2 * l * n <= 2 * 2550000 * n) by (nonlinear_arith)
        requires
            0 <= l <= 2550000,
            n >= 0,
    ;
    assert(0 <= 2 * l * n) by (nonlinear_arith)
        requires
            0 <= l,
            n >= 0,
    ;
    assert((2 * l * n + 2550000) / 5100000 <= n) by (nonlinear_arith)
        requires
            2 * l * n <= 2 * 2550000 * n,
            n >= 0,
    ;
}

/// Ramp index of a pixel's luminance, for a ramp of `ramp_len` glyphs.
pub fn pixel_glyph_index(p: [u8; 3], ramp_len: usize) -> (idx: u8)
    requires
        1 <= ramp_len <= 256,
    ensures
        idx == glyph_index(p, ramp_len as nat),
        idx < ramp_len,
{
    proof {
        lemma_glyph_index_bounds(p, ramp_len as nat);
    }
    let l: u64 = 2126 * (p[0] as u64) + 7152 * (p[1] as u64) + 722 * (p[2] as u64);
    let n: u64 = (ramp_len - 1) as u64;
    assert(2 * l * n <= 2 * 2550000 * 255) by (nonlinear_arith)
        requires
            l <= 2550000,
            n <= 255,
    ;
    ((2 * l * n + LUMINANCE_MAX) / (2 * LUMINANCE_MAX)) as u8
}

/// The ramp glyph for `idx`, or a space where the ramp has no such entry.
pub fn glyph_char(idx: u8) -> (c: char)
    ensures
        c == ramp_glyph(idx),
{
    proof {
        reveal_strlit(" .:,;'_\"^<>-!~=)(|j?}{}][ti+l7v1%yrfcJ32uIC$zwo96sgnaT5qpkyVOL40&mG8*xhedbZUSAPQFDXWK#RNEHBM@");
    }
    if (idx as usize) < RAMP_LEN {
        GLYPH_RAMP.get_char(idx as usize)
    } else {
        ' '
    }
}

} // verus!
