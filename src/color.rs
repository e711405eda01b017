use vstd::prelude::*;

verus! {

/// Index in the 6x6x6 colour cube of one channel: `round(c * 5 / 255)`.
pub open spec fn cube_level(c: u8) -> int {
    (2 * c + 51) / 102
}

/// Entry of the 24-step grey ramp (232..=255) nearest to grey level `v`:
/// `232 + round((v - 8) / 10)`, the top levels sharing the last entry.
pub open spec fn grey_code(v: u8) -> int {
    let step = (v - 3) / 10;
    if step > 23 {
        255
    } else {
        232 + step
    }
}

/// The xterm 256-colour palette entry nearest to an RGB colour: shades of
/// grey map onto the grey ramp (or pure black / white at the ends), every
/// other colour onto the colour cube.
pub open spec fn ansi256_of(r: u8, g: u8, b: u8) -> int {
    if r == g && g == b {
        if r < 8 {
            16
        } else if r > 248 {
            231
        } else {
            grey_code(r)
        }
    } else {
        16 + 36 * cube_level(r) + 6 * cube_level(g) + cube_level(b)
    }
}

pub fn rgb_to_ansi256(r: u8, g: u8, b: u8) -> (code: u8)
    ensures
        code == ansi256_of(r, g, b),
{
    if r == g && g == b {
        if r < 8 {
            16
        } else if r > 248 {
            231
        } else {
            let step: u8 = (r - 3) / 10;
            if step > 23 {
                255
            } else {
                232 + step
            }
        }
    } else {
        let ri: u8 = ((2 * (r as u16) + 51) / 102) as u8;
        let gi: u8 = ((2 * (g as u16) + 51) / 102) as u8;
        let bi: u8 = ((2 * (b as u16) + 51) / 102) as u8;
        16 + 36 * ri + 6 * gi + bi
    }
}

} // verus!
