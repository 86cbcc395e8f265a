//! Brightness and the glyph ramp: how a pixel becomes a character.

use vstd::prelude::*;

verus! {

/// The glyph ramp, from the lightest-looking character to the densest.
pub const RAMP: [char; 10] = [' ', '.', ':', '-', '=', '+', '*', '#', '%', '@'];

/// Perceptual brightness of a colour: the weighted sum
/// `0.299 R + 0.587 G + 0.114 B`, rounded down.
pub open spec fn luma(r: u8, g: u8, b: u8) -> int {
    (299 * r + 587 * g + 114 * b) / 1000
}

/// Position in the ramp of a brightness between 0 and 255.
pub open spec fn glyph_index(brightness: int) -> int {
    brightness * 9 / 255
}

/// The ramp character that stands for a brightness.
pub open spec fn glyph_of(brightness: int) -> char {
    RAMP@[glyph_index(brightness)]
}

/// The ramp character that stands for a colour.
pub open spec fn glyph_of_rgb(r: u8, g: u8, b: u8) -> char {
    glyph_of(luma(r, g, b))
}

/// Computes the brightness of a colour.
pub fn luminance(r: u8, g: u8, b: u8) -> (l: u8)
    ensures
        l == luma(r, g, b),
{
    let weighted: u32 = 299 * (r as u32) + 587 * (g as u32) + 114 * (b as u32);
    (weighted / 1000) as u8
}

/// Maps a brightness to its ramp character.
pub fn pixel_to_ascii(brightness: u8) -> (glyph: char)
    ensures
        glyph == glyph_of(brightness as int),
{
    let steps: usize = RAMP.len() - 1;
    let index: usize = (brightness as usize * steps) / 255;
    RAMP[index]
}

/// A brighter pixel never maps to an earlier glyph, and every brightness
/// of a byte maps into the ramp.
pub proof fn lemma_glyph_index_monotonic(low: int, high: int)
    requires
        0 <= low <= high <= 255,
    ensures
        0 <= glyph_index(low) <= glyph_index(high) <= 9,
{
}

/// The two ends of the brightness scale map to the two ends of the ramp.
pub proof fn lemma_glyph_index_ends()
    ensures
        glyph_index(0) == 0,
        glyph_index(255) == 9,
        glyph_of(0) == ' ',
        glyph_of(255) == '@',
{
}

/// Brightness is a byte: black has none of it, white has all of it, and a
/// grey has the level of its channels.
pub proof fn lemma_luma_bounds(r: u8, g: u8, b: u8)
    ensures
        0 <= luma(r, g, b) <= 255,
        luma(0, 0, 0) == 0,
        luma(255, 255, 255) == 255,
        r == g && g == b ==> luma(r, g, b) == r,
{
}

/// The glyph of a colour is a character of the ramp, and no character of
/// the ramp is a line feed or an escape character.
pub proof fn lemma_glyph_in_ramp(r: u8, g: u8, b: u8)
    ensures
        RAMP@.contains(glyph_of_rgb(r, g, b)),
        glyph_of_rgb(r, g, b) != '\n',
        glyph_of_rgb(r, g, b) != '\x1b',
{
    let index = glyph_index(luma(r, g, b));
    assert(0 <= index <= 9);
    assert(RAMP@[index] == glyph_of_rgb(r, g, b));
}

} // verus!
