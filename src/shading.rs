use vstd::prelude::*;

verus! {

/// The glyph that stands for a brightness level, darkest to brightest:
/// `.` (0..=79), `-` (80..=119), `+` (120..=159), `*` (160..=199),
/// `#` (200..=229), `@` (230..=255).
pub open spec fn glyph_of(brightness: u8) -> char {
    if brightness >= 230 {
        '@'
    } else if brightness >= 200 {
        '#'
    } else if brightness >= 160 {
        '*'
    } else if brightness >= 120 {
        '+'
    } else if brightness >= 80 {
        '-'
    } else {
        '.'
    }
}

/// Maps an 8-bit brightness to the glyph drawn for it.
pub fn glyph_for_brightness(brightness: u8) -> (glyph: char)
    ensures
        glyph == glyph_of(brightness),
{
    if brightness >= 230 {
        '@'
    } else if brightness >= 200 {
        '#'
    } else if brightness >= 160 {
        '*'
    } else if brightness >= 120 {
        '+'
    } else if brightness >= 80 {
        '-'
    } else {
        '.'
    }
}

} // verus!
