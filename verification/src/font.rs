//! The built-in 8x16 bitmap font.
//!
//! Each glyph is 8 pixels wide and 16 rows tall and is stored packed in a
//! `u128`: row 0 in the most significant byte, row 15 in the least, bit 7 of
//! a row byte being the leftmost pixel. The font covers a small set of
//! characters; space and control characters render blank, any other
//! character renders as a hollow box.

use vstd::prelude::*;

verus! {

/// The packed 16 rows of the glyph for `c` (row 0 in the top byte).
pub open spec fn spec_glyph_bits(c: char) -> u128 {
    if c == 'H' {
        0x0000_C6C6_C6C6_FEC6_C6C6_C6C6_0000_0000
    } else if c == 'W' {
        0x0000_C6C6_C6C6_D6D6_D6FE_EEC6_0000_0000
    } else if c == 'd' {
        0x0000_1C0C_0C7C_CCCC_CCCC_CC76_0000_0000
    } else if c == 'e' {
        0x0000_0000_007C_C6FE_C0C0_C67C_0000_0000
    } else if c == 'i' {
        0x0000_1818_0038_1818_1818_183C_0000_0000
    } else if c == 'l' {
        0x0000_3818_1818_1818_1818_183C_0000_0000
    } else if c == 'o' {
        0x0000_0000_007C_C6C6_C6C6_C67C_0000_0000
    } else if c == 'r' {
        0x0000_0000_00DC_7666_6060_60F0_0000_0000
    } else if (c as u32) <= 32 {
        0
    } else {
        0x0000_FEC6_C6C6_C6C6_C6C6_C6FE_0000_0000
    }
}

#[verifier::when_used_as_spec(spec_glyph_bits)]
pub fn glyph_bits(c: char) -> (b: u128)
    ensures
        b == spec_glyph_bits(c),
{
    if c == 'H' {
        0x0000_C6C6_C6C6_FEC6_C6C6_C6C6_0000_0000
    } else if c == 'W' {
        0x0000_C6C6_C6C6_D6D6_D6FE_EEC6_0000_0000
    } else if c == 'd' {
        0x0000_1C0C_0C7C_CCCC_CCCC_CC76_0000_0000
    } else if c == 'e' {
        0x0000_0000_007C_C6FE_C0C0_C67C_0000_0000
    } else if c == 'i' {
        0x0000_1818_0038_1818_1818_183C_0000_0000
    } else if c == 'l' {
        0x0000_3818_1818_1818_1818_183C_0000_0000
    } else if c == 'o' {
        0x0000_0000_007C_C6C6_C6C6_C67C_0000_0000
    } else if c == 'r' {
        0x0000_0000_00DC_7666_6060_60F0_0000_0000
    } else if (c as u32) <= 32 {
        0
    } else {
        0x0000_FEC6_C6C6_C6C6_C6C6_C6FE_0000_0000
    }
}

/// The bitmask of row `row` (0 = top) of the glyph for `c`.
pub open spec fn spec_glyph_row(c: char, row: int) -> u8 {
    (spec_glyph_bits(c) >> (((15 - row) * 8) as u128)) as u8
}

pub fn glyph_row(c: char, row: usize) -> (b: u8)
    requires
        row < 16,
    ensures
        b == spec_glyph_row(c, row as int),
{
    let shift: u128 = ((15 - row) * 8) as u128;
    (glyph_bits(c) >> shift) as u8
}

/// Whether the pixel at column `col` of row `row` of the glyph for `c` is set.
pub open spec fn glyph_px(c: char, row: int, col: int) -> bool {
    (spec_glyph_row(c, row) >> ((7 - col) as u8)) & 1 == 1
}

} // verus!
