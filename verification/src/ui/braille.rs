use vstd::prelude::*;
use crate::text::char_from_u32;

verus! {

/// A column level kept within the four dots a column has.
pub open spec fn clamp4(level: u8) -> u8 {
    if level > 4 { 4 } else { level }
}

/// Bits lit by a left column filled to `level` (0..=4) from the bottom:
/// dots 7, 3, 2, 1.
pub open spec fn left_bits(level: u8) -> u32 {
    if level == 0 { 0 } else if level == 1 { 0x40 } else if level == 2 { 0x44 } else if level == 3 { 0x46 } else { 0x47 }
}

/// Bits lit by a right column filled to `level` (0..=4) from the bottom:
/// dots 8, 6, 5, 4.
pub open spec fn right_bits(level: u8) -> u32 {
    if level == 0 { 0 } else if level == 1 { 0x80 } else if level == 2 { 0xA0 } else if level == 3 { 0xB0 } else { 0xB8 }
}

/// The dot bits of a cell whose columns are filled to `left` and `right`.
pub open spec fn cell_bits(left: u8, right: u8) -> u32 {
    left_bits(clamp4(left)) | right_bits(clamp4(right))
}

/// How many of the eight dots `bits` lights.
pub open spec fn dots(bits: u32) -> int {
    (bits & 1) + ((bits >> 1u32) & 1) + ((bits >> 2u32) & 1) + ((bits >> 3u32) & 1) + ((bits >> 4u32) & 1) + ((
    bits >> 5u32) & 1) + ((bits >> 6u32) & 1) + ((bits >> 7u32) & 1)
}

proof fn lemma_cell_dots(l1: u8, r1: u8, l2: u8, r2: u8)
    by (bit_vector)
    ensures
        left_bits(clamp4(l1)) & right_bits(clamp4(r1)) == 0,
        cell_bits(l1, r1) == left_bits(clamp4(l1)) + right_bits(clamp4(r1)),
        cell_bits(l1, r1) <= 0xFF,
        cell_bits(l1, 0) == left_bits(clamp4(l1)),
        cell_bits(0, r1) == right_bits(clamp4(r1)),
        dots(cell_bits(l1, r1)) == clamp4(l1) + clamp4(r1),
        l1 <= l2 ==> left_bits(clamp4(l1)) & !left_bits(clamp4(l2)) == 0,
        r1 <= r2 ==> right_bits(clamp4(r1)) & !right_bits(clamp4(r2)) == 0,
{
}

/// The dots of a braille cell: the code point is U+2800 plus an 8-bit
/// pattern; levels above 4 count as 4; the left and right columns light
/// disjoint dots and the cell is their union; a cell lights exactly as many
/// dots as its two (clamped) levels add up to; and a higher level only adds
/// dots to a column, never takes one away.
pub proof fn law_braille_dots(l1: u8, r1: u8, l2: u8, r2: u8)
    ensures
        cell_bits(l1, r1) <= 0xFF,
        cell_bits(l1, r1) == cell_bits(clamp4(l1), clamp4(r1)),
        cell_bits(l1, r1) == cell_bits(l1, 0) | cell_bits(0, r1),
        cell_bits(l1, 0) & cell_bits(0, r1) == 0,
        dots(cell_bits(l1, r1)) == clamp4(l1) + clamp4(r1),
        l1 <= l2 ==> cell_bits(l1, 0) & !cell_bits(l2, 0) == 0,
        r1 <= r2 ==> cell_bits(0, r1) & !cell_bits(0, r2) == 0,
{
    lemma_cell_dots(l1, r1, l2, r2);
    lemma_cell_dots(l2, r2, l1, r1);
    assert(clamp4(clamp4(l1)) == clamp4(l1));
    assert(clamp4(clamp4(r1)) == clamp4(r1));
}

/// The braille glyph with the given dot bits (U+2800 + bits).
pub fn braille_from_bits(bits: u32) -> (c: char)
    ensures
        c as u32 == 0x2800 + bits % 256,
{
    let code = 0x2800 + bits % 256;
    match char_from_u32(code) {
        Some(c) => c,
        None => '\u{2800}',
    }
}

/// One braille cell holding two columns, each filled from the bottom to its
/// level; levels above 4 count as 4.
pub fn braille_cell(left: u8, right: u8) -> (c: char)
    ensures
        c as u32 == 0x2800 + cell_bits(left, right),
{
    let l = if left > 4 { 4 } else { left };
    let r = if right > 4 { 4 } else { right };
    let lb: u32 = if l == 0 { 0 } else if l == 1 { 0x40 } else if l == 2 { 0x44 } else if l == 3 { 0x46 } else { 0x47 };
    let rb: u32 = if r == 0 { 0 } else if r == 1 { 0x80 } else if r == 2 { 0xA0 } else if r == 3 { 0xB0 } else { 0xB8 };
    proof {
        lemma_cell_dots(left, right, left, right);
    }
    braille_from_bits(lb + rb)
}

} // verus!
