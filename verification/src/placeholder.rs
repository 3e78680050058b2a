//! Images placed by Unicode placeholder characters.
//!
//! A placeholder cell names its image by the cell's foreground colour and its
//! row and column inside the image by combining diacritics.

use vstd::prelude::*;

verus! {

/// The character that stands for a tile of an image.
pub const KITTY_PLACEHOLDER_CHAR: char = '\u{10EEEE}';

/// The first diacritic of the table, which counts as zero.
pub const FIRST_DIACRITIC: u32 = 0x0305;

/// The image that a foreground colour names, the red byte being the highest.
pub open spec fn id_of_color(r: u8, g: u8, b: u8) -> int {
    r * 0x1_0000 + g * 0x100 + b
}

/// The image ID in a cell's foreground colour.
pub fn image_id_from_fg(r: u8, g: u8, b: u8) -> (id: u32)
    ensures
        id == id_of_color(r, g, b),
{
    assert(((r as u32) << 16) | ((g as u32) << 8) | (b as u32) == r * 0x1_0000 + g * 0x100 + b)
        by (bit_vector);
    ((r as u32) << 16) | ((g as u32) << 8) | (b as u32)
}

/// The row or column that the character with number `c` stands for.
pub open spec fn diacritic_index(c: int) -> int {
    if c >= FIRST_DIACRITIC {
        (c - FIRST_DIACRITIC) % 0x1_0000
    } else {
        0
    }
}

/// The row or column that a diacritic stands for: its distance from the first
/// one, modulo 2^16; characters before the first stand for zero.
pub fn diacritic_to_index(c: char) -> (r: u16)
    ensures
        r == diacritic_index(c as int),
        r == if c as int >= FIRST_DIACRITIC {
            (c as int - FIRST_DIACRITIC) % 0x1_0000
        } else {
            0
        },
{
    let v: u32 = c as u32;
    if v >= FIRST_DIACRITIC {
        let d: u32 = v - FIRST_DIACRITIC;
        assert(d as u16 == d % 0x1_0000) by (bit_vector);
        #[verifier::truncate]
        let index: u16 = d as u16;
        index
    } else {
        0
    }
}

/// A colour made of the three bytes of an ID below 2^24 names that ID.
pub proof fn law_color_round_trip(id: u32)
    requires
        id < 0x100_0000,
    ensures
        id_of_color(((id >> 16) & 0xff) as u8, ((id >> 8) & 0xff) as u8, (id & 0xff) as u8) == id,
{
    assert(((id >> 16) & 0xff) as u8 * 0x1_0000 + ((id >> 8) & 0xff) as u8 * 0x100
        + (id & 0xff) as u8 == id) by (bit_vector)
        requires
            id < 0x100_0000,
    ;
}

/// Different colours name different images.
pub proof fn law_colors_distinct(r1: u8, g1: u8, b1: u8, r2: u8, g2: u8, b2: u8)
    requires
        id_of_color(r1, g1, b1) == id_of_color(r2, g2, b2),
    ensures
        r1 == r2,
        g1 == g2,
        b1 == b2,
{
}

/// The first diacritic and everything before it stand for zero, and each
/// character after it for one more than the one before, round to zero after 2^16.
pub proof fn law_diacritics_count(c: int)
    ensures
        c <= 0x305 ==> diacritic_index(c) == 0,
        c >= 0x305 ==> diacritic_index(c + 1) == (diacritic_index(c) + 1) % 0x1_0000,
        0x305 <= c < 0x1_0305 ==> diacritic_index(c) == c - 0x305,
{
}

} // verus!
