use vstd::prelude::*;

verus! {

/// The 16-entry block-mosaic table. The index is a bitmask over a 2×2 subcell
/// grid: bit `i*2 + j` stands for subcell row `i`, column `j`, counting
/// top-to-bottom, left-to-right. Mask 0 is the empty cell, a space.
pub open spec fn block_char_spec(mask: u8) -> char {
    match mask {
        0 => ' ',
        1 => '▘',
        2 => '▝',
        3 => '▀',
        4 => '▖',
        5 => '▌',
        6 => '▞',
        7 => '▛',
        8 => '▗',
        9 => '▚',
        10 => '▐',
        11 => '▜',
        12 => '▄',
        13 => '▙',
        14 => '▟',
        15 => '█',
        _ => ' ',
    }
}

/// The 256-entry braille-dot table. The index is a bitmask over a 4×2 subcell
/// grid, bit `i*2 + j` for subcell row `i`, column `j`. Mask 0 is a plain
/// space; every other mask maps to the braille-pattern character whose code
/// point is `0x2800 + mask`.
pub open spec fn braille_char_spec(mask: u8) -> char {
    if mask == 0 {
        ' '
    } else {
        (0x2800 + mask as u32) as char
    }
}

/// Block-table lookup: total on every mask in `[0, 16)`.
pub fn block_char(mask: u8) -> (c: char)
    requires
        mask < 16,
    ensures
        c == block_char_spec(mask),
{
    match mask {
        0 => ' ',
        1 => '▘',
        2 => '▝',
        3 => '▀',
        4 => '▖',
        5 => '▌',
        6 => '▞',
        7 => '▛',
        8 => '▗',
        9 => '▚',
        10 => '▐',
        11 => '▜',
        12 => '▄',
        13 => '▙',
        14 => '▟',
        _ => '█',
    }
}

/// Relies on `char::from_u32`: for every `u32` that is a Unicode scalar value
/// (below the surrogate range, or past it and at most 0x10FFFF) it is
/// documented to return `Some` of the character with that code point.
#[verifier::external_body]
fn char_from_scalar(u: u32) -> (c: char)
    requires
        u < 0xD800 || (0xE000 <= u && u <= 0x10FFFF),
    ensures
        c as u32 == u,
{
    char::from_u32(u).unwrap()
}

/// Braille-table lookup: total on every mask in `[0, 256)`.
pub fn braille_char(mask: u8) -> (c: char)
    ensures
        c == braille_char_spec(mask),
{
    if mask == 0 {
        ' '
    } else {
        let u: u32 = 0x2800 + mask as u32;
        let c = char_from_scalar(u);
        proof {
            vstd::utf8::char_u32_cast(c, u);
        }
        c
    }
}

/// Both lookups are total functions of the mask, and the empty mask always
/// yields a space: every block mask in `[0, 16)` and every braille mask in
/// `[0, 256)` has exactly the one character its table defines.
pub proof fn lemma_tables_total()
    ensures
        block_char_spec(0) == ' ',
        braille_char_spec(0) == ' ',
        forall|m1: u8, m2: u8|
            m1 < 16 && m2 < 16 && block_char_spec(m1) == block_char_spec(m2) ==> m1 == m2,
        forall|m: u8| m != 0 ==> #[trigger] braille_char_spec(m) as u32 == 0x2800 + m,
        forall|m1: u8, m2: u8| braille_char_spec(m1) == braille_char_spec(m2) ==> m1 == m2,
{
    assert forall|m: u8| m != 0 implies #[trigger] braille_char_spec(m) as u32 == 0x2800 + m by {
        vstd::utf8::char_u32_cast(braille_char_spec(m), (0x2800 + m as u32) as u32);
    }
    assert forall|m1: u8, m2: u8| braille_char_spec(m1) == braille_char_spec(m2) implies m1
        == m2 by {
        if m1 != 0 {
            vstd::utf8::char_u32_cast(braille_char_spec(m1), (0x2800 + m1 as u32) as u32);
        }
        if m2 != 0 {
            vstd::utf8::char_u32_cast(braille_char_spec(m2), (0x2800 + m2 as u32) as u32);
        }
        assert(' ' as u32 == 0x20);
    }
}

} // verus!
