//! What holds of the font: its encoding and its widths.

use crate::pdf::winansi::{glyph_width, winansi_byte, winansi_bytes};
use vstd::prelude::*;

verus! {

/// The bytes of the encoding: printable ASCII and the upper half of Latin-1 are
/// the code points themselves, the bytes from 0x80 to 0x9F stand for the code
/// points in the table, and there are no others.
pub proof fn law_the_bytes_of_the_encoding(ch: char, byte: u8)
    ensures
        ({
            let n = ch as u32;
            let table: Seq<u32> = seq![
                0x20AC, 0, 0x201A, 0x0192, 0x201E, 0x2026, 0x2020, 0x2021,
                0x02C6, 0x2030, 0x0160, 0x2039, 0x0152, 0, 0x017D, 0,
                0, 0x2018, 0x2019, 0x201C, 0x201D, 0x2022, 0x2013, 0x2014,
                0x02DC, 0x2122, 0x0161, 0x203A, 0x0153, 0, 0x017E, 0x0178,
            ];
            winansi_byte(ch) == Some(byte) <==> {
                ||| (0x20 <= byte <= 0x7E || 0xA0 <= byte <= 0xFF) && n == byte
                ||| 0x80 <= byte <= 0x9F && n != 0 && table[byte - 0x80] == n
            }
        }),
{
    let n = ch as u32;
    if 0x20 <= n <= 0x7E || 0xA0 <= n <= 0xFF {
        assert((n as u8) as u32 == n);
    }
}

/// A text is encoded character by character, if each of them can be.
pub proof fn law_texts_are_encoded_character_by_character(s: Seq<char>, i: int)
    requires
        0 <= i < s.len(),
        winansi_byte(s[i]) is Some,
    ensures
        winansi_bytes(s).len() == s.len(),
        winansi_byte(s[i]) == Some(winansi_bytes(s)[i]),
{
}

/// The advance widths of the printable ASCII characters.
pub proof fn law_widths_of_ascii(ch: char)
    ensures
        ({
            let n = ch as u32;
            &&& (n == 0x27) ==> glyph_width(ch) == 191
            &&& (n == 0x69 || n == 0x6A || n == 0x6C) ==> glyph_width(ch) == 222
            &&& (n == 0x7C) ==> glyph_width(ch) == 260
            &&& (n == 0x20 || n == 0x21 || n == 0x2C || n == 0x2E || n == 0x2F || n == 0x3A
                || n == 0x3B || n == 0x49 || 0x5B <= n <= 0x5D || n == 0x66 || n == 0x74)
                ==> glyph_width(ch) == 278
            &&& (n == 0x28 || n == 0x29 || n == 0x2D || n == 0x60 || n == 0x72)
                ==> glyph_width(ch) == 333
            &&& (n == 0x7B || n == 0x7D) ==> glyph_width(ch) == 334
            &&& (n == 0x22) ==> glyph_width(ch) == 355
            &&& (n == 0x2A) ==> glyph_width(ch) == 389
            &&& (n == 0x5E) ==> glyph_width(ch) == 469
            &&& (n == 0x4A || n == 0x63 || n == 0x6B || n == 0x73 || n == 0x76
                || 0x78 <= n <= 0x7A) ==> glyph_width(ch) == 500
            &&& (n == 0x23 || n == 0x24 || 0x30 <= n <= 0x39 || n == 0x3F || n == 0x4C
                || n == 0x5F || n == 0x61 || n == 0x62 || n == 0x64 || n == 0x65
                || n == 0x67 || n == 0x68 || 0x6E <= n <= 0x71 || n == 0x75)
                ==> glyph_width(ch) == 556
            &&& (n == 0x2B || 0x3C <= n <= 0x3E || n == 0x7E) ==> glyph_width(ch) == 584
            &&& (n == 0x46 || n == 0x54 || n == 0x5A) ==> glyph_width(ch) == 611
            &&& (n == 0x26 || n == 0x41 || n == 0x42 || n == 0x45 || n == 0x4B || n == 0x50
                || n == 0x53 || n == 0x56 || n == 0x58 || n == 0x59) ==> glyph_width(ch) == 667
            &&& (n == 0x43 || n == 0x44 || n == 0x48 || n == 0x4E || n == 0x52 || n == 0x55
                || n == 0x77) ==> glyph_width(ch) == 722
            &&& (n == 0x47 || n == 0x4F || n == 0x51) ==> glyph_width(ch) == 778
            &&& (n == 0x4D || n == 0x6D) ==> glyph_width(ch) == 833
            &&& (n == 0x25) ==> glyph_width(ch) == 889
            &&& (n == 0x57) ==> glyph_width(ch) == 944
            &&& (n == 0x40) ==> glyph_width(ch) == 1015
        }),
{
}

/// The advance widths of the upper half of Latin-1.
pub proof fn law_widths_of_latin1(ch: char)
    ensures
        ({
            let n = ch as u32;
            &&& (n == 0xA6) ==> glyph_width(ch) == 260
            &&& (n == 0xA0 || n == 0xB7 || 0xCC <= n <= 0xCF || 0xEC <= n <= 0xEF)
                ==> glyph_width(ch) == 278
            &&& (n == 0xA1 || n == 0xA8 || n == 0xAD || n == 0xAF || 0xB2 <= n <= 0xB4
                || n == 0xB8 || n == 0xB9) ==> glyph_width(ch) == 333
            &&& (n == 0xBA) ==> glyph_width(ch) == 365
            &&& (n == 0xAA) ==> glyph_width(ch) == 370
            &&& (n == 0xB0) ==> glyph_width(ch) == 400
            &&& (n == 0xE7 || n == 0xFD || n == 0xFF) ==> glyph_width(ch) == 500
            &&& (n == 0xB6) ==> glyph_width(ch) == 537
            &&& (0xA2 <= n <= 0xA5 || n == 0xA7 || n == 0xAB || n == 0xB5 || n == 0xBB
                || 0xE0 <= n <= 0xE5 || 0xE8 <= n <= 0xEB || 0xF0 <= n <= 0xF6
                || 0xF9 <= n <= 0xFC || n == 0xFE) ==> glyph_width(ch) == 556
            &&& (n == 0xAC || n == 0xB1 || n == 0xD7 || n == 0xF7) ==> glyph_width(ch) == 584
            &&& (n == 0xBF || n == 0xDF || n == 0xF8) ==> glyph_width(ch) == 611
            &&& (0xC0 <= n <= 0xC5 || 0xC8 <= n <= 0xCB || n == 0xDD || n == 0xDE)
                ==> glyph_width(ch) == 667
            &&& (n == 0xC7 || n == 0xD0 || n == 0xD1 || 0xD9 <= n <= 0xDC)
                ==> glyph_width(ch) == 722
            &&& (n == 0xA9 || n == 0xAE) ==> glyph_width(ch) == 737
            &&& (0xD2 <= n <= 0xD6 || n == 0xD8) ==> glyph_width(ch) == 778
            &&& (0xBC <= n <= 0xBE) ==> glyph_width(ch) == 834
            &&& (n == 0xE6) ==> glyph_width(ch) == 889
            &&& (n == 0xC6) ==> glyph_width(ch) == 1000
        }),
{
}

/// The advance widths of the punctuation and the letters beyond Latin-1.
pub proof fn law_widths_of_other_characters(ch: char)
    ensures
        ({
            let n = ch as u32;
            &&& (0x2018 <= n <= 0x201A) ==> glyph_width(ch) == 222
            &&& (n == 0x2C6 || n == 0x2DC || 0x201C <= n <= 0x201E || n == 0x2039
                || n == 0x203A) ==> glyph_width(ch) == 333
            &&& (n == 0x2022) ==> glyph_width(ch) == 350
            &&& (n == 0x161 || n == 0x17E) ==> glyph_width(ch) == 500
            &&& (n == 0x192 || n == 0x2013 || n == 0x2020 || n == 0x2021 || n == 0x20AC)
                ==> glyph_width(ch) == 556
            &&& (n == 0x17D) ==> glyph_width(ch) == 611
            &&& (n == 0x160 || n == 0x178) ==> glyph_width(ch) == 667
            &&& (n == 0x153) ==> glyph_width(ch) == 944
            &&& (n == 0x152 || n == 0x2014 || n == 0x2026 || n == 0x2030 || n == 0x2122)
                ==> glyph_width(ch) == 1000
        }),
{
}

/// A character that the font does not have is as wide as the letter `n`.
pub proof fn law_missing_characters_are_as_wide_as_n(ch: char)
    requires
        winansi_byte(ch) is None,
    ensures
        glyph_width(ch) == 556,
        glyph_width(ch) == glyph_width('n'),
{
}

/// A letter with an accent is as wide as the letter without.
pub proof fn law_accents_take_no_width(ch: char)
    ensures
        ({
            let n = ch as u32;
            &&& 0xC0 <= n <= 0xC5 ==> glyph_width(ch) == glyph_width('A')
            &&& n == 0xC7 ==> glyph_width(ch) == glyph_width('C')
            &&& 0xC8 <= n <= 0xCB ==> glyph_width(ch) == glyph_width('E')
            &&& 0xCC <= n <= 0xCF ==> glyph_width(ch) == glyph_width('I')
            &&& n == 0xD1 ==> glyph_width(ch) == glyph_width('N')
            &&& 0xD2 <= n <= 0xD6 ==> glyph_width(ch) == glyph_width('O')
            &&& 0xD9 <= n <= 0xDC ==> glyph_width(ch) == glyph_width('U')
            &&& n == 0xDD ==> glyph_width(ch) == glyph_width('Y')
            &&& 0xE0 <= n <= 0xE5 ==> glyph_width(ch) == glyph_width('a')
            &&& n == 0xE7 ==> glyph_width(ch) == glyph_width('c')
            &&& 0xE8 <= n <= 0xEB ==> glyph_width(ch) == glyph_width('e')
            &&& n == 0xF1 ==> glyph_width(ch) == glyph_width('n')
            &&& 0xF2 <= n <= 0xF6 ==> glyph_width(ch) == glyph_width('o')
            &&& 0xF9 <= n <= 0xFC ==> glyph_width(ch) == glyph_width('u')
            &&& n == 0xFD || n == 0xFF ==> glyph_width(ch) == glyph_width('y')
            &&& '0' <= ch <= '9' ==> glyph_width(ch) == glyph_width('0')
        }),
{
}

} // verus!
