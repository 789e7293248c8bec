//! The WinAnsi encoding (code page 1252) and the advance widths of Helvetica.
//!
//! The generated documents use the built-in Helvetica font with an explicit
//! WinAnsi encoding, so that is what text has to be transcoded to.

use crate::text::chars_of;
use vstd::prelude::*;
use vstd::string::*;

verus! {

/// The WinAnsi byte of a character, if it has one.
///
/// Printable ASCII and the upper half of Latin-1 stand for themselves; the
/// bytes in between hold punctuation and a few letters.
pub open spec fn winansi_byte(ch: char) -> Option<u8> {
    let n = ch as u32;
    if 0x20 <= n <= 0x7E || 0xA0 <= n <= 0xFF {
        Some(n as u8)
    } else {
        high_byte(n)
    }
}

/// The WinAnsi bytes between the two ranges that it shares with Latin-1.
pub open spec fn high_byte(n: u32) -> Option<u8> {
    if n == 0x20AC {
        Some(0x80u8)
    } else if n == 0x201A {
        Some(0x82u8)
    } else if n == 0x0192 {
        Some(0x83u8)
    } else if n == 0x201E {
        Some(0x84u8)
    } else if n == 0x2026 {
        Some(0x85u8)
    } else if n == 0x2020 {
        Some(0x86u8)
    } else if n == 0x2021 {
        Some(0x87u8)
    } else if n == 0x02C6 {
        Some(0x88u8)
    } else if n == 0x2030 {
        Some(0x89u8)
    } else if n == 0x0160 {
        Some(0x8Au8)
    } else if n == 0x2039 {
        Some(0x8Bu8)
    } else if n == 0x0152 {
        Some(0x8Cu8)
    } else if n == 0x017D {
        Some(0x8Eu8)
    } else if n == 0x2018 {
        Some(0x91u8)
    } else if n == 0x2019 {
        Some(0x92u8)
    } else if n == 0x201C {
        Some(0x93u8)
    } else if n == 0x201D {
        Some(0x94u8)
    } else if n == 0x2022 {
        Some(0x95u8)
    } else if n == 0x2013 {
        Some(0x96u8)
    } else if n == 0x2014 {
        Some(0x97u8)
    } else if n == 0x02DC {
        Some(0x98u8)
    } else if n == 0x2122 {
        Some(0x99u8)
    } else if n == 0x0161 {
        Some(0x9Au8)
    } else if n == 0x203A {
        Some(0x9Bu8)
    } else if n == 0x0153 {
        Some(0x9Cu8)
    } else if n == 0x017E {
        Some(0x9Eu8)
    } else if n == 0x0178 {
        Some(0x9Fu8)
    } else {
        None
    }
}

/// The first character of a text without a WinAnsi byte.
pub open spec fn first_unencodable(s: Seq<char>) -> Option<char>
    decreases s.len(),
{
    if s.len() == 0 {
        None
    } else if winansi_byte(s[0]) is None {
        Some(s[0])
    } else {
        first_unencodable(s.drop_first())
    }
}

/// The WinAnsi bytes of a text.
pub open spec fn winansi_bytes(s: Seq<char>) -> Seq<u8> {
    Seq::new(s.len(), |i: int| winansi_byte(s[i])->0)
}

/// Maps a character to its WinAnsi byte, if it has one.
pub fn encode_char(ch: char) -> (r: Option<u8>)
    ensures
        r == winansi_byte(ch),
{
    let n: u32 = ch as u32;
    if (0x20 <= n && n <= 0x7E) || (0xA0 <= n && n <= 0xFF) {
        return Some(n as u8);
    }
    match n {
        0x20AC => Some(0x80),
        0x201A => Some(0x82),
        0x0192 => Some(0x83),
        0x201E => Some(0x84),
        0x2026 => Some(0x85),
        0x2020 => Some(0x86),
        0x2021 => Some(0x87),
        0x02C6 => Some(0x88),
        0x2030 => Some(0x89),
        0x0160 => Some(0x8A),
        0x2039 => Some(0x8B),
        0x0152 => Some(0x8C),
        0x017D => Some(0x8E),
        0x2018 => Some(0x91),
        0x2019 => Some(0x92),
        0x201C => Some(0x93),
        0x201D => Some(0x94),
        0x2022 => Some(0x95),
        0x2013 => Some(0x96),
        0x2014 => Some(0x97),
        0x02DC => Some(0x98),
        0x2122 => Some(0x99),
        0x0161 => Some(0x9A),
        0x203A => Some(0x9B),
        0x0153 => Some(0x9C),
        0x017E => Some(0x9E),
        0x0178 => Some(0x9F),
        _ => None,
    }
}

/// Transcodes a text, and gives the first character that cannot be.
pub fn encode_str(text: &str) -> (r: Result<Vec<u8>, char>)
    ensures
        match r {
            Ok(bytes) => first_unencodable(text@) is None && bytes@ == winansi_bytes(text@),
            Err(ch) => first_unencodable(text@) == Some(ch),
        },
{
    let chars = chars_of(text);
    let mut out: Vec<u8> = Vec::new();
    assert(text@.skip(0) == text@);
    for i in 0..chars.len()
        invariant
            chars@ == text@,
            first_unencodable(text@.skip(i as int)) == first_unencodable(text@),
            out@ == winansi_bytes(text@).take(i as int),
    {
        let ghost rest = text@.skip(i as int);
        assert(rest[0] == text@[i as int]);
        assert(rest.drop_first() == text@.skip(i + 1));
        match encode_char(chars[i]) {
            Some(byte) => {
                out.push(byte);
                assert(winansi_bytes(text@).take(i + 1) == winansi_bytes(text@).take(
                    i as int,
                ).push(byte));
            },
            None => return Err(chars[i]),
        }
    }
    assert(winansi_bytes(text@).take(text@.len() as int) == winansi_bytes(text@));
    Ok(out)
}

/// Two characters with the same WinAnsi byte are the same: nothing that is
/// encoded is shown as something else.
pub proof fn law_encoding_is_injective(a: char, b: char)
    requires
        winansi_byte(a) is Some,
        winansi_byte(a) == winansi_byte(b),
    ensures
        a == b,
{
    let x = a as u32;
    let y = b as u32;
    assert(0x20 <= x <= 0x7E || 0xA0 <= x <= 0xFF ==> (x as u8) as u32 == x);
    assert(0x20 <= y <= 0x7E || 0xA0 <= y <= 0xFF ==> (y as u8) as u32 == y);
}

/// A text can be transcoded exactly when each of its characters can.
pub proof fn law_text_encodes_iff_every_char_does(s: Seq<char>)
    ensures
        first_unencodable(s) is None <==> forall|i: int|
            0 <= i < s.len() ==> winansi_byte(#[trigger] s[i]) is Some,
    decreases s.len(),
{
    if s.len() > 0 {
        let rest = s.drop_first();
        law_text_encodes_iff_every_char_does(rest);
        if first_unencodable(s) is None {
            assert forall|i: int| 0 <= i < s.len() implies winansi_byte(
                #[trigger] s[i],
            ) is Some by {
                if i > 0 {
                    assert(rest[i - 1] == s[i]);
                }
            }
        }
        if forall|i: int| 0 <= i < s.len() ==> winansi_byte(#[trigger] s[i]) is Some {
            assert forall|i: int| 0 <= i < rest.len() implies winansi_byte(
                #[trigger] rest[i],
            ) is Some by {
                assert(rest[i] == s[i + 1]);
            }
        }
    }
}

/// Helvetica advance widths in 1/1000 em, by WinAnsi code.  Zero means that
/// there is no glyph.
pub const HELVETICA_WIDTHS: [u16; 256] = [
    0, 0, 0, 0, 0, 0, 0, 0, 0, 0, 0, 0, 0, 0, 0, 0,
    0, 0, 0, 0, 0, 0, 0, 0, 0, 0, 0, 0, 0, 0, 0, 0,
    278, 278, 355, 556, 556, 889, 667, 191, 333, 333, 389, 584, 278, 333, 278, 278,
    556, 556, 556, 556, 556, 556, 556, 556, 556, 556, 278, 278, 584, 584, 584, 556,
    1015, 667, 667, 722, 722, 667, 611, 778, 722, 278, 500, 667, 556, 833, 722, 778,
    667, 778, 722, 667, 611, 722, 667, 944, 667, 667, 611, 278, 278, 278, 469, 556,
    333, 556, 556, 500, 556, 556, 278, 556, 556, 222, 222, 500, 222, 833, 556, 556,
    556, 556, 333, 500, 278, 556, 500, 722, 500, 500, 500, 334, 260, 334, 584, 0,
    556, 0, 222, 556, 333, 1000, 556, 556, 333, 1000, 667, 333, 1000, 0, 611, 0,
    0, 222, 222, 333, 333, 350, 556, 1000, 333, 1000, 500, 333, 944, 0, 500, 667,
    278, 333, 556, 556, 556, 556, 260, 556, 333, 737, 370, 556, 584, 333, 737, 333,
    400, 584, 333, 333, 333, 556, 537, 278, 333, 333, 365, 556, 834, 834, 834, 611,
    667, 667, 667, 667, 667, 667, 1000, 722, 667, 667, 667, 667, 278, 278, 278, 278,
    722, 722, 778, 778, 778, 778, 778, 584, 778, 722, 722, 722, 722, 667, 667, 611,
    556, 556, 556, 556, 556, 556, 889, 500, 556, 556, 556, 556, 278, 278, 278, 278,
    556, 556, 556, 556, 556, 556, 556, 584, 611, 556, 556, 556, 556, 500, 556, 500,
];

/// The width that stands in for that of a character without a glyph: that of
/// the letter `n`.
pub const FALLBACK_WIDTH: u16 = 556;

/// The advance width of a character in 1/1000 em.
pub open spec fn glyph_width(ch: char) -> nat {
    match winansi_byte(ch) {
        Some(byte) => if HELVETICA_WIDTHS@[byte as int] == 0 {
            FALLBACK_WIDTH as nat
        } else {
            HELVETICA_WIDTHS@[byte as int] as nat
        },
        None => FALLBACK_WIDTH as nat,
    }
}

/// The advance width of a character in 1/1000 em.
pub fn char_width(ch: char) -> (r: u16)
    ensures
        r == glyph_width(ch),
{
    match encode_char(ch) {
        Some(byte) => {
            let width: u16 = HELVETICA_WIDTHS[byte as usize];
            if width == 0 {
                FALLBACK_WIDTH
            } else {
                width
            }
        },
        None => FALLBACK_WIDTH,
    }
}

/// The UTF-16 units of a character.
pub open spec fn utf16_units(ch: char) -> Seq<u16> {
    let n = ch as u32;
    if n < 0x1_0000 {
        seq![n as u16]
    } else {
        seq![
            (0xD800 + (n - 0x1_0000) / 0x400) as u16,
            (0xDC00 + (n - 0x1_0000) % 0x400) as u16,
        ]
    }
}

/// The two bytes of a unit, the higher one first.
pub open spec fn big_endian(unit: u16) -> Seq<u8> {
    seq![(unit / 0x100) as u8, (unit % 0x100) as u8]
}

/// The bytes of a character in UTF-16, higher bytes first.
pub open spec fn utf16_bytes(ch: char) -> Seq<u8> {
    let units = utf16_units(ch);
    if units.len() == 1 {
        big_endian(units[0])
    } else {
        big_endian(units[0]) + big_endian(units[1])
    }
}

/// The bytes of a text in UTF-16, higher bytes first.
pub open spec fn utf16_text(s: Seq<char>) -> Seq<u8>
    decreases s.len(),
{
    if s.len() == 0 {
        Seq::empty()
    } else {
        utf16_text(s.drop_last()) + utf16_bytes(s.last())
    }
}

/// A metadata text as a PDF text string: ASCII as it is, anything else in
/// UTF-16 behind a byte-order mark.
pub open spec fn text_string(s: Seq<char>) -> Seq<u8> {
    if vstd::utf8::is_ascii_chars(s) {
        Seq::new(s.len(), |i: int| s[i] as u8)
    } else {
        seq![0xFEu8, 0xFFu8] + utf16_text(s)
    }
}

fn push_unit(out: &mut Vec<u8>, unit: u16)
    ensures
        final(out)@ == old(out)@ + big_endian(unit),
{
    out.push((unit / 0x100) as u8);
    out.push((unit % 0x100) as u8);
}

/// Encodes a metadata text as a PDF text string.
pub fn pdf_text_string(text: &str) -> (r: Vec<u8>)
    ensures
        r@ == text_string(text@),
{
    if text.is_ascii() {
        return vstd::slice::slice_to_vec(text.as_bytes());
    }
    let chars = chars_of(text);
    let mut out: Vec<u8> = Vec::new();
    out.push(0xFE);
    out.push(0xFF);
    assert(out@ == seq![0xFEu8, 0xFFu8] + utf16_text(text@.take(0)));
    for i in 0..chars.len()
        invariant
            chars@ == text@,
            out@ == seq![0xFEu8, 0xFFu8] + utf16_text(text@.take(i as int)),
    {
        let n: u32 = chars[i] as u32;
        let ghost before = out@;
        if n < 0x1_0000 {
            push_unit(&mut out, n as u16);
        } else {
            let rest: u32 = n - 0x1_0000;
            push_unit(&mut out, (0xD800 + rest / 0x400) as u16);
            push_unit(&mut out, (0xDC00 + rest % 0x400) as u16);
        }
        assert(out@ == before + utf16_bytes(text@[i as int]));
        assert(text@.take(i + 1).drop_last() == text@.take(i as int));
        assert(out@ == seq![0xFEu8, 0xFFu8] + utf16_text(text@.take(i + 1)));
    }
    assert(text@.take(text@.len() as int) == text@);
    out
}

} // verus!
