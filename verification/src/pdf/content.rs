//! The content stream of a page.

use crate::error::{FileError, FileResult};
use crate::pdf::builder::{PageContent, TextOp};
use crate::pdf::points::{numeral_text, Points};
use crate::pdf::sheet::{LineOp, Page, PlacedText};
use crate::pdf::winansi::{encode_str, first_unencodable, winansi_bytes};
use crate::text::{debug_char, debug_char_text, hex, hex_text};
use vstd::prelude::*;
use vstd::string::*;
use vstd::utf8::encode_utf8;

verus! {

/// The operators that stroke a line of one point.
pub open spec fn line_operators<N: Points>(line: LineOp<N>) -> Seq<char> {
    "1 w\n"@ + numeral_text(line.x1) + " "@ + numeral_text(line.y1) + " m\n"@
        + numeral_text(line.x2) + " "@ + numeral_text(line.y2) + " l\nS\n"@
}

/// The operators that set the font and the position of a text.
pub open spec fn text_prologue<N: Points>(text: PlacedText<N>) -> Seq<char> {
    "/F1 "@ + numeral_text(text.font_size) + " Tf\n"@ + numeral_text(text.x) + " "@
        + numeral_text(text.y) + " Td\n("@
}

/// The operators that show a text and take the position back.
pub open spec fn text_epilogue<N: Points>(text: PlacedText<N>) -> Seq<char> {
    ") Tj\n"@ + numeral_text(N::spec_negated(text.x)) + " "@ + numeral_text(
        N::spec_negated(text.y),
    ) + " Td\n"@
}

/// A byte inside a literal string: metacharacters behind a backslash, and
/// everything but printable ASCII as three octal digits.
pub open spec fn escaped_byte(byte: u8) -> Seq<u8> {
    if byte == 0x5C || byte == 0x28 || byte == 0x29 {
        seq![0x5Cu8, byte]
    } else if 0x20 <= byte <= 0x7E {
        seq![byte]
    } else {
        seq![
            0x5Cu8,
            (0x30 + byte / 64) as u8,
            (0x30 + byte / 8 % 8) as u8,
            (0x30 + byte % 8) as u8,
        ]
    }
}

/// Bytes inside a literal string.
pub open spec fn escaped(bytes: Seq<u8>) -> Seq<u8>
    decreases bytes.len(),
{
    if bytes.len() == 0 {
        Seq::empty()
    } else {
        escaped(bytes.drop_last()) + escaped_byte(bytes.last())
    }
}

/// The operators that show a text.
pub open spec fn text_bytes<N: Points>(text: PlacedText<N>) -> Seq<u8> {
    encode_utf8(text_prologue(text)) + escaped(winansi_bytes(text.text)) + encode_utf8(
        text_epilogue(text),
    )
}

/// The operators that stroke lines.
pub open spec fn all_lines<N: Points>(lines: Seq<LineOp<N>>) -> Seq<u8>
    decreases lines.len(),
{
    if lines.len() == 0 {
        Seq::empty()
    } else {
        all_lines(lines.drop_last()) + encode_utf8(line_operators(lines.last()))
    }
}

/// The operators that show texts.
pub open spec fn all_texts<N: Points>(texts: Seq<PlacedText<N>>) -> Seq<u8>
    decreases texts.len(),
{
    if texts.len() == 0 {
        Seq::empty()
    } else {
        all_texts(texts.drop_last()) + text_bytes(texts.last())
    }
}

/// The content stream of a page: first its lines, which have to stand outside
/// the text object, then its texts.
pub open spec fn page_stream<N: Points>(page: Page<N>) -> Seq<u8> {
    all_lines(page.lines) + encode_utf8("BT\n/F1 12 Tf\n"@) + all_texts(page.texts) + encode_utf8(
        "ET\n"@,
    )
}

/// The first character of the texts that cannot be shown.
pub open spec fn first_bad<N>(texts: Seq<PlacedText<N>>) -> Option<char>
    decreases texts.len(),
{
    if texts.len() == 0 {
        None
    } else {
        match first_unencodable(texts[0].text) {
            Some(ch) => Some(ch),
            None => first_bad(texts.drop_first()),
        }
    }
}

/// The message about a character that cannot be shown.
pub open spec fn unencodable_text(ch: char) -> Seq<char> {
    "character "@ + debug_char_text(ch) + " (U+"@ + hex_text((ch as u32) as nat, 4)
        + ") cannot be encoded in WinAnsiEncoding; the built-in Helvetica font used by PdfBuilder is limited to Latin-1 plus the CP1252 punctuation set"@
}

fn push_text(out: &mut Vec<u8>, s: &str)
    ensures
        final(out)@ == old(out)@ + encode_utf8(s@),
{
    let bytes = s.as_bytes();
    let ghost before = out@;
    for i in 0..bytes.len()
        invariant
            bytes@ == encode_utf8(s@),
            out@ == before + bytes@.take(i as int),
    {
        out.push(bytes[i]);
        assert(bytes@.take(i + 1) == bytes@.take(i as int).push(bytes@[i as int]));
    }
    assert(bytes@.take(bytes@.len() as int) == bytes@);
}

fn push_escaped(out: &mut Vec<u8>, byte: u8)
    ensures
        final(out)@ == old(out)@ + escaped_byte(byte),
{
    if byte == 0x5C || byte == 0x28 || byte == 0x29 {
        out.push(0x5C);
        out.push(byte);
    } else if 0x20 <= byte && byte <= 0x7E {
        out.push(byte);
    } else {
        out.push(0x5C);
        out.push(0x30 + byte / 64);
        out.push(0x30 + byte / 8 % 8);
        out.push(0x30 + byte % 8);
    }
}

fn push_line<N: Points>(out: &mut Vec<u8>, line: &LineOp<N>)
    ensures
        final(out)@ == old(out)@ + encode_utf8(line_operators(*line)),
{
    let mut s = "1 w\n".to_owned();
    s.append(line.x1.numeral().as_str());
    s.append(" ");
    s.append(line.y1.numeral().as_str());
    s.append(" m\n");
    s.append(line.x2.numeral().as_str());
    s.append(" ");
    s.append(line.y2.numeral().as_str());
    s.append(" l\nS\n");
    push_text(out, s.as_str());
}

fn push_shown<N: Points>(out: &mut Vec<u8>, op: &TextOp<N>, encoded: &Vec<u8>)
    requires
        encoded@ == winansi_bytes(op.text@),
    ensures
        final(out)@ == old(out)@ + text_bytes(op.placed()),
{
    let ghost start = out@;
    let mut s = "/F1 ".to_owned();
    s.append(op.font_size.numeral().as_str());
    s.append(" Tf\n");
    s.append(op.x.numeral().as_str());
    s.append(" ");
    s.append(op.y.numeral().as_str());
    s.append(" Td\n(");
    push_text(out, s.as_str());
    let ghost front = out@;
    assert(front == start + encode_utf8(text_prologue(op.placed())));
    for i in 0..encoded.len()
        invariant
            out@ == front + escaped(encoded@.take(i as int)),
    {
        assert(encoded@.take(i + 1).drop_last() == encoded@.take(i as int));
        push_escaped(out, encoded[i]);
    }
    assert(encoded@.take(encoded@.len() as int) == encoded@);
    let ghost shown = out@;
    let mut s = ") Tj\n".to_owned();
    s.append(op.x.negated().numeral().as_str());
    s.append(" ");
    s.append(op.y.negated().numeral().as_str());
    s.append(" Td\n");
    push_text(out, s.as_str());
    assert(out@ == start + text_bytes(op.placed()));
}

/// The content stream of a page, or an error if it has a character on it that
/// cannot be shown.
pub fn content_stream<N: Points>(page: &PageContent<N>) -> (r: FileResult<Vec<u8>>)
    ensures
        match r {
            Ok(bytes) => first_bad(page.page().texts) is None && bytes@ == page_stream(
                page.page(),
            ),
            Err(e) => first_bad(page.page().texts) matches Some(ch) && e.is_pdf_error(
                unencodable_text(ch),
            ),
        },
{
    let ghost view = page.page();
    let mut out: Vec<u8> = Vec::new();
    for i in 0..page.lines.len()
        invariant
            view == page.page(),
            out@ == all_lines(view.lines.take(i as int)),
    {
        assert(view.lines.take(i + 1).drop_last() == view.lines.take(i as int));
        push_line(&mut out, &page.lines[i]);
    }
    assert(view.lines.take(view.lines.len() as int) == view.lines);
    push_text(&mut out, "BT\n/F1 12 Tf\n");
    let ghost front = out@;
    assert(view.texts.skip(0) == view.texts);
    assert(front + all_texts(view.texts.take(0)) == front);
    for i in 0..page.texts.len()
        invariant
            view == page.page(),
            out@ == front + all_texts(view.texts.take(i as int)),
            first_bad(view.texts.skip(i as int)) == first_bad(view.texts),
    {
        let op = &page.texts[i];
        assert(view.texts[i as int] == op.placed());
        assert(view.texts.skip(i as int)[0] == op.placed());
        assert(view.texts.skip(i as int).drop_first() == view.texts.skip(i + 1));
        assert(view.texts.take(i + 1).drop_last() == view.texts.take(i as int));
        match encode_str(op.text.as_str()) {
            Err(ch) => {
                let mut text = "character ".to_owned();
                text.append(debug_char(ch).as_str());
                text.append(" (U+");
                text.append(hex(ch as u32, 4).as_str());
                text.append(
                    ") cannot be encoded in WinAnsiEncoding; the built-in Helvetica font used by PdfBuilder is limited to Latin-1 plus the CP1252 punctuation set",
                );
                return Err(FileError::Pdf(text));
            },
            Ok(encoded) => {
                let ghost before = out@;
                push_shown(&mut out, op, &encoded);
                assert(out@ == front + all_texts(view.texts.take(i + 1)));
            },
        }
    }
    assert(view.texts.take(view.texts.len() as int) == view.texts);
    push_text(&mut out, "ET\n");
    Ok(out)
}

} // verus!
