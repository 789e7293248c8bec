//! What holds of the files that documents are written to.

use crate::metadata::MetadataView;
use crate::pdf::builder::document_metadata;
use crate::pdf::content::{
    all_lines, all_texts, escaped, escaped_byte, first_bad, line_operators, page_stream,
    text_bytes,
};
use crate::pdf::document::{number_value, PdfValue};
use crate::pdf::graph::{file_of, first_bad_on_pages, font_value, page_objects, page_value};
use crate::pdf::points::{numeral_text, Points};
use crate::pdf::sheet::{LineOp, Page, PlacedText, Sheet};
use crate::pdf::winansi::{
    first_unencodable, text_string, utf16_bytes, utf16_text, winansi_byte, winansi_bytes,
};
use vstd::prelude::*;
use vstd::string::*;
use vstd::utf8::encode_utf8;

verus! {

/// What a reader makes of the inside of a literal string: a backslash before a
/// parenthesis or another backslash stands for that character, and one before
/// three octal digits for the byte that they denote.  A parenthesis by itself
/// ends the string.
pub open spec fn unescaped(bytes: Seq<u8>) -> Seq<u8>
    decreases bytes.len(),
{
    if bytes.len() == 0 || bytes[0] == 0x28 || bytes[0] == 0x29 {
        Seq::empty()
    } else if bytes[0] != 0x5C {
        seq![bytes[0]] + unescaped(bytes.skip(1))
    } else if bytes.len() >= 2 && (bytes[1] == 0x28 || bytes[1] == 0x29 || bytes[1] == 0x5C) {
        seq![bytes[1]] + unescaped(bytes.skip(2))
    } else if bytes.len() >= 4 {
        seq![((bytes[1] - 0x30) * 64 + (bytes[2] - 0x30) * 8 + (bytes[3] - 0x30)) as u8]
            + unescaped(bytes.skip(4))
    } else {
        Seq::empty()
    }
}

proof fn lemma_escaped_byte_is_read_back(byte: u8, rest: Seq<u8>)
    ensures
        unescaped(escaped_byte(byte) + rest) == seq![byte] + unescaped(rest),
        forall|k: int|
            0 <= k < escaped_byte(byte).len() ==> 0x20 <= #[trigger] escaped_byte(byte)[k] <= 0x7E,
{
    let front = escaped_byte(byte);
    let all = front + rest;
    assert(all.skip(front.len() as int) == rest);
    if byte == 0x5C || byte == 0x28 || byte == 0x29 {
        assert(all[0] == 0x5C && all[1] == byte);
    } else if 0x20 <= byte <= 0x7E {
        assert(all[0] == byte);
    } else {
        let a = byte / 64;
        let b = byte / 8 % 8;
        let c = byte % 8;
        assert(all[0] == 0x5C);
        assert(all[1] == 0x30 + a);
        assert(all[2] == 0x30 + b);
        assert(all[3] == 0x30 + c);
        assert(a * 64 + b * 8 + c == byte);
    }
}

proof fn lemma_escaped_front(byte: u8, rest: Seq<u8>)
    ensures
        escaped(seq![byte] + rest) == escaped_byte(byte) + escaped(rest),
    decreases rest.len(),
{
    let all = seq![byte] + rest;
    if rest.len() == 0 {
        assert(all.drop_last() == Seq::<u8>::empty());
        assert(escaped(all.drop_last()) == Seq::<u8>::empty());
        assert(escaped(all) == escaped_byte(byte) + escaped(rest));
    } else {
        lemma_escaped_front(byte, rest.drop_last());
        assert(all.drop_last() == seq![byte] + rest.drop_last());
        assert(escaped(all) == escaped_byte(byte) + escaped(rest));
    }
}

/// A reader of a literal string gets back the bytes that were put into it; what
/// is put into the file is printable ASCII.
pub proof fn law_literal_strings_are_read_back(bytes: Seq<u8>)
    ensures
        unescaped(escaped(bytes)) == bytes,
        forall|k: int|
            0 <= k < escaped(bytes).len() ==> 0x20 <= #[trigger] escaped(bytes)[k] <= 0x7E,
    decreases bytes.len(),
{
    if bytes.len() > 0 {
        let rest = bytes.drop_first();
        law_literal_strings_are_read_back(rest);
        assert(bytes == seq![bytes[0]] + rest);
        lemma_escaped_front(bytes[0], rest);
        lemma_escaped_byte_is_read_back(bytes[0], escaped(rest));
        let front = escaped_byte(bytes[0]);
        assert forall|k: int| 0 <= k < escaped(bytes).len() implies 0x20 <= #[trigger] escaped(
            bytes,
        )[k] <= 0x7E by {
            if k < front.len() {
                assert(escaped(bytes)[k] == front[k]);
            } else {
                assert(escaped(bytes)[k] == escaped(rest)[k - front.len()]);
            }
        }
    }
}

/// A line is stroked from its one end to its other; a text is shown in its size
/// at its place, as its bytes in the encoding of the font, and the place is
/// taken back.
pub proof fn law_operators_of_lines_and_texts<N: Points>(line: LineOp<N>, text: PlacedText<N>)
    ensures
        line_operators(line) == "1 w\n"@ + numeral_text(line.x1) + " "@ + numeral_text(line.y1)
            + " m\n"@ + numeral_text(line.x2) + " "@ + numeral_text(line.y2) + " l\nS\n"@,
        text_bytes(text) == encode_utf8(
            "/F1 "@ + numeral_text(text.font_size) + " Tf\n"@ + numeral_text(text.x) + " "@
                + numeral_text(text.y) + " Td\n("@,
        ) + escaped(winansi_bytes(text.text)) + encode_utf8(
            ") Tj\n"@ + numeral_text(N::spec_negated(text.x)) + " "@ + numeral_text(
                N::spec_negated(text.y),
            ) + " Td\n"@,
        ),
{
}

proof fn lemma_all_lines<N: Points>(a: Seq<LineOp<N>>, b: Seq<LineOp<N>>)
    ensures
        all_lines(a + b) == all_lines(a) + all_lines(b),
    decreases b.len(),
{
    if b.len() == 0 {
        assert(a + b == a);
        assert(all_lines(a) + all_lines(b) == all_lines(a));
    } else {
        lemma_all_lines(a, b.drop_last());
        assert((a + b).drop_last() == a + b.drop_last());
        assert(all_lines(a + b) == all_lines(a) + all_lines(b));
    }
}

proof fn lemma_all_texts<N: Points>(a: Seq<PlacedText<N>>, b: Seq<PlacedText<N>>)
    ensures
        all_texts(a + b) == all_texts(a) + all_texts(b),
    decreases b.len(),
{
    if b.len() == 0 {
        assert(a + b == a);
        assert(all_texts(a) + all_texts(b) == all_texts(a));
    } else {
        lemma_all_texts(a, b.drop_last());
        assert((a + b).drop_last() == a + b.drop_last());
        assert(all_texts(a + b) == all_texts(a) + all_texts(b));
    }
}

/// Everything on a page is in its content stream, in order: first the operators
/// of each line, then, between the marks of a text object, those of each text.
pub proof fn law_everything_on_a_page_is_in_its_stream<N: Points>(
    page: Page<N>,
    i: int,
    j: int,
)
    requires
        0 <= i < page.lines.len(),
        0 <= j < page.texts.len(),
    ensures
        all_lines(page.lines) == all_lines(page.lines.take(i)) + encode_utf8(
            line_operators(page.lines[i]),
        ) + all_lines(page.lines.skip(i + 1)),
        all_texts(page.texts) == all_texts(page.texts.take(j)) + text_bytes(page.texts[j])
            + all_texts(page.texts.skip(j + 1)),
        page_stream(page) == all_lines(page.lines) + encode_utf8("BT\n/F1 12 Tf\n"@) + all_texts(
            page.texts,
        ) + encode_utf8("ET\n"@),
        all_lines(Seq::<LineOp<N>>::empty()).len() == 0,
        all_texts(Seq::<PlacedText<N>>::empty()).len() == 0,
{
    let lines = page.lines;
    let texts = page.texts;
    assert(lines == lines.take(i + 1) + lines.skip(i + 1));
    lemma_all_lines(lines.take(i + 1), lines.skip(i + 1));
    assert(lines.take(i + 1).drop_last() == lines.take(i));
    assert(texts == texts.take(j + 1) + texts.skip(j + 1));
    lemma_all_texts(texts.take(j + 1), texts.skip(j + 1));
    assert(texts.take(j + 1).drop_last() == texts.take(j));
}

/// What is shown can be shown: a document is refused for a character exactly if
/// one of its texts holds one that the font has no byte for, and then for the
/// first of them, page by page and text by text.
pub proof fn law_documents_are_refused_for_the_first_bad_character<N>(pages: Seq<Page<N>>)
    ensures
        first_bad_on_pages(pages) is None <==> forall|p: int, t: int, k: int|
            0 <= p < pages.len() && 0 <= t < pages[p].texts.len() && 0 <= k
                < pages[p].texts[t].text.len() ==> winansi_byte(
                #[trigger] pages[p].texts[t].text[k],
            ) is Some,
        first_bad_on_pages(pages) matches Some(ch) ==> exists|p: int, t: int, k: int|
            #![trigger pages[p].texts[t].text[k]]
            {
                &&& 0 <= p < pages.len() && 0 <= t < pages[p].texts.len() && 0 <= k
                    < pages[p].texts[t].text.len()
                &&& pages[p].texts[t].text[k] == ch
                &&& winansi_byte(ch) is None
                &&& forall|q: int| 0 <= q < p ==> first_bad((#[trigger] pages[q]).texts) is None
                &&& forall|q: int|
                    0 <= q < t ==> first_unencodable((#[trigger] pages[p].texts[q]).text) is None
                &&& forall|q: int|
                    0 <= q < k ==> winansi_byte(#[trigger] pages[p].texts[t].text[q]) is Some
            },
    decreases pages.len(),
{
    if pages.len() > 0 {
        let rest = pages.drop_first();
        law_documents_are_refused_for_the_first_bad_character(rest);
        lemma_first_bad(pages[0].texts);
        match first_bad(pages[0].texts) {
            Some(ch) => {
                let (t, k) = choose|t: int, k: int|
                    #![trigger pages[0].texts[t].text[k]]
                    {
                        &&& 0 <= t < pages[0].texts.len() && 0 <= k < pages[0].texts[t].text.len()
                        &&& pages[0].texts[t].text[k] == ch
                        &&& winansi_byte(ch) is None
                        &&& forall|q: int|
                            0 <= q < t ==> first_unencodable(
                                (#[trigger] pages[0].texts[q]).text,
                            ) is None
                        &&& forall|q: int|
                            0 <= q < k ==> winansi_byte(
                                #[trigger] pages[0].texts[t].text[q],
                            ) is Some
                    };
                assert(pages[0].texts[t].text[k] == ch);
            },
            None => {
                if let Some(ch) = first_bad_on_pages(rest) {
                    let (p, t, k) = choose|p: int, t: int, k: int|
                        #![trigger rest[p].texts[t].text[k]]
                        {
                            &&& 0 <= p < rest.len() && 0 <= t < rest[p].texts.len() && 0 <= k
                                < rest[p].texts[t].text.len()
                            &&& rest[p].texts[t].text[k] == ch
                            &&& winansi_byte(ch) is None
                            &&& forall|q: int|
                                0 <= q < p ==> first_bad((#[trigger] rest[q]).texts) is None
                            &&& forall|q: int|
                                0 <= q < t ==> first_unencodable(
                                    (#[trigger] rest[p].texts[q]).text,
                                ) is None
                            &&& forall|q: int|
                                0 <= q < k ==> winansi_byte(
                                    #[trigger] rest[p].texts[t].text[q],
                                ) is Some
                        };
                    assert(rest[p] == pages[p + 1]);
                    assert(pages[p + 1].texts[t].text[k] == ch);
                    assert forall|q: int| 0 <= q < p + 1 implies first_bad(
                        (#[trigger] pages[q]).texts,
                    ) is None by {
                        if q > 0 {
                            assert(rest[q - 1] == pages[q]);
                        }
                    }
                } else {
                    assert forall|p: int, t: int, k: int|
                        0 <= p < pages.len() && 0 <= t < pages[p].texts.len() && 0 <= k
                            < pages[p].texts[t].text.len() implies winansi_byte(
                        #[trigger] pages[p].texts[t].text[k],
                    ) is Some by {
                        if p > 0 {
                            assert(rest[p - 1] == pages[p]);
                            assert(winansi_byte(rest[p - 1].texts[t].text[k]) is Some);
                        }
                    }
                }
            },
        }
    }
}

proof fn lemma_first_bad<N>(texts: Seq<PlacedText<N>>)
    ensures
        first_bad(texts) is None <==> forall|t: int, k: int|
            0 <= t < texts.len() && 0 <= k < texts[t].text.len() ==> winansi_byte(
                #[trigger] texts[t].text[k],
            ) is Some,
        first_bad(texts) matches Some(ch) ==> exists|t: int, k: int|
            #![trigger texts[t].text[k]]
            {
                &&& 0 <= t < texts.len() && 0 <= k < texts[t].text.len()
                &&& texts[t].text[k] == ch
                &&& winansi_byte(ch) is None
                &&& forall|q: int|
                    0 <= q < t ==> first_unencodable((#[trigger] texts[q]).text) is None
                &&& forall|q: int|
                    0 <= q < k ==> winansi_byte(#[trigger] texts[t].text[q]) is Some
            },
    decreases texts.len(),
{
    if texts.len() > 0 {
        let rest = texts.drop_first();
        lemma_first_bad(rest);
        lemma_first_unencodable(texts[0].text);
        match first_unencodable(texts[0].text) {
            Some(ch) => {
                let k = choose|k: int|
                    0 <= k < texts[0].text.len() && #[trigger] texts[0].text[k] == ch
                        && winansi_byte(ch) is None && forall|q: int|
                        0 <= q < k ==> winansi_byte(#[trigger] texts[0].text[q]) is Some;
                assert(texts[0].text[k] == ch);
            },
            None => {
                if let Some(ch) = first_bad(rest) {
                    let (t, k) = choose|t: int, k: int|
                        #![trigger rest[t].text[k]]
                        {
                            &&& 0 <= t < rest.len() && 0 <= k < rest[t].text.len()
                            &&& rest[t].text[k] == ch
                            &&& winansi_byte(ch) is None
                            &&& forall|q: int|
                                0 <= q < t ==> first_unencodable(
                                    (#[trigger] rest[q]).text,
                                ) is None
                            &&& forall|q: int|
                                0 <= q < k ==> winansi_byte(#[trigger] rest[t].text[q]) is Some
                        };
                    assert(rest[t] == texts[t + 1]);
                    assert(texts[t + 1].text[k] == ch);
                    assert forall|q: int| 0 <= q < t + 1 implies first_unencodable(
                        (#[trigger] texts[q]).text,
                    ) is None by {
                        if q > 0 {
                            assert(rest[q - 1] == texts[q]);
                        }
                    }
                } else {
                    assert forall|t: int, k: int|
                        0 <= t < texts.len() && 0 <= k < texts[t].text.len() implies winansi_byte(
                        #[trigger] texts[t].text[k],
                    ) is Some by {
                        if t > 0 {
                            assert(rest[t - 1] == texts[t]);
                            assert(winansi_byte(rest[t - 1].text[k]) is Some);
                        }
                    }
                }
            },
        }
    }
}

proof fn lemma_first_unencodable(s: Seq<char>)
    ensures
        first_unencodable(s) is None <==> forall|k: int|
            0 <= k < s.len() ==> winansi_byte(#[trigger] s[k]) is Some,
        first_unencodable(s) matches Some(ch) ==> exists|k: int|
            0 <= k < s.len() && #[trigger] s[k] == ch && winansi_byte(ch) is None && forall|q: int|
                0 <= q < k ==> winansi_byte(#[trigger] s[q]) is Some,
    decreases s.len(),
{
    if s.len() > 0 {
        let rest = s.drop_first();
        lemma_first_unencodable(rest);
        if winansi_byte(s[0]) is Some {
            if let Some(ch) = first_unencodable(rest) {
                let k = choose|k: int|
                    0 <= k < rest.len() && #[trigger] rest[k] == ch && winansi_byte(ch) is None
                        && forall|q: int|
                        0 <= q < k ==> winansi_byte(#[trigger] rest[q]) is Some;
                assert(s[k + 1] == ch);
                assert forall|q: int| 0 <= q < k + 1 implies winansi_byte(
                    #[trigger] s[q],
                ) is Some by {
                    if q > 0 {
                        assert(rest[q - 1] == s[q]);
                    }
                }
            } else {
                assert forall|k: int| 0 <= k < s.len() implies winansi_byte(
                    #[trigger] s[k],
                ) is Some by {
                    if k > 0 {
                        assert(rest[k - 1] == s[k]);
                    }
                }
            }
        } else {
            assert(s[0] == s[0]);
        }
    }
}

proof fn lemma_page_objects<N: Points>(sheet: Sheet<N>, count: nat, i: nat)
    requires
        i < count,
    ensures
        ({
            let objects = page_objects(sheet, count);
            &&& objects.dom().contains(3 + 2 * i)
            &&& objects[3 + 2 * i] == PdfValue::Stream(
                Seq::empty(),
                page_stream(sheet.pages[i as int]),
            )
            &&& objects.dom().contains(4 + 2 * i)
            &&& objects[4 + 2 * i] == page_value(
                3 + 2 * i,
                numeral_text(sheet.extent().0),
                numeral_text(sheet.extent().1),
            )
        }),
    decreases count,
{
    if i < count - 1 {
        lemma_page_objects(sheet, (count - 1) as nat, i);
    }
}

proof fn lemma_font_object<N: Points>(sheet: Sheet<N>, count: nat)
    ensures
        page_objects(sheet, count).dom().contains(2),
        page_objects(sheet, count)[2] == font_value(),
    decreases count,
{
    if count > 0 {
        lemma_font_object(sheet, (count - 1) as nat);
    }
}

/// A reader that follows the references of a file finds the document: from the
/// trailer to the catalog, from there to the page tree, from there to every page
/// in order, and from each page to its content stream, its size and the font.
pub proof fn law_a_reader_finds_every_page<N: Points>(sheet: Sheet<N>, i: int)
    requires
        0 <= i < sheet.pages.len(),
    ensures
        ({
            let file = file_of(sheet);
            let root = file.trailer[0].1->Reference_0;
            let catalog = file.objects[root]->Dict_0;
            let tree_id = catalog[1].1->Reference_0;
            let tree = file.objects[tree_id]->Dict_0;
            let kids = tree[1].1->Array_0;
            let page = file.objects[kids[i]->Reference_0]->Dict_0;
            let contents = page[3].1->Reference_0;
            let resources = page[4].1->Dict_0;
            let fonts = resources[0].1->Dict_0;
            let font_id = fonts[0].1->Reference_0;
            let font = file.objects[font_id]->Dict_0;
            &&& file.version == "1.4"@
            &&& file.trailer[0] == ("Root"@, PdfValue::Reference(root))
            &&& file.objects.dom().contains(root)
            &&& catalog[0] == ("Type"@, PdfValue::Name("Catalog"@))
            &&& catalog[1] == ("Pages"@, PdfValue::Reference(tree_id))
            &&& file.objects.dom().contains(tree_id)
            &&& tree[0] == ("Type"@, PdfValue::Name("Pages"@))
            &&& tree[1] == ("Kids"@, PdfValue::Array(kids))
            &&& tree[2] == ("Count"@, PdfValue::Integer(sheet.pages.len() as int))
            &&& kids.len() == sheet.pages.len()
            &&& kids[i] is Reference
            &&& file.objects.dom().contains(kids[i]->Reference_0)
            &&& page[0] == ("Type"@, PdfValue::Name("Page"@))
            &&& page[1] == ("Parent"@, PdfValue::Reference(tree_id))
            &&& page[2].0 == "MediaBox"@
            &&& page[2].1 == PdfValue::Array(
                seq![
                    PdfValue::Integer(0),
                    PdfValue::Integer(0),
                    number_value(numeral_text(sheet.extent().0)),
                    number_value(numeral_text(sheet.extent().1)),
                ],
            )
            &&& page[3] == ("Contents"@, PdfValue::Reference(contents))
            &&& file.objects.dom().contains(contents)
            &&& file.objects[contents] == PdfValue::Stream(
                Seq::empty(),
                page_stream(sheet.pages[i]),
            )
            &&& page[4].0 == "Resources"@
            &&& resources[0].0 == "Font"@
            &&& fonts[0] == ("F1"@, PdfValue::Reference(font_id))
            &&& file.objects.dom().contains(font_id)
            &&& font == seq![
                ("Type"@, PdfValue::Name("Font"@)),
                ("Subtype"@, PdfValue::Name("Type1"@)),
                ("BaseFont"@, PdfValue::Name("Helvetica"@)),
                ("Encoding"@, PdfValue::Name("WinAnsiEncoding"@)),
            ]
        }),
{
    lemma_page_objects(sheet, sheet.pages.len(), i as nat);
    lemma_font_object(sheet, sheet.pages.len());
}

/// The information of a document holds its title and its author, each if it was
/// set, and no two pages share an object.
pub proof fn law_the_information_of_a_document<N: Points>(sheet: Sheet<N>)
    ensures
        ({
            let file = file_of(sheet);
            let info = file.objects[file.trailer[1].1->Reference_0]->Dict_0;
            let producer = ("Producer"@, PdfValue::Text(encode_utf8("Armature Files"@)));
            &&& file.trailer.len() == 2
            &&& file.trailer[1].0 == "Info"@
            &&& file.trailer[1].1 is Reference
            &&& file.objects.dom().contains(file.trailer[1].1->Reference_0)
            &&& match (sheet.title, sheet.author) {
                (Some(t), Some(a)) => info == seq![
                    ("Title"@, PdfValue::Text(text_string(t))),
                    ("Author"@, PdfValue::Text(text_string(a))),
                    producer,
                ],
                (Some(t), None) => info == seq![
                    ("Title"@, PdfValue::Text(text_string(t))),
                    producer,
                ],
                (None, Some(a)) => info == seq![
                    ("Author"@, PdfValue::Text(text_string(a))),
                    producer,
                ],
                (None, None) => info == seq![producer],
            }
        }),
{
    let file = file_of(sheet);
    let info = file.objects[file.trailer[1].1->Reference_0]->Dict_0;
    let producer = ("Producer"@, PdfValue::Text(encode_utf8("Armature Files"@)));
    match (sheet.title, sheet.author) {
        (Some(t), Some(a)) => {
            assert(info =~= seq![
                ("Title"@, PdfValue::Text(text_string(t))),
                ("Author"@, PdfValue::Text(text_string(a))),
                producer,
            ]);
        },
        (Some(t), None) => {
            assert(info =~= seq![("Title"@, PdfValue::Text(text_string(t))), producer]);
        },
        (None, Some(a)) => {
            assert(info =~= seq![("Author"@, PdfValue::Text(text_string(a))), producer]);
        },
        (None, None) => {
            assert(info =~= seq![producer]);
        },
    }
}

/// The metadata of a document: it is named by its title if it has one, and its
/// size and its pages are counted.
pub proof fn law_the_metadata_of_a_document<N>(sheet: Sheet<N>, size: nat)
    requires
        sheet.pages.len() <= u32::MAX,
    ensures
        sheet.title matches Some(title) ==> document_metadata(sheet, size).filename == title,
        sheet.title is None ==> document_metadata(sheet, size).filename == "document.pdf"@,
        document_metadata(sheet, size) == (MetadataView {
            filename: document_metadata(sheet, size).filename,
            mime_type: "application/pdf"@,
            size,
            extension: Some("pdf"@),
            width: None,
            height: None,
            pages: Some(sheet.pages.len() as u32),
        }),
{
}

/// A character is written in UTF-16 with the higher byte first: as it is if it
/// fits into two bytes, and otherwise as two surrogates that denote it.
pub proof fn law_characters_in_utf16(ch: char)
    ensures
        ({
            let n = ch as u32;
            let b = utf16_bytes(ch);
            let high = b[0] as int * 0x100 + b[1];
            let low = b[2] as int * 0x100 + b[3];
            &&& n < 0x1_0000 ==> b.len() == 2 && high == n
            &&& n >= 0x1_0000 ==> {
                &&& b.len() == 4
                &&& 0xD800 <= high < 0xDC00
                &&& 0xDC00 <= low < 0xE000
                &&& 0x1_0000 + (high - 0xD800) * 0x400 + (low - 0xDC00) == n
            }
        }),
{
    let n = ch as u32;
    if n >= 0x1_0000 {
        let rest = (n - 0x1_0000) as int;
        assert(rest <= 0xF_FFFF);
        let first = (0xD800 + rest / 0x400) as u16;
        let second = (0xDC00 + rest % 0x400) as u16;
        assert(first == 0xD800 + rest / 0x400);
        assert(second == 0xDC00 + rest % 0x400);
        assert((first / 0x100) as u8 * 0x100 + (first % 0x100) as u8 == first);
        assert((second / 0x100) as u8 * 0x100 + (second % 0x100) as u8 == second);
        let b = utf16_bytes(ch);
        assert(b[0] == (first / 0x100) as u8 && b[1] == (first % 0x100) as u8);
        assert(b[2] == (second / 0x100) as u8 && b[3] == (second % 0x100) as u8);
    } else {
        let unit = n as u16;
        assert((unit / 0x100) as u8 * 0x100 + (unit % 0x100) as u8 == unit);
    }
}

proof fn lemma_utf16_text(a: Seq<char>, b: Seq<char>)
    ensures
        utf16_text(a + b) == utf16_text(a) + utf16_text(b),
    decreases b.len(),
{
    if b.len() == 0 {
        assert(a + b == a);
        assert(utf16_text(a) + utf16_text(b) == utf16_text(a));
    } else {
        lemma_utf16_text(a, b.drop_last());
        assert((a + b).drop_last() == a + b.drop_last());
        assert(utf16_text(a + b) == utf16_text(a) + utf16_text(b));
    }
}

/// A metadata text of ASCII characters is written as they are; any other one is
/// written in UTF-16 behind a byte-order mark, character by character.
pub proof fn law_metadata_texts(a: Seq<char>, ch: char, b: Seq<char>)
    ensures
        (forall|i: int| 0 <= i < a.len() ==> '\0' <= #[trigger] a[i] <= '\u{7f}') ==> text_string(
            a,
        ).len() == a.len() && forall|i: int|
            0 <= i < a.len() ==> #[trigger] text_string(a)[i] as u32 == a[i] as u32,
        !(forall|i: int| 0 <= i < a.len() ==> '\0' <= #[trigger] a[i] <= '\u{7f}') ==> text_string(a)
            == seq![0xFEu8, 0xFFu8] + utf16_text(a),
        utf16_text(a.push(ch) + b) == utf16_text(a) + utf16_bytes(ch) + utf16_text(b),
        utf16_text(Seq::empty()).len() == 0,
{
    lemma_utf16_text(a.push(ch), b);
    assert(a.push(ch).drop_last() == a);
    if forall|i: int| 0 <= i < a.len() ==> '\0' <= #[trigger] a[i] <= '\u{7f}' {
        assert(vstd::utf8::is_ascii_chars(a));
    } else {
        assert(!vstd::utf8::is_ascii_chars(a));
    }
}

} // verus!
