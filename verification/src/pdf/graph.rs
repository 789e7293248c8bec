//! The objects that a laid-out document consists of.

use crate::metadata::text_of;
use crate::pdf::content::{first_bad, page_stream};
use crate::pdf::document::{
    array, dict, dictionary_entries, is_number, leaf, new_dict, number, number_value,
    object_value, object_values, put, Leaf, PdfFile, PdfValue,
};
use crate::pdf::points::{numeral_text, Points};
use crate::pdf::sheet::{Page, Sheet};
use crate::pdf::winansi::{pdf_text_string, text_string};
use lopdf::Object;
use vstd::prelude::*;
use vstd::string::*;
use vstd::utf8::encode_utf8;

verus! {

/// The number of the page tree.
pub const PAGES_ID: u32 = 1;

/// The number of the font.
pub const FONT_ID: u32 = 2;

/// The number of the content stream of a page.
pub open spec fn content_id(page: nat) -> nat {
    3 + 2 * page
}

/// The number of a page.
pub open spec fn page_id(page: nat) -> nat {
    4 + 2 * page
}

/// The number of the catalog of a document with that many pages.
pub open spec fn catalog_id(pages: nat) -> nat {
    3 + 2 * pages
}

/// The number of the information dictionary of a document with that many
/// pages.
pub open spec fn info_id(pages: nat) -> nat {
    4 + 2 * pages
}

/// The built-in Helvetica font with the WinAnsi encoding.
pub open spec fn font_value() -> PdfValue {
    PdfValue::Dict(
        seq![
            ("Type"@, PdfValue::Name("Font"@)),
            ("Subtype"@, PdfValue::Name("Type1"@)),
            ("BaseFont"@, PdfValue::Name("Helvetica"@)),
            ("Encoding"@, PdfValue::Name("WinAnsiEncoding"@)),
        ],
    )
}

/// A page of the given width and height, as numerals, with the given content stream.
pub open spec fn page_value(content: nat, width: Seq<char>, height: Seq<char>) -> PdfValue {
    PdfValue::Dict(
        seq![
            ("Type"@, PdfValue::Name("Page"@)),
            ("Parent"@, PdfValue::Reference(PAGES_ID as nat)),
            (
                "MediaBox"@,
                PdfValue::Array(
                    seq![
                        PdfValue::Integer(0),
                        PdfValue::Integer(0),
                        number_value(width),
                        number_value(height),
                    ],
                ),
            ),
            ("Contents"@, PdfValue::Reference(content)),
            (
                "Resources"@,
                PdfValue::Dict(
                    seq![
                        (
                            "Font"@,
                            PdfValue::Dict(seq![("F1"@, PdfValue::Reference(FONT_ID as nat))]),
                        ),
                    ],
                ),
            ),
        ],
    )
}

/// The page tree of a document with that many pages.
pub open spec fn pages_value(pages: nat) -> PdfValue {
    PdfValue::Dict(
        seq![
            ("Type"@, PdfValue::Name("Pages"@)),
            (
                "Kids"@,
                PdfValue::Array(Seq::new(pages, |i: int| PdfValue::Reference(page_id(i as nat)))),
            ),
            ("Count"@, PdfValue::Integer(pages as int)),
        ],
    )
}

/// The catalog.
pub open spec fn catalog_value() -> PdfValue {
    PdfValue::Dict(
        seq![
            ("Type"@, PdfValue::Name("Catalog"@)),
            ("Pages"@, PdfValue::Reference(PAGES_ID as nat)),
        ],
    )
}

/// The entry for an optional metadata text.
pub open spec fn text_entry(key: Seq<char>, text: Option<Seq<char>>) -> Seq<(
    Seq<char>,
    PdfValue,
)> {
    match text {
        Some(t) => seq![(key, PdfValue::Text(text_string(t)))],
        None => Seq::empty(),
    }
}

/// The information dictionary.
pub open spec fn info_value(title: Option<Seq<char>>, author: Option<Seq<char>>) -> PdfValue {
    PdfValue::Dict(
        text_entry("Title"@, title) + text_entry("Author"@, author) + seq![
            ("Producer"@, PdfValue::Text(encode_utf8("Armature Files"@))),
        ],
    )
}

/// The objects of the font and of the first `count` pages.
pub open spec fn page_objects<N: Points>(sheet: Sheet<N>, count: nat) -> Map<nat, PdfValue>
    decreases count,
{
    if count == 0 {
        Map::empty().insert(FONT_ID as nat, font_value())
    } else {
        let i = (count - 1) as nat;
        page_objects(sheet, i).insert(
            content_id(i),
            PdfValue::Stream(Seq::empty(), page_stream(sheet.pages[i as int])),
        ).insert(
            page_id(i),
            page_value(
                content_id(i),
                numeral_text(sheet.extent().0),
                numeral_text(sheet.extent().1),
            ),
        )
    }
}

/// The document that is written for a layout.
pub open spec fn file_of<N: Points>(sheet: Sheet<N>) -> PdfFile {
    let n = sheet.pages.len();
    PdfFile {
        version: "1.4"@,
        objects: page_objects(sheet, n).insert(PAGES_ID as nat, pages_value(n)).insert(
            catalog_id(n),
            catalog_value(),
        ).insert(info_id(n), info_value(sheet.title, sheet.author)),
        trailer: seq![
            ("Root"@, PdfValue::Reference(catalog_id(n))),
            ("Info"@, PdfValue::Reference(info_id(n))),
        ],
        last_id: info_id(n),
    }
}

/// The first character on the pages that cannot be shown.
pub open spec fn first_bad_on_pages<N>(pages: Seq<Page<N>>) -> Option<char>
    decreases pages.len(),
{
    if pages.len() == 0 {
        None
    } else {
        match first_bad(pages[0].texts) {
            Some(ch) => Some(ch),
            None => first_bad_on_pages(pages.drop_first()),
        }
    }
}

/// The keys that stand in one dictionary differ from each other.
proof fn lemma_keys_differ()
    ensures
        "Type"@.len() == 4,
        "Kids"@.len() == 4,
        "Pages"@.len() == 5,
        "Count"@.len() == 5,
        "Title"@.len() == 5,
        "Parent"@.len() == 6,
        "Author"@.len() == 6,
        "Subtype"@.len() == 7,
        "BaseFont"@.len() == 8,
        "Encoding"@.len() == 8,
        "MediaBox"@.len() == 8,
        "Contents"@.len() == 8,
        "Producer"@.len() == 8,
        "Resources"@.len() == 9,
        "Type"@ != "Kids"@,
        "BaseFont"@ != "Encoding"@,
        "MediaBox"@ != "Contents"@,
{
    reveal_strlit("Type");
    reveal_strlit("Kids");
    reveal_strlit("Pages");
    reveal_strlit("Count");
    reveal_strlit("Title");
    reveal_strlit("Parent");
    reveal_strlit("Author");
    reveal_strlit("Subtype");
    reveal_strlit("BaseFont");
    reveal_strlit("Encoding");
    reveal_strlit("MediaBox");
    reveal_strlit("Contents");
    reveal_strlit("Producer");
    reveal_strlit("Resources");
    assert("Type"@[0] != "Kids"@[0]);
    assert("BaseFont"@[0] != "Encoding"@[0]);
    assert("MediaBox"@[0] != "Contents"@[0]);
}

/// Makes the font object.
pub(crate) fn font_object() -> (o: Object)
    ensures
        object_value(o) == font_value(),
{
    proof {
        lemma_keys_differ();
    }
    let mut d = new_dict();
    put(&mut d, "Type", leaf(Leaf::Name("Font")));
    put(&mut d, "Subtype", leaf(Leaf::Name("Type1")));
    put(&mut d, "BaseFont", leaf(Leaf::Name("Helvetica")));
    put(&mut d, "Encoding", leaf(Leaf::Name("WinAnsiEncoding")));
    assert(dictionary_entries(d) =~= font_value()->Dict_0);
    dict(d)
}

/// Makes a page object.  Fails if the width or the height is not a number.
pub(crate) fn page_object(content: u32, width: &str, height: &str) -> (r: Result<Object, String>)
    ensures
        r is Ok <==> is_number(width@) && is_number(height@),
        r matches Ok(o) ==> object_value(o) == page_value(content as nat, width@, height@),
{
    proof {
        lemma_keys_differ();
    }
    let right = match number(width) {
        Err(e) => return Err(e),
        Ok(o) => o,
    };
    let top = match number(height) {
        Err(e) => return Err(e),
        Ok(o) => o,
    };
    let mut fonts = new_dict();
    put(&mut fonts, "F1", leaf(Leaf::Reference(FONT_ID)));
    let mut resources = new_dict();
    put(&mut resources, "Font", dict(fonts));
    let mut corners: Vec<Object> = Vec::new();
    corners.push(leaf(Leaf::Integer(0)));
    corners.push(leaf(Leaf::Integer(0)));
    corners.push(right);
    corners.push(top);
    let ghost values = seq![
        PdfValue::Integer(0),
        PdfValue::Integer(0),
        number_value(width@),
        number_value(height@),
    ];
    assert(object_values(corners@) =~= values);
    let mut d = new_dict();
    put(&mut d, "Type", leaf(Leaf::Name("Page")));
    put(&mut d, "Parent", leaf(Leaf::Reference(PAGES_ID)));
    put(&mut d, "MediaBox", array(corners));
    put(&mut d, "Contents", leaf(Leaf::Reference(content)));
    put(&mut d, "Resources", dict(resources));
    assert(dictionary_entries(fonts) =~= seq![("F1"@, PdfValue::Reference(FONT_ID as nat))]);
    assert(dictionary_entries(resources) =~= seq![
        ("Font"@, PdfValue::Dict(seq![("F1"@, PdfValue::Reference(FONT_ID as nat))])),
    ]);
    assert(dictionary_entries(d) =~= page_value(content as nat, width@, height@)->Dict_0);
    Ok(dict(d))
}

/// Makes the page tree.
pub(crate) fn pages_object(count: u32) -> (o: Object)
    requires
        2 * count + 4 <= u32::MAX,
    ensures
        object_value(o) == pages_value(count as nat),
{
    proof {
        lemma_keys_differ();
    }
    let mut kids: Vec<Object> = Vec::new();
    let ghost refs = Seq::new(count as nat, |i: int| PdfValue::Reference(page_id(i as nat)));
    let mut i: u32 = 0;
    while i < count
        invariant
            i <= count,
            2 * count + 4 <= u32::MAX,
            refs == Seq::new(count as nat, |i: int| PdfValue::Reference(page_id(i as nat))),
            object_values(kids@) == refs.take(i as int),
        decreases count - i,
    {
        let ghost before = kids@;
        kids.push(leaf(Leaf::Reference(4 + 2 * i)));
        assert(object_values(kids@) =~= object_values(before).push(refs[i as int]));
        assert(refs.take(i + 1) =~= refs.take(i as int).push(refs[i as int]));
        i = i + 1;
    }
    assert(refs.take(count as int) == refs);
    let mut d = new_dict();
    put(&mut d, "Type", leaf(Leaf::Name("Pages")));
    put(&mut d, "Kids", array(kids));
    put(&mut d, "Count", leaf(Leaf::Integer(count as i64)));
    assert(dictionary_entries(d) =~= pages_value(count as nat)->Dict_0);
    dict(d)
}

/// Makes the catalog.
pub(crate) fn catalog_object() -> (o: Object)
    ensures
        object_value(o) == catalog_value(),
{
    proof {
        lemma_keys_differ();
    }
    let mut d = new_dict();
    put(&mut d, "Type", leaf(Leaf::Name("Catalog")));
    put(&mut d, "Pages", leaf(Leaf::Reference(PAGES_ID)));
    assert(dictionary_entries(d) =~= catalog_value()->Dict_0);
    dict(d)
}

/// Makes the information dictionary.
pub(crate) fn info_object(title: &Option<String>, author: &Option<String>) -> (o: Object)
    ensures
        object_value(o) == info_value(text_of(*title), text_of(*author)),
{
    proof {
        lemma_keys_differ();
    }
    let mut d = new_dict();
    if let Some(t) = title {
        put(&mut d, "Title", leaf(Leaf::Text(pdf_text_string(t.as_str()))));
    }
    assert(dictionary_entries(d) =~= text_entry("Title"@, text_of(*title)));
    if let Some(a) = author {
        put(&mut d, "Author", leaf(Leaf::Text(pdf_text_string(a.as_str()))));
    }
    assert(dictionary_entries(d) =~= text_entry("Title"@, text_of(*title)) + text_entry(
        "Author"@,
        text_of(*author),
    ));
    let producer = vstd::slice::slice_to_vec("Armature Files".as_bytes());
    put(&mut d, "Producer", leaf(Leaf::Text(producer)));
    assert(dictionary_entries(d) =~= info_value(text_of(*title), text_of(*author))->Dict_0);
    dict(d)
}

} // verus!
