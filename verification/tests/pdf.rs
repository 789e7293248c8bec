use armature_files::pdf::points::{Milli, Points};
use armature_files::pdf::quick::{invoice, text_document};
use armature_files::pdf::winansi::{char_width, encode_char, encode_str, pdf_text_string};
use armature_files::pdf::{FontSize, Margins, Orientation, PageSize, PdfBuilder, TextAlign};
use lopdf::{Document, Object};

/// Single precision, as PDF readers use it.
#[derive(Debug, Clone, Copy, PartialEq)]
struct Float(f32);

impl Points for Float {
    fn spec_of(n: usize) -> Float {
        Float(n as f32)
    }
    fn spec_plus(a: Float, b: Float) -> Float {
        Float(a.0 + b.0)
    }
    fn spec_minus(a: Float, b: Float) -> Float {
        Float(a.0 - b.0)
    }
    fn spec_times(a: Float, b: Float) -> Float {
        Float(a.0 * b.0)
    }
    fn spec_over(a: Float, b: Float) -> Float {
        Float(a.0 / b.0)
    }
    fn spec_larger(a: Float, b: Float) -> Float {
        Float(a.0.max(b.0))
    }
    fn spec_negated(a: Float) -> Float {
        Float(-a.0)
    }
    fn spec_below(a: Float, b: Float) -> bool {
        a.0 < b.0
    }
    fn spec_numeral_len(a: Float) -> usize {
        a.numeral().chars().count()
    }
    fn spec_numeral_char(a: Float, i: usize) -> char {
        a.numeral().chars().nth(i).unwrap_or(' ')
    }
    fn of(n: usize) -> Float {
        Self::spec_of(n)
    }
    fn plus(self, other: Float) -> Float {
        Self::spec_plus(self, other)
    }
    fn minus(self, other: Float) -> Float {
        Self::spec_minus(self, other)
    }
    fn times(self, other: Float) -> Float {
        Self::spec_times(self, other)
    }
    fn over(self, other: Float) -> Float {
        Self::spec_over(self, other)
    }
    fn larger(self, other: Float) -> Float {
        Self::spec_larger(self, other)
    }
    fn negated(self) -> Float {
        Self::spec_negated(self)
    }
    fn below(self, other: Float) -> bool {
        Self::spec_below(self, other)
    }
    fn numeral(self) -> String {
        self.0.to_string()
    }
}

#[test]
fn test_font_size_points() {
    assert_eq!(FontSize::<Float>::H1.points().0, 24.0);
    assert_eq!(FontSize::<Float>::Normal.points().0, 12.0);
    assert_eq!(FontSize::Custom(Float(18.0)).points().0, 18.0);
}

#[test]
fn test_page_size_dimensions() {
    let (w, h) = PageSize::<Float>::A4.dimensions();
    assert_eq!(w.0, 595.0);
    assert_eq!(h.0, 842.0);
}

#[test]
fn test_margins_uniform() {
    let margins = Margins::uniform(Float(72.0));
    assert_eq!(margins.top.0, 72.0);
    assert_eq!(margins.right.0, 72.0);
    assert_eq!(margins.bottom.0, 72.0);
    assert_eq!(margins.left.0, 72.0);
}

#[test]
fn the_presets_have_their_measures() {
    assert_eq!(FontSize::<Milli>::H2.points(), Milli(20_000));
    assert_eq!(FontSize::<Milli>::H3.points(), Milli(16_000));
    assert_eq!(FontSize::<Milli>::Small.points(), Milli(10_000));
    assert_eq!(FontSize::<Milli>::Footnote.points(), Milli(8_000));
    assert_eq!(FontSize::<Milli>::Normal.line_height(), Milli(18_000));
    assert_eq!(FontSize::Custom(Float(7.0)).line_height().0, 10.5);
    assert_eq!(PageSize::<Milli>::Letter.dimensions(), (Milli(612_000), Milli(792_000)));
    assert_eq!(PageSize::<Milli>::Legal.dimensions(), (Milli(612_000), Milli(1_008_000)));
    let custom = PageSize::Custom { width: Milli(1), height: Milli(2) };
    assert_eq!(custom.dimensions(), (Milli(1), Milli(2)));
    assert_eq!(Margins::inches(Milli(500)), Margins::uniform(Milli(36_000)));
    assert_eq!(Margins::<Milli>::default(), Margins::uniform(Milli(72_000)));
    assert_eq!(FontSize::<Milli>::default(), FontSize::Normal);
    assert_eq!(PageSize::<Milli>::default(), PageSize::A4);
    assert_eq!(TextAlign::default(), TextAlign::Left);
    assert_eq!(Orientation::default(), Orientation::Portrait);
}

#[test]
fn thousandths_are_written_in_decimal() {
    let cases = [
        (0, "0"),
        (1, "0.001"),
        (-1, "-0.001"),
        (10, "0.01"),
        (-500, "-0.5"),
        (1_000, "1"),
        (1_234_560, "1234.56"),
        (i64::MIN, "-9223372036854775.808"),
    ];
    for (n, text) in cases {
        assert_eq!(Milli(n).numeral(), text);
    }
}

#[test]
fn thousandths_are_cut_off_at_the_ends() {
    assert_eq!(Milli(i64::MAX).plus(Milli(1)), Milli(i64::MAX));
    assert_eq!(Milli(i64::MIN).minus(Milli(1)), Milli(i64::MIN));
    assert_eq!(Milli(i64::MIN).negated(), Milli(i64::MAX));
    assert_eq!(Milli::of(usize::MAX), Milli(i64::MAX));
    assert_eq!(Milli(i64::MAX).times(Milli(i64::MAX)), Milli(i64::MAX));
    assert_eq!(Milli(1_500).times(Milli(-2_000)), Milli(-3_000));
    assert_eq!(Milli(-1_000).over(Milli(3_000)), Milli(-333));
    assert_eq!(Milli(7).over(Milli(0)), Milli(0));
    assert_eq!(Milli(3).larger(Milli(-4)), Milli(3));
    assert!(Milli(-4).below(Milli(3)));
}

#[test]
fn characters_have_their_codes() {
    assert_eq!(encode_char('A'), Some(0x41));
    assert_eq!(encode_char('~'), Some(0x7E));
    assert_eq!(encode_char('\u{7F}'), None);
    assert_eq!(encode_char('\n'), None);
    assert_eq!(encode_char('\u{80}'), None);
    assert_eq!(encode_char('\u{A0}'), Some(0xA0));
    assert_eq!(encode_char('ÿ'), Some(0xFF));
    assert_eq!(encode_char('€'), Some(0x80));
    assert_eq!(encode_char('—'), Some(0x97));
    assert_eq!(encode_char('Ÿ'), Some(0x9F));
    assert_eq!(encode_char('π'), None);
    assert_eq!(encode_str("a€"), Ok(vec![0x61, 0x80]));
    assert_eq!(encode_str("aπбc"), Err('π'));
    assert_eq!(encode_str(""), Ok(vec![]));
}

/// No two characters share a code.
#[test]
fn codes_are_not_shared() {
    let mut seen = vec![None; 256];
    let mut count = 0;
    for n in 0..0x3000u32 {
        if let Some(ch) = char::from_u32(n) {
            if let Some(code) = encode_char(ch) {
                assert_eq!(seen[code as usize], None, "{ch:?}");
                seen[code as usize] = Some(ch);
                count += 1;
            }
        }
    }
    assert_eq!(count, 95 + 96 + 27);
}

#[test]
fn advance_widths_fall_back_to_that_of_n() {
    assert_eq!(char_width(' '), 278);
    assert_eq!(char_width('W'), 944);
    assert_eq!(char_width('é'), 556);
    assert_eq!(char_width('こ'), 556);
    assert_eq!(char_width('…'), 1000);
}

#[test]
fn text_strings_are_ascii_or_utf_16() {
    assert_eq!(pdf_text_string("Invoice"), b"Invoice".to_vec());
    assert_eq!(pdf_text_string(""), Vec::<u8>::new());
    assert_eq!(pdf_text_string("é"), vec![0xFE, 0xFF, 0x00, 0xE9]);
    assert_eq!(
        pdf_text_string("a😀"),
        vec![0xFE, 0xFF, 0x00, 0x61, 0xD8, 0x3D, 0xDE, 0x00]
    );
}

fn page_contents(data: &[u8]) -> Vec<String> {
    let doc = Document::load_mem(data).unwrap();
    doc.get_pages()
        .values()
        .map(|id| String::from_utf8(doc.get_page_content(*id).unwrap()).unwrap())
        .collect()
}

#[test]
fn a_page_is_written_out_exactly() {
    let result = PdfBuilder::<Milli>::new()
        .add_heading("A(b)\\", FontSize::H1)
        .add_horizontal_line()
        .add_text_aligned("é", FontSize::Normal, TextAlign::Right)
        .build()
        .unwrap();
    assert_eq!(
        page_contents(&result.data),
        vec![
            "1 w\n72 734 m\n523 734 l\nS\n\
             BT\n/F1 12 Tf\n\
             /F1 24 Tf\n72 770 Td\n(A\\(b\\)\\\\) Tj\n-72 -770 Td\n\
             /F1 12 Tf\n516.328 724 Td\n(\\351) Tj\n-516.328 -724 Td\n\
             ET\n"
                .to_string()
        ]
    );
    assert!(result.data.starts_with(b"%PDF-1.4"));
    assert_eq!(result.metadata.filename, "document.pdf");
    assert_eq!(result.metadata.mime_type, "application/pdf");
    assert_eq!(result.metadata.extension, Some("pdf".to_string()));
    assert_eq!(result.metadata.pages, Some(1));
    assert_eq!(result.metadata.size, result.data.len() as u64);
    assert_eq!(result.operations, vec!["pdf:generate".to_string()]);
}

#[test]
fn the_document_says_what_it_is() {
    let result = PdfBuilder::<Milli>::default()
        .title("Überblick".to_string())
        .author("Ann".to_string())
        .add_page_break()
        .build()
        .unwrap();
    assert_eq!(result.metadata.filename, "Überblick");
    assert_eq!(result.metadata.pages, Some(2));
    let doc = Document::load_mem(&result.data).unwrap();
    assert_eq!(doc.version, "1.4");
    assert_eq!(doc.get_pages().len(), 2);
    let info = doc.trailer.get(b"Info").unwrap().as_reference().unwrap();
    let info = doc.get_dictionary(info).unwrap();
    assert_eq!(
        info.get(b"Title").unwrap().as_str().unwrap(),
        &pdf_text_string("Überblick")[..]
    );
    assert_eq!(info.get(b"Author").unwrap().as_str().unwrap(), b"Ann");
    assert_eq!(info.get(b"Producer").unwrap().as_str().unwrap(), b"Armature Files");
    let catalog = doc.catalog().unwrap();
    assert_eq!(catalog.get(b"Type").unwrap().as_name().unwrap(), b"Catalog");
    let pages = catalog.get(b"Pages").unwrap().as_reference().unwrap();
    let pages = doc.get_dictionary(pages).unwrap();
    assert_eq!(pages.get(b"Count").unwrap().as_i64().unwrap(), 2);
    for id in doc.get_pages().values() {
        let page = doc.get_dictionary(*id).unwrap();
        assert_eq!(page.get(b"Type").unwrap().as_name().unwrap(), b"Page");
        let resources = page.get(b"Resources").unwrap().as_dict().unwrap();
        let fonts = resources.get(b"Font").unwrap().as_dict().unwrap();
        let font = fonts.get(b"F1").unwrap().as_reference().unwrap();
        let font = doc.get_dictionary(font).unwrap();
        assert_eq!(font.get(b"BaseFont").unwrap().as_name().unwrap(), b"Helvetica");
        assert!(matches!(page.get(b"MediaBox"), Ok(Object::Array(a)) if a.len() == 4));
    }
}

#[test]
fn a_character_without_a_glyph_is_named() {
    let err = PdfBuilder::<Milli>::new().add_text("aこ").build().unwrap_err();
    assert_eq!(
        err.to_string(),
        "PDF error: character 'こ' (U+3053) cannot be encoded in WinAnsiEncoding; \
         the built-in Helvetica font used by PdfBuilder is limited to \
         Latin-1 plus the CP1252 punctuation set"
    );
    let err = PdfBuilder::<Milli>::new().add_heading("\t", FontSize::H1).build().unwrap_err();
    assert!(err.to_string().starts_with("PDF error: character '\\t' (U+0009) cannot"));
    let err = PdfBuilder::<Milli>::new().add_heading("😀", FontSize::H1).build().unwrap_err();
    assert!(err.to_string().contains("(U+1F600)"));
}

#[test]
fn tables_are_laid_out_in_columns() {
    let result = PdfBuilder::<Milli>::new()
        .margins(Margins::uniform(Milli(0)))
        .add_table(&[vec!["a", "b"], vec![], vec!["c", "d", "e"]])
        .add_table(&[])
        .add_table(&[vec![], vec!["unseen"]])
        .build()
        .unwrap();
    let content = &page_contents(&result.data)[0];
    for line in [
        "5 842 Td\n(a) Tj\n-5 -842 Td\n",
        "302.5 842 Td\n(b) Tj\n",
        "5 806 Td\n(c) Tj\n",
        "302.5 806 Td\n(d) Tj\n",
        "600 806 Td\n(e) Tj\n",
    ] {
        assert!(content.contains(line), "{line:?} is missing in {content}");
    }
    assert!(!content.contains("unseen"));
}

#[test]
fn text_that_does_not_fit_goes_on_the_next_page() {
    let lines = "x\n".repeat(40);
    let result = PdfBuilder::<Milli>::new().add_text(&lines).build().unwrap();
    let pages = page_contents(&result.data);
    // From 770 down to 72 in steps of 18 points.
    assert_eq!(pages.len(), 2);
    assert_eq!(pages[0].matches("(x) Tj").count(), 38);
    assert_eq!(pages[1].matches("(x) Tj").count(), 2);
    assert!(pages[1].contains("72 770 Td"));
}

#[test]
fn white_space_is_no_text() {
    let result = PdfBuilder::<Milli>::new()
        .add_text("  \n\u{3000}\t\r\n a\r\n\n b\u{2003}c ")
        .build()
        .unwrap();
    let content = &page_contents(&result.data)[0];
    assert_eq!(content.matches("Tj").count(), 2);
    assert!(content.contains("72 770 Td\n(a) Tj"));
    assert!(content.contains("72 752 Td\n(b c) Tj"));
}

#[test]
fn a_word_that_is_too_long_stays_whole() {
    let long = "W".repeat(60);
    let result = PdfBuilder::<Milli>::new()
        .add_text(&format!("a {long} b"))
        .build()
        .unwrap();
    let content = &page_contents(&result.data)[0];
    assert!(content.contains("(a) Tj"));
    assert!(content.contains(&format!("({long}) Tj")));
    assert!(content.contains("(b) Tj"));
}

#[test]
fn a_text_document_has_a_heading_and_a_body() {
    let result = text_document::<Milli>("Report", "All is well.").unwrap();
    assert_eq!(result.metadata.filename, "Report");
    let content = &page_contents(&result.data)[0];
    assert!(content.contains("/F1 24 Tf\n72 770 Td\n(Report) Tj"));
    assert!(content.contains("/F1 12 Tf\n72 724 Td\n(All is well.) Tj"));
}

#[test]
fn an_invoice_lists_its_items() {
    let items = [("Widget", "2", "10.00"), ("Gadget", "1", "5.50")];
    let result = invoice::<Float>("42", "Acme", &items, "15.50").unwrap();
    assert_eq!(result.metadata.filename, "Invoice 42");
    let content = &page_contents(&result.data)[0];
    for text in [
        "INVOICE",
        "Invoice #: 42",
        "From: Acme",
        "Description",
        "Qty",
        "Price",
        "Widget",
        "10.00",
        "Gadget",
        "5.50",
        "Total:",
        "15.50",
        "",
    ] {
        assert!(content.contains(&format!("({text}) Tj")), "{text:?} is missing");
    }
    // The rule lies below the heading, the space and two lines of text.
    assert!(content.contains("72 688 m\n523 688 l\nS\n"), "{content}");
}

#[test]
fn long_streams_are_compressed() {
    let text = "the same words over and over ".repeat(200);
    let result = PdfBuilder::<Milli>::new().add_text(&text).build().unwrap();
    let raw = String::from_utf8_lossy(&result.data).into_owned();
    assert!(raw.contains("/FlateDecode"));
    assert!(!raw.contains("the same words"));
}

/// Every word is shown exactly once and in order, across pages, and nothing is
/// written into the bottom margin.
#[test]
fn every_word_is_shown_across_pages() {
    let words: Vec<String> = (0..2000).map(|i| format!("w{i}")).collect();
    let result = PdfBuilder::<Milli>::new().add_text(&words.join(" ")).build().unwrap();
    let pages = page_contents(&result.data);
    assert!(pages.len() > 1);
    let mut shown = Vec::new();
    for page in &pages {
        for line in page.lines() {
            if let Some(text) = line.strip_prefix('(').and_then(|l| l.strip_suffix(") Tj")) {
                shown.extend(text.split(' ').map(|w| w.to_string()));
            }
            if let Some(place) = line.strip_suffix(" Td") {
                let y: f32 = place.split(' ').nth(1).unwrap().parse().unwrap();
                assert!(y <= -90.0 || (90.0..=770.0).contains(&y), "{line}");
            }
        }
    }
    assert_eq!(shown, words);
}

#[test]
fn text_never_starts_left_of_the_margin() {
    let wide = "W".repeat(60);
    for align in [TextAlign::Left, TextAlign::Center, TextAlign::Right] {
        let result = PdfBuilder::<Milli>::new()
            .add_heading_aligned(&wide, FontSize::Normal, align)
            .build()
            .unwrap();
        assert!(page_contents(&result.data)[0].contains("72 770 Td"));
    }
    let centered = PdfBuilder::<Milli>::new()
        .add_heading_aligned("nn", FontSize::Small, TextAlign::Center)
        .build()
        .unwrap();
    // 72 + (451 - 11.12) / 2
    assert!(page_contents(&centered.data)[0].contains("291.94 770 Td"));
}

/// The page size is written as the number nearest to its numeral.
#[test]
fn the_page_size_is_a_number() {
    let result = PdfBuilder::<Milli>::new()
        .page_size(PageSize::Custom { width: Milli(500_125), height: Milli(700_000) })
        .build()
        .unwrap();
    let doc = Document::load_mem(&result.data).unwrap();
    let (_, page_id) = doc.get_pages().into_iter().next().unwrap();
    let page = doc.get_object(page_id).unwrap().as_dict().unwrap();
    let corners = page.get(b"MediaBox").unwrap().as_array().unwrap();
    assert_eq!(corners[2].as_float().unwrap(), 500.125);
    assert_eq!(corners[3].as_float().unwrap(), 700.0);
}

/// Lengths that are not written in numbers.
#[derive(Clone, Copy)]
struct Worded(u64);

impl Points for Worded {
    fn spec_of(n: usize) -> Worded {
        Worded(n as u64)
    }
    fn spec_plus(a: Worded, b: Worded) -> Worded {
        Worded(a.0.saturating_add(b.0))
    }
    fn spec_minus(a: Worded, b: Worded) -> Worded {
        Worded(a.0.saturating_sub(b.0))
    }
    fn spec_times(a: Worded, b: Worded) -> Worded {
        Worded(a.0.saturating_mul(b.0))
    }
    fn spec_over(a: Worded, b: Worded) -> Worded {
        Worded(a.0 / b.0.max(1))
    }
    fn spec_larger(a: Worded, b: Worded) -> Worded {
        Worded(a.0.max(b.0))
    }
    fn spec_negated(a: Worded) -> Worded {
        a
    }
    fn spec_below(a: Worded, b: Worded) -> bool {
        a.0 < b.0
    }
    fn spec_numeral_len(a: Worded) -> usize {
        a.numeral().chars().count()
    }
    fn spec_numeral_char(a: Worded, i: usize) -> char {
        a.numeral().chars().nth(i).unwrap_or(' ')
    }
    fn of(n: usize) -> Worded {
        Self::spec_of(n)
    }
    fn plus(self, other: Worded) -> Worded {
        Self::spec_plus(self, other)
    }
    fn minus(self, other: Worded) -> Worded {
        Self::spec_minus(self, other)
    }
    fn times(self, other: Worded) -> Worded {
        Self::spec_times(self, other)
    }
    fn over(self, other: Worded) -> Worded {
        Self::spec_over(self, other)
    }
    fn larger(self, other: Worded) -> Worded {
        Self::spec_larger(self, other)
    }
    fn negated(self) -> Worded {
        Self::spec_negated(self)
    }
    fn below(self, other: Worded) -> bool {
        Self::spec_below(self, other)
    }
    fn numeral(self) -> String {
        "wide".to_string()
    }
}

#[test]
fn a_page_size_that_is_no_number_is_refused() {
    let err = PdfBuilder::<Worded>::new().build().unwrap_err();
    assert_eq!(err.to_string(), "PDF error: the page size is not a number");
}
