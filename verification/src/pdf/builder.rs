//! The PDF document builder.

use crate::buffer::{self, content};
use crate::clock;
use crate::error::{FileError, FileResult};
use crate::metadata::{text_of, FileMetadata, MetadataView};
use crate::pdf::content::{content_stream, unencodable_text};
use crate::pdf::document::{
    compress, document_file, insert, is_number, leaf, new_document, new_id, number, save, saved_as,
    set_trailer, stream, Leaf, PdfFile,
};
use crate::pdf::graph::{
    catalog_object, file_of, first_bad_on_pages, font_object, info_object, page_object,
    page_objects, pages_object,
};
use crate::pdf::layout::{FontSize, Margins, Orientation, PageSize, TextAlign};
use crate::pdf::points::{numeral_text, Points};
use crate::pdf::sheet::{
    filling, lines_of, text_width, thousandths, width_with, wrapped, LineOp, Page, PlacedText,
    Sheet, WrappedLine,
};
use crate::pdf::winansi::char_width;
use crate::result::ProcessingResult;
use crate::text::{chars_of, pieces, pieces_of, texts, words, words_of};
use lopdf::Document;
use vstd::prelude::*;
use vstd::string::*;
use vstd::utf8::encode_utf8;

verus! {

/// A text to be shown on a page.
#[derive(Debug)]
pub struct TextOp<N> {
    pub text: String,
    pub x: N,
    pub y: N,
    pub font_size: N,
}

impl<N> TextOp<N> {
    /// The text and its place.
    pub open spec fn placed(self) -> PlacedText<N> {
        PlacedText { text: self.text@, x: self.x, y: self.y, font_size: self.font_size }
    }
}

/// The texts and lines of a page.
#[derive(Debug)]
pub struct PageContent<N> {
    pub texts: Vec<TextOp<N>>,
    pub lines: Vec<LineOp<N>>,
}

/// The texts and their places.
pub open spec fn placed_texts<N>(ops: Seq<TextOp<N>>) -> Seq<PlacedText<N>> {
    Seq::new(ops.len(), |i: int| ops[i].placed())
}

impl<N> PageContent<N> {
    /// What is on the page.
    pub open spec fn page(self) -> Page<N> {
        Page { texts: placed_texts(self.texts@), lines: self.lines@ }
    }
}

/// What is on the pages.
pub open spec fn pages_of<N>(pages: Seq<PageContent<N>>) -> Seq<Page<N>> {
    Seq::new(pages.len(), |i: int| pages[i].page())
}

/// PDF document builder.
///
/// Text is shown in the built-in Helvetica font with the WinAnsi encoding: the
/// characters of Latin-1 and the punctuation of code page 1252.  Building a
/// document with any other character in it fails.
pub struct PdfBuilder<N> {
    pages: Vec<PageContent<N>>,
    page_size: PageSize<N>,
    orientation: Orientation,
    margins: Margins<N>,
    cursor_y: N,
    title: Option<String>,
    author: Option<String>,
}

impl<N: Points> PdfBuilder<N> {
    /// The document laid out so far.
    pub closed spec fn sheet(&self) -> Sheet<N> {
        Sheet {
            pages: pages_of(self.pages@),
            page_size: self.page_size,
            orientation: self.orientation,
            margins: self.margins,
            cursor: self.cursor_y,
            title: text_of(self.title),
            author: text_of(self.author),
        }
    }

    /// There is always a page to draw on.
    pub open spec fn well_formed(&self) -> bool {
        self.sheet().pages.len() > 0
    }

    /// Creates a builder with one empty page.
    pub fn new() -> (r: PdfBuilder<N>)
        ensures
            r.well_formed(),
            r.sheet() == Sheet::<N>::blank(),
    {
        let page_size = PageSize::A4;
        let margins = Margins::inches(N::of(1));
        let (_, height) = page_size.dimensions();
        let mut pages: Vec<PageContent<N>> = Vec::new();
        pages.push(PageContent { texts: Vec::new(), lines: Vec::new() });
        let r = PdfBuilder {
            pages,
            page_size,
            orientation: Orientation::Portrait,
            margins,
            cursor_y: height.minus(margins.top),
            title: None,
            author: None,
        };
        assert(pages_of(r.pages@) =~= Sheet::<N>::blank().pages) by {
            assert(placed_texts(r.pages@[0].texts@) =~= Seq::empty());
        }
        r
    }

    /// Sets the document title.
    pub fn title(self, title: String) -> (r: PdfBuilder<N>)
        ensures
            r.sheet() == (Sheet { title: Some(title@), ..self.sheet() }),
    {
        PdfBuilder { title: Some(title), ..self }
    }

    /// Sets the document author.
    pub fn author(self, author: String) -> (r: PdfBuilder<N>)
        ensures
            r.sheet() == (Sheet { author: Some(author@), ..self.sheet() }),
    {
        PdfBuilder { author: Some(author), ..self }
    }

    /// Moves the cursor to the top of the page.
    ///
    /// Every change of the page geometry has to do this, by the dimensions of
    /// the page in its orientation.
    fn reset_cursor(&mut self)
        ensures
            final(self).sheet() == old(self).sheet().at_top(),
    {
        let (_, height) = self.get_page_dimensions();
        self.cursor_y = height.minus(self.margins.top);
    }

    /// Sets the page size.
    pub fn page_size(self, size: PageSize<N>) -> (r: PdfBuilder<N>)
        ensures
            r.sheet() == (Sheet { page_size: size, ..self.sheet() }).at_top(),
    {
        let mut r = PdfBuilder { page_size: size, ..self };
        r.reset_cursor();
        r
    }

    /// Sets the page orientation.
    pub fn orientation(self, orientation: Orientation) -> (r: PdfBuilder<N>)
        ensures
            r.sheet() == (Sheet { orientation, ..self.sheet() }).at_top(),
    {
        let mut r = PdfBuilder { orientation, ..self };
        r.reset_cursor();
        r
    }

    /// Sets the margins.
    pub fn margins(self, margins: Margins<N>) -> (r: PdfBuilder<N>)
        ensures
            r.sheet() == (Sheet { margins, ..self.sheet() }).at_top(),
    {
        let mut r = PdfBuilder { margins, ..self };
        r.reset_cursor();
        r
    }

    /// The page dimensions in the orientation.
    fn get_page_dimensions(&self) -> (r: (N, N))
        ensures
            r == self.sheet().extent(),
    {
        let (w, h) = self.page_size.dimensions();
        match self.orientation {
            Orientation::Portrait => (w, h),
            Orientation::Landscape => (h, w),
        }
    }

    /// The width between the margins.
    fn content_width(&self) -> (r: N)
        ensures
            r == self.sheet().content_width(),
    {
        let (width, _) = self.get_page_dimensions();
        width.minus(self.margins.left).minus(self.margins.right)
    }

    /// Starts a new page where there is no room for the given height.
    fn ensure_space(&mut self, needed_height: N)
        ensures
            final(self).sheet() == old(self).sheet().with_room(needed_height),
            old(self).well_formed() ==> final(self).well_formed(),
    {
        if self.cursor_y.minus(needed_height).below(self.margins.bottom) {
            self.add_page_internal();
        }
    }

    fn add_page_internal(&mut self)
        ensures
            final(self).sheet() == old(self).sheet().with_page(),
            final(self).well_formed(),
    {
        let ghost before = pages_of(self.pages@);
        let page: PageContent<N> = PageContent { texts: Vec::new(), lines: Vec::new() };
        assert(page.page() == (Page::<N> { texts: Seq::empty(), lines: Seq::empty() })) by {
            assert(placed_texts(page.texts@) =~= Seq::empty());
            assert(page.lines@ =~= Seq::empty());
        }
        self.pages.push(page);
        assert(pages_of(self.pages@) =~= before.push(page.page()));
        self.reset_cursor();
    }

    /// Puts a text on the last page.
    fn draw_text(&mut self, op: TextOp<N>)
        requires
            old(self).well_formed(),
        ensures
            final(self).sheet() == old(self).sheet().with_text(op.placed()),
            final(self).well_formed(),
    {
        let ghost before = self.sheet();
        let last = self.pages.pop();
        if let Some(mut page) = last {
            let ghost had = page;
            page.texts.push(op);
            assert(placed_texts(page.texts@) =~= placed_texts(had.texts@).push(op.placed()));
            self.pages.push(page);
            assert(pages_of(self.pages@) =~= before.with_text(op.placed()).pages);
        }
    }

    /// Puts a line on the last page.
    fn draw_line(&mut self, line: LineOp<N>)
        requires
            old(self).well_formed(),
        ensures
            final(self).sheet() == old(self).sheet().with_line(line),
            final(self).well_formed(),
    {
        let ghost before = self.sheet();
        let last = self.pages.pop();
        if let Some(mut page) = last {
            page.lines.push(line);
            self.pages.push(page);
            assert(pages_of(self.pages@) =~= before.with_line(line).pages);
        }
    }

    /// Adds a new page.
    pub fn add_page(self) -> (r: PdfBuilder<N>)
        ensures
            r.sheet() == self.sheet().with_page(),
            r.well_formed(),
    {
        let mut r = self;
        r.add_page_internal();
        r
    }

    /// Adds a page break.
    pub fn add_page_break(self) -> (r: PdfBuilder<N>)
        ensures
            r.sheet() == self.sheet().with_page(),
            r.well_formed(),
    {
        self.add_page()
    }

    /// The width of a text in points, by the advance widths of Helvetica.
    pub fn estimate_text_width(text: &str, font_size: N) -> (r: N)
        ensures
            r == text_width(text@, font_size),
    {
        let chars = chars_of(text);
        let mut total: N = N::of(0);
        for i in 0..chars.len()
            invariant
                chars@ == text@,
                total == thousandths::<N>(text@.take(i as int)),
        {
            assert(text@.take(i + 1).drop_last() == text@.take(i as int));
            total = total.plus(N::of(char_width(chars[i]) as usize));
        }
        assert(text@.take(text@.len() as int) == text@);
        total.over(N::of(1000)).times(font_size)
    }

    /// Where a text of the given width starts.
    fn aligned_x_for_width(&self, width: N, align: TextAlign) -> (r: N)
        ensures
            r == self.sheet().aligned_x(width, align),
    {
        let rest = self.content_width().minus(width);
        let left = self.margins.left;
        match align {
            TextAlign::Left => left,
            TextAlign::Center => left.plus(rest.over(N::of(2)).larger(N::of(0))),
            TextAlign::Right => left.plus(rest.larger(N::of(0))),
        }
    }

    /// Puts one line of text at the cursor.
    fn put_line(&mut self, text: String, width: N, size: FontSize<N>, align: TextAlign)
        requires
            old(self).well_formed(),
        ensures
            final(self).sheet() == old(self).sheet().with_text_line(
                (WrappedLine { text: text@, width }),
                size,
                align,
            ),
            final(self).well_formed(),
    {
        let line_height = size.line_height();
        self.ensure_space(line_height);
        let x = self.aligned_x_for_width(width, align);
        let y = self.cursor_y;
        self.draw_text(TextOp { text, x, y, font_size: size.points() });
        self.cursor_y = self.cursor_y.minus(line_height);
    }

    /// Adds a heading.
    pub fn add_heading(self, text: &str, size: FontSize<N>) -> (r: PdfBuilder<N>)
        requires
            self.well_formed(),
        ensures
            r.sheet() == self.sheet().with_heading(text@, size, TextAlign::Left),
            r.well_formed(),
    {
        self.add_heading_aligned(text, size, TextAlign::Left)
    }

    /// Adds a heading with explicit text alignment.
    pub fn add_heading_aligned(self, text: &str, size: FontSize<N>, align: TextAlign) -> (r:
        PdfBuilder<N>)
        requires
            self.well_formed(),
        ensures
            r.sheet() == self.sheet().with_heading(text@, size, align),
            r.well_formed(),
    {
        let mut r = self;
        let width = Self::estimate_text_width(text, size.points());
        r.put_line(text.to_owned(), width, size, align);
        r
    }

    /// Adds a paragraph of text.
    pub fn add_text(self, text: &str) -> (r: PdfBuilder<N>)
        requires
            self.well_formed(),
        ensures
            r.sheet() == self.sheet().with_wrapped_text(
                text@,
                FontSize::Normal,
                TextAlign::Left,
            ),
            r.well_formed(),
    {
        self.add_text_styled(text, FontSize::Normal)
    }

    /// Adds text with a custom font size.
    pub fn add_text_styled(self, text: &str, size: FontSize<N>) -> (r: PdfBuilder<N>)
        requires
            self.well_formed(),
        ensures
            r.sheet() == self.sheet().with_wrapped_text(text@, size, TextAlign::Left),
            r.well_formed(),
    {
        self.add_text_aligned(text, size, TextAlign::Left)
    }

    /// Adds text with a custom font size and explicit alignment.
    ///
    /// The line and its width are carried along as words are appended: advance
    /// widths add up, so nothing has to be measured twice.
    pub fn add_text_aligned(self, text: &str, size: FontSize<N>, align: TextAlign) -> (r:
        PdfBuilder<N>)
        requires
            self.well_formed(),
        ensures
            r.sheet() == self.sheet().with_wrapped_text(text@, size, align),
            r.well_formed(),
    {
        let mut r = self;
        let ghost start = r.sheet();
        let lines = pieces(text, '\n');
        let ghost paragraphs = pieces_of(text@, '\n');
        assert(start.with_paragraphs(paragraphs.take(0), size, align) == start);
        for i in 0..lines.len()
            invariant
                r.well_formed(),
                texts(lines@) == paragraphs,
                r.sheet() == start.with_paragraphs(paragraphs.take(i as int), size, align),
                r.sheet().content_width() == start.content_width(),
        {
            let ghost before = r.sheet();
            assert(paragraphs.take(i + 1).drop_last() == paragraphs.take(i as int));
            assert(paragraphs.take(i + 1).last() == lines[i as int]@);
            r.put_paragraph(lines[i].as_str(), size, align);
        }
        assert(paragraphs.take(paragraphs.len() as int) == paragraphs);
        r
    }

    /// Wraps one paragraph and puts its lines at the cursor.
    fn put_paragraph(&mut self, paragraph: &str, size: FontSize<N>, align: TextAlign)
        requires
            old(self).well_formed(),
        ensures
            final(self).sheet() == old(self).sheet().with_text_lines(
                wrapped(
                    words_of(paragraph@),
                    size.size(),
                    old(self).sheet().content_width(),
                ),
                size,
                align,
            ),
            final(self).sheet().content_width() == old(self).sheet().content_width(),
            final(self).well_formed(),
    {
        let font_size = size.points();
        let max_width = self.content_width();
        let space_width = Self::estimate_text_width(" ", font_size);
        proof {
            reveal_strlit(" ");
            assert(" "@ =~= seq![' ']);
        }
        let all = words(paragraph);
        let ghost views = words_of(paragraph@);
        let ghost start = self.sheet();
        let mut line = String::new();
        let mut width: N = N::of(0);
        for i in 0..all.len()
            invariant
                self.well_formed(),
                texts(all@) == views,
                font_size == size.size(),
                max_width == start.content_width(),
                space_width == text_width(seq![' '], font_size),
                filling(views.take(i as int), font_size, max_width).line == (WrappedLine {
                    text: line@,
                    width,
                }),
                self.sheet() == start.with_text_lines(
                    filling(views.take(i as int), font_size, max_width).full,
                    size,
                    align,
                ),
                self.sheet().content_width() == start.content_width(),
        {
            let ghost before = filling(views.take(i as int), font_size, max_width);
            assert(views.take(i + 1).drop_last() == views.take(i as int));
            assert(views.take(i + 1).last() == all[i as int]@);
            let word = all[i].as_str();
            let word_width = Self::estimate_text_width(word, font_size);
            if line.as_str().is_empty() {
                line = word.to_owned();
                width = word_width;
            } else {
                let candidate = width.plus(space_width).plus(word_width);
                assert(candidate == width_with(before.line, word@, font_size));
                if max_width.below(candidate) {
                    assert(before.full.push(before.line).drop_last() == before.full);
                    self.put_line(line, width, size, align);
                    line = word.to_owned();
                    width = word_width;
                } else {
                    line.push(' ');
                    line.append(word);
                    width = candidate;
                }
            }
        }
        assert(views.take(views.len() as int) == views);
        if !line.as_str().is_empty() {
            let ghost f = filling(views, font_size, max_width);
            assert(lines_of(f).drop_last() == f.full);
            self.put_line(line, width, size, align);
        }
    }

    /// Adds vertical space.
    pub fn add_space(self, points: N) -> (r: PdfBuilder<N>)
        ensures
            r.sheet() == self.sheet().moved_down(points),
    {
        PdfBuilder { cursor_y: self.cursor_y.minus(points), ..self }
    }

    /// Adds a horizontal line across the width between the margins.
    pub fn add_horizontal_line(self) -> (r: PdfBuilder<N>)
        requires
            self.well_formed(),
        ensures
            r.sheet() == self.sheet().with_rule(),
            r.well_formed(),
    {
        let mut r = self;
        r.ensure_space(N::of(10));
        let y = r.cursor_y;
        let x1 = r.margins.left;
        let x2 = x1.plus(r.content_width());
        r.draw_line(LineOp { x1, y1: y, x2, y2: y });
        r.cursor_y = r.cursor_y.minus(N::of(10));
        r
    }

    /// Adds a simple table.
    pub fn add_table(self, rows: &[Vec<&str>]) -> (r: PdfBuilder<N>)
        requires
            self.well_formed(),
        ensures
            r.sheet() == self.sheet().with_table(table_of(rows@)),
            r.well_formed(),
    {
        let ghost table = table_of(rows@);
        if rows.len() == 0 {
            return self;
        }
        let num_cols = rows[0].len();
        assert(table[0].len() == num_cols);
        if num_cols == 0 {
            return self;
        }
        let mut r = self;
        let ghost start = r.sheet();
        let col_width = r.content_width().over(N::of(num_cols));
        let row_height = FontSize::<N>::Normal.line_height();
        assert(start.with_rows(table.take(0), col_width) == start);
        for i in 0..rows.len()
            invariant
                r.well_formed(),
                table == table_of(rows@),
                row_height == FontSize::<N>::Normal.line(),
                r.sheet() == start.with_rows(table.take(i as int), col_width),
        {
            assert(table.take(i + 1).drop_last() == table.take(i as int));
            assert(table.take(i + 1).last() == table[i as int]);
            r.ensure_space(row_height);
            r.put_row(&rows[i], col_width);
            r.cursor_y = r.cursor_y.minus(row_height);
        }
        assert(table.take(table.len() as int) == table);
        r
    }

    /// Puts the cells of a row at the cursor.
    fn put_row(&mut self, row: &Vec<&str>, col_width: N)
        requires
            old(self).well_formed(),
        ensures
            final(self).sheet() == old(self).sheet().with_cells(
                row_of(row@),
                row@.len(),
                col_width,
            ),
            final(self).well_formed(),
    {
        let ghost start = self.sheet();
        for j in 0..row.len()
            invariant
                self.well_formed(),
                self.sheet() == start.with_cells(row_of(row@), j as nat, col_width),
                self.sheet().margins == start.margins,
                self.sheet().cursor == start.cursor,
        {
            let x = self.margins.left.plus(N::of(j).times(col_width)).plus(N::of(5));
            let y = self.cursor_y;
            self.draw_text(
                TextOp { text: row[j].to_owned(), x, y, font_size: FontSize::<N>::Normal.points() },
            );
        }
    }
}

/// The metadata of a document.
pub open spec fn document_metadata<N>(sheet: Sheet<N>, size: nat) -> MetadataView {
    MetadataView {
        filename: match sheet.title {
            Some(title) => title,
            None => "document.pdf"@,
        },
        mime_type: "application/pdf"@,
        size,
        extension: Some("pdf"@),
        width: None,
        height: None,
        pages: Some(sheet.pages.len() as u32),
    }
}

/// The most pages that a document can have: each takes two object numbers, and
/// six more are needed.
pub const MAX_PAGES: u32 = 2_147_483_644;

/// Whether the width and the height of the pages are written as numbers.
pub open spec fn has_size<N: Points>(sheet: Sheet<N>) -> bool {
    is_number(numeral_text(sheet.extent().0)) && is_number(numeral_text(sheet.extent().1))
}

/// Whether a result is the given layout, built; or an error, if there are too
/// many pages, their size is not written in numbers, or there is a character on
/// them that cannot be shown.
pub open spec fn is_built<N: Points>(r: FileResult<ProcessingResult>, sheet: Sheet<N>) -> bool {
    match r {
        Ok(result) => {
            let data = content(result.data);
            &&& sheet.pages.len() <= MAX_PAGES
            &&& has_size(sheet)
            &&& first_bad_on_pages(sheet.pages) is None
            &&& saved_as(file_of(sheet), true, data)
            &&& encode_utf8("%PDF-"@ + "1.4"@).is_prefix_of(data)
            &&& result.metadata@ == document_metadata(sheet, data.len())
            &&& texts(result.operations@) == seq!["pdf:generate"@]
        },
        Err(e) => if sheet.pages.len() > MAX_PAGES {
            e.is_pdf_error("too many pages"@)
        } else if !has_size(sheet) {
            e.is_pdf_error("the page size is not a number"@)
        } else {
            first_bad_on_pages(sheet.pages) matches Some(ch) && e.is_pdf_error(
                unencodable_text(ch),
            )
        },
    }
}

impl<N: Points> PdfBuilder<N> {
    /// Makes the document: the font, a content stream and a page object for
    /// every page, the page tree, the catalog and the information.
    fn assemble(&self) -> (r: FileResult<Document>)
        requires
            self.sheet().pages.len() <= MAX_PAGES,
            has_size(self.sheet()),
        ensures
            match r {
                Ok(doc) => first_bad_on_pages(self.sheet().pages) is None && document_file(doc)
                    == file_of(self.sheet()),
                Err(e) => first_bad_on_pages(self.sheet().pages) matches Some(ch)
                    && e.is_pdf_error(unencodable_text(ch)),
            },
    {
        let ghost sheet = self.sheet();
        let ghost n = sheet.pages.len();
        let mut doc = new_document("1.4");
        let pages_id = new_id(&mut doc);
        let font_id = new_id(&mut doc);
        insert(&mut doc, font_id, font_object());
        let (width, height) = self.get_page_dimensions();
        let width = width.numeral();
        let height = height.numeral();
        assert(sheet.pages.skip(0) == sheet.pages);
        for i in 0..self.pages.len()
            invariant
                sheet == self.sheet(),
                n == sheet.pages.len(),
                n == self.pages.len(),
                n <= MAX_PAGES,
                width@ == numeral_text(sheet.extent().0),
                height@ == numeral_text(sheet.extent().1),
                has_size(sheet),
                document_file(doc) == (PdfFile {
                    version: "1.4"@,
                    objects: page_objects(sheet, i as nat),
                    trailer: Seq::empty(),
                    last_id: (2 + 2 * i) as nat,
                }),
                first_bad_on_pages(sheet.pages.skip(i as int)) == first_bad_on_pages(sheet.pages),
        {
            let content_id = new_id(&mut doc);
            let page_id = new_id(&mut doc);
            let ghost rest = sheet.pages.skip(i as int);
            assert(rest[0] == self.pages[i as int].page());
            assert(rest.drop_first() == sheet.pages.skip(i + 1));
            match content_stream(&self.pages[i]) {
                Err(e) => return Err(e),
                Ok(content) => {
                    insert(&mut doc, content_id, stream(content));
                },
            }
            match page_object(content_id, width.as_str(), height.as_str()) {
                Err(e) => return Err(FileError::Pdf(e)),
                Ok(page) => insert(&mut doc, page_id, page),
            }
        }
        assert(sheet.pages.skip(n as int) == Seq::<Page<N>>::empty());
        insert(&mut doc, pages_id, pages_object(self.pages.len() as u32));
        let catalog_id = new_id(&mut doc);
        insert(&mut doc, catalog_id, catalog_object());
        let info_id = new_id(&mut doc);
        insert(&mut doc, info_id, info_object(&self.title, &self.author));
        proof {
            reveal_strlit("Root");
            reveal_strlit("Info");
            assert("Root"@[0] != "Info"@[0]);
        }
        set_trailer(&mut doc, "Root", leaf(Leaf::Reference(catalog_id)));
        set_trailer(&mut doc, "Info", leaf(Leaf::Reference(info_id)));
        assert(document_file(doc).trailer =~= file_of(sheet).trailer);
        Ok(doc)
    }

    /// Builds the PDF.
    ///
    /// A character that the font cannot show is an error that names it.  A
    /// document with more pages than there are numbers for is refused, and so
    /// is a page size that is not written in numbers.
    pub fn build(self) -> (r: FileResult<ProcessingResult>)
        ensures
            is_built(r, self.sheet()),
    {
        if self.pages.len() as u128 > MAX_PAGES as u128 {
            return Err(FileError::Pdf("too many pages".to_owned()));
        }
        let (width, height) = self.get_page_dimensions();
        if number(width.numeral().as_str()).is_err() || number(height.numeral().as_str()).is_err() {
            return Err(FileError::Pdf("the page size is not a number".to_owned()));
        }
        let start = clock::now();
        let mut doc = match self.assemble() {
            Err(e) => return Err(e),
            Ok(doc) => doc,
        };
        compress(&mut doc);
        match save(doc) {
            Err(e) => Err(FileError::Pdf(e)),
            Ok(bytes) => {
                let data = buffer::from_vec(bytes);
                let size = buffer::length(&data) as u64;
                let pages = self.pages.len() as u32;
                let filename = match self.title {
                    Some(title) => title,
                    None => "document.pdf".to_owned(),
                };
                let mut operations: Vec<String> = Vec::new();
                operations.push("pdf:generate".to_owned());
                assert(texts(operations@) =~= seq!["pdf:generate"@]);
                Ok(
                    ProcessingResult {
                        data,
                        metadata: FileMetadata {
                            filename,
                            mime_type: "application/pdf".to_owned(),
                            size,
                            extension: Some("pdf".to_owned()),
                            width: None,
                            height: None,
                            pages: Some(pages),
                        },
                        operations,
                        processing_time_ms: clock::elapsed_ms(&start),
                    },
                )
            },
        }
    }
}

/// The texts of the cells of a row.
pub open spec fn row_of(row: Seq<&str>) -> Seq<Seq<char>> {
    Seq::new(row.len(), |i: int| row[i]@)
}

/// The texts of the cells of a table.
pub open spec fn table_of(rows: Seq<Vec<&str>>) -> Seq<Seq<Seq<char>>> {
    Seq::new(rows.len(), |i: int| row_of(rows[i]@))
}

impl<N: Points> Default for PdfBuilder<N> {
    fn default() -> (r: PdfBuilder<N>)
        ensures
            r.well_formed(),
            r.sheet() == Sheet::<N>::blank(),
    {
        PdfBuilder::new()
    }
}

} // verus!
