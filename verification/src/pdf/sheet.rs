//! What a PDF builder does, as a model: pages with text and lines on them, and
//! a cursor that moves down the last one.

use crate::pdf::layout::{page_extent, FontSize, Margins, Orientation, PageSize, TextAlign};
use crate::pdf::points::Points;
use crate::pdf::winansi::glyph_width;
use crate::text::{pieces_of, words_of};
use vstd::prelude::*;

verus! {

/// A text placed on a page.
pub struct PlacedText<N> {
    pub text: Seq<char>,
    pub x: N,
    pub y: N,
    pub font_size: N,
}

/// A straight line on a page.
#[derive(Debug, Clone, Copy)]
pub struct LineOp<N> {
    pub x1: N,
    pub y1: N,
    pub x2: N,
    pub y2: N,
}

/// A page.
pub struct Page<N> {
    pub texts: Seq<PlacedText<N>>,
    pub lines: Seq<LineOp<N>>,
}

/// A document that is being laid out.
pub struct Sheet<N> {
    pub pages: Seq<Page<N>>,
    pub page_size: PageSize<N>,
    pub orientation: Orientation,
    pub margins: Margins<N>,
    /// Where on the last page the next thing goes.
    pub cursor: N,
    pub title: Option<Seq<char>>,
    pub author: Option<Seq<char>>,
}

/// The advance widths of the characters of a text, added up, in 1/1000 em.
pub open spec fn thousandths<N: Points>(s: Seq<char>) -> N
    decreases s.len(),
{
    if s.len() == 0 {
        N::spec_of(0)
    } else {
        N::spec_plus(thousandths(s.drop_last()), N::spec_of(glyph_width(s.last()) as usize))
    }
}

/// The width of a text at a font size.
pub open spec fn text_width<N: Points>(s: Seq<char>, font_size: N) -> N {
    N::spec_times(N::spec_over(thousandths::<N>(s), N::spec_of(1000)), font_size)
}

/// A line of wrapped text and its width.
pub struct WrappedLine<N> {
    pub text: Seq<char>,
    pub width: N,
}

/// Words being filled into lines: the lines that are full, and the one that is
/// being filled.
pub struct Filling<N> {
    pub full: Seq<WrappedLine<N>>,
    pub line: WrappedLine<N>,
}

/// The width of a line with one more word on it.
pub open spec fn width_with<N: Points>(line: WrappedLine<N>, word: Seq<char>, font_size: N) -> N {
    N::spec_plus(
        N::spec_plus(line.width, text_width(seq![' '], font_size)),
        text_width(word, font_size),
    )
}

/// Fills words into lines: a word that would make the line wider than
/// `max_width` begins the next one.
pub open spec fn filling<N: Points>(
    words: Seq<Seq<char>>,
    font_size: N,
    max_width: N,
) -> Filling<N>
    decreases words.len(),
{
    if words.len() == 0 {
        Filling {
            full: Seq::empty(),
            line: WrappedLine { text: Seq::empty(), width: N::spec_of(0) },
        }
    } else {
        let before = filling(words.drop_last(), font_size, max_width);
        let word = words.last();
        let alone = WrappedLine { text: word, width: text_width(word, font_size) };
        if before.line.text.len() == 0 {
            Filling { full: before.full, line: alone }
        } else if N::spec_below(max_width, width_with(before.line, word, font_size)) {
            Filling { full: before.full.push(before.line), line: alone }
        } else {
            Filling {
                full: before.full,
                line: WrappedLine {
                    text: before.line.text.push(' ') + word,
                    width: width_with(before.line, word, font_size),
                },
            }
        }
    }
}

/// All lines of a filling.
pub open spec fn lines_of<N>(f: Filling<N>) -> Seq<WrappedLine<N>> {
    if f.line.text.len() == 0 {
        f.full
    } else {
        f.full.push(f.line)
    }
}

/// The words of a text wrapped into lines.
pub open spec fn wrapped<N: Points>(
    words: Seq<Seq<char>>,
    font_size: N,
    max_width: N,
) -> Seq<WrappedLine<N>> {
    lines_of(filling(words, font_size, max_width))
}

impl<N: Points> Sheet<N> {
    /// A document with one empty page.
    pub open spec fn blank() -> Sheet<N> {
        let margins = Margins::in_inches(N::spec_of(1));
        Sheet {
            pages: seq![Page { texts: Seq::empty(), lines: Seq::empty() }],
            page_size: PageSize::A4,
            orientation: Orientation::Portrait,
            margins,
            cursor: N::spec_minus(PageSize::<N>::A4.extent().1, margins.top),
            title: None,
            author: None,
        }
    }

    /// The dimensions of a page.
    pub open spec fn extent(self) -> (N, N) {
        page_extent(self.page_size, self.orientation)
    }

    /// The top of a page, where the cursor starts.
    pub open spec fn top(self) -> N {
        N::spec_minus(self.extent().1, self.margins.top)
    }

    /// The document with the cursor at the top of the page.
    pub open spec fn at_top(self) -> Sheet<N> {
        Sheet { cursor: self.top(), ..self }
    }

    /// The width between the margins.
    pub open spec fn content_width(self) -> N {
        N::spec_minus(N::spec_minus(self.extent().0, self.margins.left), self.margins.right)
    }

    /// The document with an empty page added.
    pub open spec fn with_page(self) -> Sheet<N> {
        Sheet {
            pages: self.pages.push(Page { texts: Seq::empty(), lines: Seq::empty() }),
            ..self
        }.at_top()
    }

    /// The document with room for something of the given height: a new page is
    /// added where it would reach into the bottom margin.
    pub open spec fn with_room(self, height: N) -> Sheet<N> {
        if N::spec_below(N::spec_minus(self.cursor, height), self.margins.bottom) {
            self.with_page()
        } else {
            self
        }
    }

    /// The document with the cursor moved down.
    pub open spec fn moved_down(self, height: N) -> Sheet<N> {
        Sheet { cursor: N::spec_minus(self.cursor, height), ..self }
    }

    /// The document with a text on its last page.
    pub open spec fn with_text(self, text: PlacedText<N>) -> Sheet<N> {
        let page = self.pages.last();
        Sheet {
            pages: self.pages.drop_last().push(
                Page { texts: page.texts.push(text), lines: page.lines },
            ),
            ..self
        }
    }

    /// The document with a line on its last page.
    pub open spec fn with_line(self, line: LineOp<N>) -> Sheet<N> {
        let page = self.pages.last();
        Sheet {
            pages: self.pages.drop_last().push(
                Page { texts: page.texts, lines: page.lines.push(line) },
            ),
            ..self
        }
    }

    /// Where a text of the given width starts.  It never starts left of the
    /// margin.
    pub open spec fn aligned_x(self, width: N, align: TextAlign) -> N {
        let left = self.margins.left;
        let rest = N::spec_minus(self.content_width(), width);
        match align {
            TextAlign::Left => left,
            TextAlign::Center => N::spec_plus(
                left,
                N::spec_larger(N::spec_over(rest, N::spec_of(2)), N::spec_of(0)),
            ),
            TextAlign::Right => N::spec_plus(left, N::spec_larger(rest, N::spec_of(0))),
        }
    }

    /// The document with one line of text at the cursor, on a new page where
    /// there is no room, and the cursor below it.
    pub open spec fn with_text_line(
        self,
        line: WrappedLine<N>,
        size: FontSize<N>,
        align: TextAlign,
    ) -> Sheet<N> {
        let roomy = self.with_room(size.line());
        roomy.with_text(
            PlacedText {
                text: line.text,
                x: roomy.aligned_x(line.width, align),
                y: roomy.cursor,
                font_size: size.size(),
            },
        ).moved_down(size.line())
    }

    /// The document with lines of text, one below the other.
    pub open spec fn with_text_lines(
        self,
        lines: Seq<WrappedLine<N>>,
        size: FontSize<N>,
        align: TextAlign,
    ) -> Sheet<N>
        decreases lines.len(),
    {
        if lines.len() == 0 {
            self
        } else {
            self.with_text_lines(lines.drop_last(), size, align).with_text_line(
                lines.last(),
                size,
                align,
            )
        }
    }

    /// The document with paragraphs, each wrapped to the width between the
    /// margins.
    pub open spec fn with_paragraphs(
        self,
        paragraphs: Seq<Seq<char>>,
        size: FontSize<N>,
        align: TextAlign,
    ) -> Sheet<N>
        decreases paragraphs.len(),
    {
        if paragraphs.len() == 0 {
            self
        } else {
            self.with_paragraphs(paragraphs.drop_last(), size, align).with_text_lines(
                wrapped(words_of(paragraphs.last()), size.size(), self.content_width()),
                size,
                align,
            )
        }
    }

    /// The document with a text: every line of it is a paragraph.
    pub open spec fn with_wrapped_text(
        self,
        text: Seq<char>,
        size: FontSize<N>,
        align: TextAlign,
    ) -> Sheet<N> {
        self.with_paragraphs(pieces_of(text, '\n'), size, align)
    }

    /// The document with a heading.
    pub open spec fn with_heading(
        self,
        text: Seq<char>,
        size: FontSize<N>,
        align: TextAlign,
    ) -> Sheet<N> {
        self.with_text_line(
            WrappedLine { text, width: text_width(text, size.size()) },
            size,
            align,
        )
    }

    /// The document with a line across the width between the margins.
    pub open spec fn with_rule(self) -> Sheet<N> {
        let roomy = self.with_room(N::spec_of(10));
        let x1 = roomy.margins.left;
        let y = roomy.cursor;
        roomy.with_line(
            LineOp { x1, y1: y, x2: N::spec_plus(x1, roomy.content_width()), y2: y },
        ).moved_down(N::spec_of(10))
    }

    /// The document with the first `count` cells of a table row at the cursor.
    pub open spec fn with_cells(self, row: Seq<Seq<char>>, count: nat, col_width: N) -> Sheet<N>
        decreases count,
    {
        if count == 0 {
            self
        } else {
            let before = self.with_cells(row, (count - 1) as nat, col_width);
            before.with_text(
                PlacedText {
                    text: row[count - 1],
                    x: N::spec_plus(
                        N::spec_plus(
                            self.margins.left,
                            N::spec_times(N::spec_of((count - 1) as usize), col_width),
                        ),
                        N::spec_of(5),
                    ),
                    y: self.cursor,
                    font_size: FontSize::<N>::Normal.size(),
                },
            )
        }
    }

    /// The document with table rows, one below the other.
    pub open spec fn with_rows(self, rows: Seq<Seq<Seq<char>>>, col_width: N) -> Sheet<N>
        decreases rows.len(),
    {
        if rows.len() == 0 {
            self
        } else {
            self.with_rows(rows.drop_last(), col_width).with_room(
                FontSize::<N>::Normal.line(),
            ).with_cells(rows.last(), rows.last().len(), col_width).moved_down(
                FontSize::<N>::Normal.line(),
            )
        }
    }

    /// The document with a table: as many columns of the same width as the
    /// first row has cells.
    pub open spec fn with_table(self, rows: Seq<Seq<Seq<char>>>) -> Sheet<N> {
        if rows.len() == 0 || rows[0].len() == 0 {
            self
        } else {
            self.with_rows(
                rows,
                N::spec_over(self.content_width(), N::spec_of(rows[0].len() as usize)),
            )
        }
    }
}

} // verus!
