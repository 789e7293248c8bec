//! What holds of placing things on pages, whatever number type is used.

use crate::buffer::content;
use crate::error::{FileError, FileResult};
use crate::pdf::builder::{has_size, is_built, pages_of, table_of, PageContent};
use crate::pdf::document::saved_as;
use crate::pdf::graph::{file_of, first_bad_on_pages};
use crate::pdf::laws::{are_words, is_word, lemma_words_are_words, shown, texts_on};
use crate::pdf::layout::{FontSize, Margins, Orientation, PageSize, TextAlign};
use crate::pdf::points::{law_quotients_are_rounded_toward_zero, quotient, Milli, Points};
use crate::pdf::sheet::{
    filling, text_width, thousandths, width_with, wrapped, LineOp, PlacedText, Sheet, WrappedLine,
};
use crate::pdf::winansi::glyph_width;
use crate::result::ProcessingResult;
use crate::text::{
    debug_char_text, hex_text, interleaved, is_white, law_pieces_of_both_sides,
    law_text_without_separator_is_one_piece, law_words_are_separated_by_white_space, pieces_of,
    texts, words_of,
};
use vstd::prelude::*;
use vstd::string::*;

verus! {

/// A text that is put on the last page comes behind all others.
proof fn lemma_text_is_last<N: Points>(sheet: Sheet<N>, text: PlacedText<N>)
    requires
        sheet.pages.len() > 0,
    ensures
        sheet.with_text(text).pages.len() == sheet.pages.len(),
        texts_on(sheet.with_text(text).pages) == texts_on(sheet.pages).push(text),
        shown(texts_on(sheet.with_text(text).pages)) == shown(texts_on(sheet.pages)).push(
            text.text,
        ),
{
    let after = sheet.with_text(text);
    assert(after.pages.drop_last() == sheet.pages.drop_last());
    assert(after.pages.last().texts == sheet.pages.last().texts.push(text));
    assert(texts_on(after.pages) == texts_on(sheet.pages).push(text));
    assert(shown(texts_on(after.pages)) == shown(texts_on(sheet.pages)).push(text.text));
}

proof fn lemma_room_shows_the_same<N: Points>(sheet: Sheet<N>, height: N)
    requires
        sheet.pages.len() > 0,
    ensures
        sheet.with_room(height).pages.len() > 0,
        texts_on(sheet.with_room(height).pages) == texts_on(sheet.pages),
{
    let roomy = sheet.with_room(height);
    if roomy.pages != sheet.pages {
        assert(roomy.pages.drop_last() == sheet.pages);
        assert(texts_on(roomy.pages) == texts_on(sheet.pages) + Seq::<PlacedText<N>>::empty());
        assert(texts_on(roomy.pages) == texts_on(sheet.pages));
    }
}

proof fn lemma_cells_are_shown<N: Points>(
    sheet: Sheet<N>,
    row: Seq<Seq<char>>,
    count: nat,
    col_width: N,
)
    requires
        sheet.pages.len() > 0,
        count <= row.len(),
    ensures
        sheet.with_cells(row, count, col_width).pages.len() == sheet.pages.len(),
        shown(texts_on(sheet.with_cells(row, count, col_width).pages)) == shown(
            texts_on(sheet.pages),
        ) + row.take(count as int),
    decreases count,
{
    if count == 0 {
        assert(row.take(0) == Seq::<Seq<char>>::empty());
        assert(shown(texts_on(sheet.pages)) + row.take(0) == shown(texts_on(sheet.pages)));
    } else {
        let fewer = (count - 1) as nat;
        lemma_cells_are_shown(sheet, row, fewer, col_width);
        let before = sheet.with_cells(row, fewer, col_width);
        let after = sheet.with_cells(row, count, col_width);
        let placed = after.pages.last().texts.last();
        assert(after == before.with_text(placed));
        lemma_text_is_last(before, placed);
        assert(placed.text == row[count - 1]);
        assert(row.take(count as int) == row.take(fewer as int).push(row[count - 1]));
    }
}

proof fn lemma_rows_are_shown<N: Points>(
    sheet: Sheet<N>,
    rows: Seq<Seq<Seq<char>>>,
    col_width: N,
)
    requires
        sheet.pages.len() > 0,
    ensures
        sheet.with_rows(rows, col_width).pages.len() > 0,
        shown(texts_on(sheet.with_rows(rows, col_width).pages)) == shown(texts_on(sheet.pages))
            + rows.flatten_alt(),
    decreases rows.len(),
{
    if rows.len() == 0 {
        assert(shown(texts_on(sheet.pages)) + rows.flatten_alt() == shown(texts_on(sheet.pages)));
    } else {
        let init = rows.drop_last();
        lemma_rows_are_shown(sheet, init, col_width);
        let before = sheet.with_rows(init, col_width);
        let height = FontSize::<N>::Normal.line();
        lemma_room_shows_the_same(before, height);
        let roomy = before.with_room(height);
        let row = rows.last();
        lemma_cells_are_shown(roomy, row, row.len(), col_width);
        assert(row.take(row.len() as int) == row);
        assert(rows.flatten_alt() == init.flatten_alt() + row);
    }
}

/// Every cell of a table is shown, row by row, in order and exactly once, behind
/// what was there.  A table whose first row has no cells is not shown at all.
pub proof fn law_every_cell_is_shown<N: Points>(sheet: Sheet<N>, rows: Seq<Seq<Seq<char>>>)
    requires
        sheet.pages.len() > 0,
    ensures
        rows.len() > 0 && rows[0].len() > 0 ==> shown(texts_on(sheet.with_table(rows).pages))
            == shown(texts_on(sheet.pages)) + rows.flatten(),
        rows.len() == 0 || rows[0].len() == 0 ==> sheet.with_table(rows) == sheet,
        sheet.with_table(rows).pages.len() > 0,
{
    if rows.len() > 0 && rows[0].len() > 0 {
        let col_width = N::spec_over(sheet.content_width(), N::spec_of(rows[0].len() as usize));
        lemma_rows_are_shown(sheet, rows, col_width);
        rows.lemma_flatten_and_flatten_alt_are_equivalent();
    }
}

proof fn lemma_cells_keep_the_title<N: Points>(
    sheet: Sheet<N>,
    row: Seq<Seq<char>>,
    count: nat,
    col_width: N,
)
    ensures
        sheet.with_cells(row, count, col_width).title == sheet.title,
        sheet.with_cells(row, count, col_width).author == sheet.author,
    decreases count,
{
    if count > 0 {
        lemma_cells_keep_the_title(sheet, row, (count - 1) as nat, col_width);
    }
}

proof fn lemma_rows_keep_the_title<N: Points>(
    sheet: Sheet<N>,
    rows: Seq<Seq<Seq<char>>>,
    col_width: N,
)
    ensures
        sheet.with_rows(rows, col_width).title == sheet.title,
        sheet.with_rows(rows, col_width).author == sheet.author,
    decreases rows.len(),
{
    if rows.len() > 0 {
        lemma_rows_keep_the_title(sheet, rows.drop_last(), col_width);
        let roomy = sheet.with_rows(rows.drop_last(), col_width).with_room(
            FontSize::<N>::Normal.line(),
        );
        lemma_cells_keep_the_title(roomy, rows.last(), rows.last().len(), col_width);
    }
}

/// A table changes neither the title nor the author of a document.
pub proof fn law_a_table_keeps_the_title<N: Points>(sheet: Sheet<N>, rows: Seq<Seq<Seq<char>>>)
    ensures
        sheet.with_table(rows).title == sheet.title,
        sheet.with_table(rows).author == sheet.author,
{
    if rows.len() > 0 && rows[0].len() > 0 {
        let col_width = N::spec_over(sheet.content_width(), N::spec_of(rows[0].len() as usize));
        lemma_rows_keep_the_title(sheet, rows, col_width);
    }
}

/// The cells of a row stand side by side at the cursor, each five points into
/// its column, in normal size; nothing else on the page changes.
pub proof fn law_cells_stand_side_by_side<N: Points>(
    sheet: Sheet<N>,
    row: Seq<Seq<char>>,
    count: nat,
    col_width: N,
)
    requires
        sheet.pages.len() > 0,
        count <= row.len(),
    ensures
        ({
            let after = sheet.with_cells(row, count, col_width);
            let page = sheet.pages.last();
            &&& after.pages.len() == sheet.pages.len()
            &&& after.pages.drop_last() == sheet.pages.drop_last()
            &&& after.pages.last().lines == page.lines
            &&& after.pages.last().texts == page.texts + Seq::new(
                count,
                |j: int|
                    PlacedText {
                        text: row[j],
                        x: N::spec_plus(
                            N::spec_plus(
                                sheet.margins.left,
                                N::spec_times(N::spec_of(j as usize), col_width),
                            ),
                            N::spec_of(5),
                        ),
                        y: sheet.cursor,
                        font_size: N::spec_of(12),
                    },
            )
            &&& after.cursor == sheet.cursor
            &&& after.margins == sheet.margins
            &&& after.page_size == sheet.page_size
            &&& after.orientation == sheet.orientation
            &&& after.title == sheet.title
            &&& after.author == sheet.author
        }),
    decreases count,
{
    let after = sheet.with_cells(row, count, col_width);
    let cell = |j: int|
        PlacedText {
            text: row[j],
            x: N::spec_plus(
                N::spec_plus(
                    sheet.margins.left,
                    N::spec_times(N::spec_of(j as usize), col_width),
                ),
                N::spec_of(5),
            ),
            y: sheet.cursor,
            font_size: N::spec_of(12),
        };
    let page = sheet.pages.last();
    if count == 0 {
        assert(page.texts + Seq::new(count, cell) == page.texts);
    } else {
        let fewer = (count - 1) as nat;
        law_cells_stand_side_by_side(sheet, row, fewer, col_width);
        let before = sheet.with_cells(row, fewer, col_width);
        assert(after.pages.drop_last() == before.pages.drop_last());
        assert(Seq::new(count, cell) == Seq::new(fewer, cell).push(cell(count - 1)));
        assert(after.pages.last().texts == before.pages.last().texts.push(cell(count - 1)));
        assert(after.pages.last().texts == page.texts + Seq::new(count, cell));
    }
}

/// Something of a height is put at the cursor, on the page that is there, if it
/// does not reach into the bottom margin, and at the top of a new page, empty so
/// far, otherwise.  Nothing that is there changes.
pub proof fn law_a_page_is_started_only_for_want_of_room<N: Points>(sheet: Sheet<N>, height: N)
    ensures
        ({
            let roomy = sheet.with_room(height);
            &&& N::spec_below(N::spec_minus(sheet.cursor, height), sheet.margins.bottom) ==> {
                &&& roomy.pages.len() == sheet.pages.len() + 1
                &&& roomy.pages.drop_last() == sheet.pages
                &&& roomy.pages.last().texts.len() == 0
                &&& roomy.pages.last().lines.len() == 0
                &&& roomy.cursor == N::spec_minus(sheet.extent().1, sheet.margins.top)
            }
            &&& !N::spec_below(N::spec_minus(sheet.cursor, height), sheet.margins.bottom)
                ==> roomy.pages == sheet.pages && roomy.cursor == sheet.cursor
            &&& roomy.page_size == sheet.page_size
            &&& roomy.orientation == sheet.orientation
            &&& roomy.margins == sheet.margins
            &&& roomy.title == sheet.title
            &&& roomy.author == sheet.author
        }),
{
    let roomy = sheet.with_room(height);
    if N::spec_below(N::spec_minus(sheet.cursor, height), sheet.margins.bottom) {
        assert(roomy.pages.drop_last() == sheet.pages);
    }
}

/// Every row of a table is placed where there is room for a line of normal
/// text: its cells at that height, and the cursor a line below.
pub proof fn law_every_row_is_placed<N: Points>(
    sheet: Sheet<N>,
    rows: Seq<Seq<Seq<char>>>,
    row: Seq<Seq<char>>,
    col_width: N,
)
    ensures
        ({
            let height = N::spec_times(
                N::spec_of(12),
                N::spec_over(N::spec_of(3), N::spec_of(2)),
            );
            let roomy = sheet.with_rows(rows, col_width).with_room(height);
            let after = sheet.with_rows(rows.push(row), col_width);
            &&& after.pages == roomy.with_cells(row, row.len(), col_width).pages
            &&& after.cursor == N::spec_minus(
                roomy.with_cells(row, row.len(), col_width).cursor,
                height,
            )
            &&& sheet.with_rows(Seq::empty(), col_width) == sheet
        }),
{
    assert(rows.push(row).drop_last() == rows);
}

/// The columns of a table share the width between the margins: there are as many
/// as the first row has cells.
pub proof fn law_columns_share_the_width<N: Points>(sheet: Sheet<N>, rows: Seq<Seq<Seq<char>>>)
    requires
        rows.len() > 0,
        rows[0].len() > 0,
    ensures
        sheet.with_table(rows) == sheet.with_rows(
            rows,
            N::spec_over(
                N::spec_minus(
                    N::spec_minus(sheet.extent().0, sheet.margins.left),
                    sheet.margins.right,
                ),
                N::spec_of(rows[0].len() as usize),
            ),
        ),
{
}

/// A line of text is placed where there is room for it: in its size, at the
/// height of the cursor there and where its alignment puts it, behind everything
/// on the page; and the cursor goes down by one and a half times the size.
/// Nothing else changes.
pub proof fn law_a_line_of_text_is_placed<N: Points>(
    sheet: Sheet<N>,
    line: WrappedLine<N>,
    size: FontSize<N>,
    align: TextAlign,
)
    requires
        sheet.pages.len() > 0,
    ensures
        ({
            let height = N::spec_times(size.size(), N::spec_over(N::spec_of(3), N::spec_of(2)));
            let roomy = sheet.with_room(height);
            let after = sheet.with_text_line(line, size, align);
            &&& after.pages.len() == roomy.pages.len()
            &&& after.pages.drop_last() == roomy.pages.drop_last()
            &&& after.pages.last().lines == roomy.pages.last().lines
            &&& after.pages.last().texts == roomy.pages.last().texts.push(
                PlacedText {
                    text: line.text,
                    x: roomy.aligned_x(line.width, align),
                    y: roomy.cursor,
                    font_size: size.size(),
                },
            )
            &&& after.cursor == N::spec_minus(roomy.cursor, height)
            &&& after.page_size == sheet.page_size
            &&& after.orientation == sheet.orientation
            &&& after.margins == sheet.margins
            &&& after.title == sheet.title
            &&& after.author == sheet.author
        }),
{
    let height = N::spec_times(size.size(), N::spec_over(N::spec_of(3), N::spec_of(2)));
    let roomy = sheet.with_room(height);
    let after = sheet.with_text_line(line, size, align);
    assert(roomy.pages.len() > 0);
    assert(after.pages.drop_last() == roomy.pages.drop_last());
}

/// Where a text starts: at the left margin, or behind half or all of the space
/// that it leaves between the margins, if it leaves any.
pub proof fn law_where_a_text_starts<N: Points>(sheet: Sheet<N>, width: N)
    ensures
        ({
            let left = sheet.margins.left;
            let between = N::spec_minus(
                N::spec_minus(sheet.extent().0, left),
                sheet.margins.right,
            );
            let free = N::spec_minus(between, width);
            &&& sheet.aligned_x(width, TextAlign::Left) == left
            &&& sheet.aligned_x(width, TextAlign::Center) == N::spec_plus(
                left,
                N::spec_larger(N::spec_over(free, N::spec_of(2)), N::spec_of(0)),
            )
            &&& sheet.aligned_x(width, TextAlign::Right) == N::spec_plus(
                left,
                N::spec_larger(free, N::spec_of(0)),
            )
        }),
{
}

/// Whether a length in thousandths is moderate: far from the ends of the range.
pub open spec fn is_moderate(n: Milli) -> bool {
    -0x1_0000_0000_0000 <= n.0 <= 0x1_0000_0000_0000
}

/// In thousandths of a point, a text that fits between the margins touches the
/// right one if it is aligned there, and has the same space on both sides, up to
/// a thousandth, if it is centered.  A text that does not fit starts at the left
/// margin.
pub proof fn law_alignment_in_thousandths(sheet: Sheet<Milli>, width: Milli)
    requires
        is_moderate(sheet.extent().0),
        is_moderate(sheet.margins.left),
        is_moderate(sheet.margins.right),
        is_moderate(width),
    ensures
        ({
            let left = sheet.margins.left.0;
            let right = (sheet.extent().0).0 - sheet.margins.right.0;
            let at_left = sheet.aligned_x(width, TextAlign::Left).0;
            let at_center = sheet.aligned_x(width, TextAlign::Center).0;
            let at_right = sheet.aligned_x(width, TextAlign::Right).0;
            &&& at_left == left
            &&& width.0 <= right - left ==> {
                &&& at_right + width.0 == right
                &&& 0 <= (right - (at_center + width.0)) - (at_center - left) <= 1
            }
            &&& width.0 > right - left ==> at_center == left && at_right == left
        }),
{
    let between = Milli::spec_minus(
        Milli::spec_minus(sheet.extent().0, sheet.margins.left),
        sheet.margins.right,
    );
    let rest = Milli::spec_minus(between, width);
    let two = Milli::spec_of(2);
    assert(sheet.content_width() == between);
    assert(two.0 == 2_000);
    assert(rest.0 == (sheet.extent().0).0 - sheet.margins.left.0 - sheet.margins.right.0 - width.0);
    if rest.0 >= 0 {
        lemma_quotient(rest.0 * 1_000, 2_000, rest.0 as int / 2);
        assert(Milli::spec_over(rest, two).0 == rest.0 as int / 2);
    } else {
        law_quotients_are_rounded_toward_zero(rest.0 * 1_000, 2_000);
        assert(Milli::spec_over(rest, two).0 <= 0);
    }
}

/// The width of a text is that of its characters, one behind the other, in
/// thousandths of the font size.
pub proof fn law_widths_of_characters_add_up<N: Points>(s: Seq<char>, c: char, font_size: N)
    ensures
        text_width(s, font_size) == N::spec_times(
            N::spec_over(thousandths::<N>(s), N::spec_of(1000)),
            font_size,
        ),
        thousandths::<N>(Seq::empty()) == N::spec_of(0),
        thousandths::<N>(s.push(c)) == N::spec_plus(
            thousandths::<N>(s),
            N::spec_of(glyph_width(c) as usize),
        ),
{
    assert(s.push(c).drop_last() == s);
}

/// The width of words with spaces between them.
pub open spec fn spaced_width<N: Points>(words: Seq<Seq<char>>, font_size: N) -> N
    decreases words.len(),
{
    if words.len() == 0 {
        N::spec_of(0)
    } else if words.len() == 1 {
        text_width(words[0], font_size)
    } else {
        N::spec_plus(
            N::spec_plus(
                spaced_width(words.drop_last(), font_size),
                text_width(seq![' '], font_size),
            ),
            text_width(words.last(), font_size),
        )
    }
}

/// Whether a line is its words with single spaces between them, and as wide.
pub open spec fn is_spaced<N: Points>(line: WrappedLine<N>, font_size: N) -> bool {
    &&& line.text == interleaved(words_of(line.text), ' ')
    &&& line.width == spaced_width(words_of(line.text), font_size)
}

proof fn lemma_filling_is_spaced<N: Points>(words: Seq<Seq<char>>, font_size: N, max_width: N)
    requires
        are_words(words),
    ensures
        is_spaced(filling(words, font_size, max_width).line, font_size),
        words.len() > 0 ==> filling(words, font_size, max_width).line.text.len() > 0,
        forall|i: int|
            0 <= i < filling(words, font_size, max_width).full.len() ==> is_spaced(
                #[trigger] filling(words, font_size, max_width).full[i],
                font_size,
            ),
    decreases words.len(),
{
    let f = filling(words, font_size, max_width);
    if words.len() > 0 {
        let init = words.drop_last();
        let word = words.last();
        assert forall|i: int| 0 <= i < init.len() implies is_word(#[trigger] init[i]) by {
            assert(is_word(words[i]));
        }
        assert(is_word(words[words.len() - 1]));
        lemma_filling_is_spaced(init, font_size, max_width);
        let before = filling(init, font_size, max_width);
        law_words_are_separated_by_white_space(word, ' ', Seq::empty());
        assert(words_of(word) == seq![word]) by {
            assert forall|k: int| 0 <= k < word.len() implies !is_white(
                #[trigger] word[k],
            ) by {
            }
        }
        assert(interleaved(seq![word], ' ') == word);
        if before.line.text.len() > 0 && !N::spec_below(
            max_width,
            width_with(before.line, word, font_size),
        ) {
            let had = words_of(before.line.text);
            law_words_are_separated_by_white_space(before.line.text, ' ', word);
            assert(f.line.text == before.line.text.push(' ') + word);
            assert(words_of(f.line.text) == had.push(word));
            assert(had.len() > 0) by {
                if had.len() == 0 {
                    assert(interleaved(had, ' ') == Seq::<char>::empty());
                }
            }
            assert(had.push(word).drop_last() == had);
            assert(interleaved(had.push(word), ' ') == interleaved(had, ' ').push(' ') + word);
        }
        assert forall|i: int| 0 <= i < f.full.len() implies is_spaced(
            #[trigger] f.full[i],
            font_size,
        ) by {
            if i < before.full.len() {
                assert(f.full[i] == before.full[i]);
            }
        }
    } else {
        assert(words_of(f.line.text) == Seq::<Seq<char>>::empty());
        assert(f.line.text == interleaved(words_of(f.line.text), ' '));
    }
}

/// Every wrapped line is its words with single spaces between them, and its
/// width is that of the words and the spaces.
pub proof fn law_wrapped_lines_are_spaced<N: Points>(text: Seq<char>, font_size: N, max_width: N)
    ensures
        forall|i: int|
            0 <= i < wrapped(words_of(text), font_size, max_width).len() ==> is_spaced(
                #[trigger] wrapped(words_of(text), font_size, max_width)[i],
                font_size,
            ),
{
    lemma_words_are_words(text);
    lemma_filling_is_spaced(words_of(text), font_size, max_width);
}

/// A heading is shown as it is, in one line.
pub proof fn law_headings_are_shown_in_one_line<N: Points>(
    sheet: Sheet<N>,
    text: Seq<char>,
    size: FontSize<N>,
    align: TextAlign,
)
    requires
        sheet.pages.len() > 0,
    ensures
        shown(texts_on(sheet.with_heading(text, size, align).pages)) == shown(
            texts_on(sheet.pages),
        ).push(text),
        sheet.with_heading(text, size, align) == sheet.with_text_line(
            WrappedLine { text, width: text_width(text, size.size()) },
            size,
            align,
        ),
        sheet.with_heading(text, size, align).pages.len() > 0,
{
    let roomy = sheet.with_room(size.line());
    lemma_room_shows_the_same(sheet, size.line());
    let after = sheet.with_heading(text, size, align);
    let placed = PlacedText {
        text,
        x: roomy.aligned_x(text_width(text, size.size()), align),
        y: roomy.cursor,
        font_size: size.size(),
    };
    lemma_text_is_last(roomy, placed);
}

/// A rule is drawn where there is room for ten points, from the left margin
/// across the width between the margins, and the cursor goes down by ten points;
/// no text changes.
pub proof fn law_rules_go_from_margin_to_margin<N: Points>(sheet: Sheet<N>)
    requires
        sheet.pages.len() > 0,
    ensures
        ({
            let roomy = sheet.with_room(N::spec_of(10));
            let after = sheet.with_rule();
            let left = sheet.margins.left;
            let between = N::spec_minus(
                N::spec_minus(sheet.extent().0, left),
                sheet.margins.right,
            );
            &&& after.pages.len() == roomy.pages.len()
            &&& after.pages.drop_last() == roomy.pages.drop_last()
            &&& after.pages.last().texts == roomy.pages.last().texts
            &&& after.pages.last().lines == roomy.pages.last().lines.push(
                LineOp {
                    x1: left,
                    y1: roomy.cursor,
                    x2: N::spec_plus(left, between),
                    y2: roomy.cursor,
                },
            )
            &&& after.cursor == N::spec_minus(roomy.cursor, N::spec_of(10))
            &&& texts_on(after.pages) == texts_on(sheet.pages)
            &&& after.title == sheet.title && after.author == sheet.author
            &&& after.margins == sheet.margins
        }),
{
    lemma_room_shows_the_same(sheet, N::spec_of(10));
    let roomy = sheet.with_room(N::spec_of(10));
    let after = sheet.with_rule();
    assert(roomy.pages.len() > 0);
    assert(after.pages.drop_last() == roomy.pages.drop_last());
    assert(texts_on(after.pages) == texts_on(roomy.pages));
}

/// A quotient of numbers that are not negative.
pub proof fn lemma_quotient(a: int, b: int, q: int)
    requires
        a >= 0,
        b > 0,
        q >= 0,
        q * b <= a < q * b + b,
    ensures
        quotient(a, b) == q,
{
    assert(a / b == q) by (nonlinear_arith)
        requires
            b > 0,
            q * b <= a < q * b + b,
    ;
}

/// The sizes of text, pages and margins, in thousandths of a point.
pub proof fn law_sizes_in_points(width: Milli, height: Milli, size: Milli)
    requires
        is_moderate(size),
        size.0 >= 0,
    ensures
        FontSize::<Milli>::H1.size() == Milli(24_000),
        FontSize::<Milli>::H2.size() == Milli(20_000),
        FontSize::<Milli>::H3.size() == Milli(16_000),
        FontSize::<Milli>::Normal.size() == Milli(12_000),
        FontSize::<Milli>::Small.size() == Milli(10_000),
        FontSize::<Milli>::Footnote.size() == Milli(8_000),
        FontSize::Custom(size).size() == size,
        FontSize::Custom(size).line().0 == size.0 * 3 / 2,
        PageSize::<Milli>::A4.extent() == (Milli(595_000), Milli(842_000)),
        PageSize::<Milli>::Letter.extent() == (Milli(612_000), Milli(792_000)),
        PageSize::<Milli>::Legal.extent() == (Milli(612_000), Milli(1_008_000)),
        (PageSize::Custom { width, height }).extent() == (width, height),
        size.0 <= 1_000_000_000 ==> Margins::in_inches(size) == (Margins {
            top: Milli((72 * size.0) as i64),
            right: Milli((72 * size.0) as i64),
            bottom: Milli((72 * size.0) as i64),
            left: Milli((72 * size.0) as i64),
        }),
{
    let ratio = Milli::spec_over(Milli::spec_of(3), Milli::spec_of(2));
    assert(ratio == Milli(1500)) by {
        lemma_quotient(3_000_000, 2_000, 1_500);
    }
    let n = size.0 as int;
    lemma_quotient(n * 1500, 1000, n * 3 / 2);
    lemma_quotient(n * 72_000, 1000, n * 72);
}

/// A new document has one empty page, A4 and upright, with margins of an inch,
/// and the cursor an inch below its top.
pub proof fn law_a_new_document_is_blank()
    ensures
        ({
            let blank = Sheet::<Milli>::blank();
            &&& blank.pages.len() == 1
            &&& blank.pages[0].texts.len() == 0
            &&& blank.pages[0].lines.len() == 0
            &&& blank.extent() == (Milli(595_000), Milli(842_000))
            &&& blank.orientation == Orientation::Portrait
            &&& blank.margins == (Margins {
                top: Milli(72_000),
                right: Milli(72_000),
                bottom: Milli(72_000),
                left: Milli(72_000),
            })
            &&& blank.cursor == Milli(770_000)
            &&& blank.title is None
            &&& blank.author is None
        }),
{
    lemma_quotient(72_000_000, 1000, 72_000);
    let one = Milli::spec_of(1);
    let inch = Milli::spec_of(72);
    assert(one.0 * inch.0 == 72_000_000) by (nonlinear_arith)
        requires
            one.0 == 1_000,
            inch.0 == 72_000,
    ;
    assert(Milli::spec_times(one, inch) == Milli(72_000));
    assert(Sheet::<Milli>::blank().margins.top == Milli(72_000));
}

/// A page on its side is as wide as it is high upright, and as high as it is
/// wide.
pub proof fn law_a_page_on_its_side_is_swapped<N: Points>(sheet: Sheet<N>)
    ensures
        (Sheet { orientation: Orientation::Portrait, ..sheet }).extent()
            == sheet.page_size.extent(),
        (Sheet { orientation: Orientation::Landscape, ..sheet }).extent() == (
            sheet.page_size.extent().1,
            sheet.page_size.extent().0,
        ),
{
}

/// Whether a document is another with texts added: everything that was shown is
/// still shown in front, and the added texts have one size.
pub open spec fn adds_texts<N>(before: Sheet<N>, after: Sheet<N>, font_size: N) -> bool {
    let old_texts = texts_on(before.pages);
    let new_texts = texts_on(after.pages);
    &&& before.pages.len() <= after.pages.len()
    &&& old_texts.len() <= new_texts.len()
    &&& new_texts.take(old_texts.len() as int) == old_texts
    &&& forall|i: int|
        old_texts.len() <= i < new_texts.len() ==> (#[trigger] new_texts[i]).font_size == font_size
    &&& after.title == before.title
    &&& after.author == before.author
    &&& after.margins == before.margins
    &&& after.page_size == before.page_size
    &&& after.orientation == before.orientation
}

proof fn lemma_adding_goes_on<N>(a: Sheet<N>, b: Sheet<N>, c: Sheet<N>, font_size: N)
    requires
        adds_texts(a, b, font_size),
        adds_texts(b, c, font_size),
    ensures
        adds_texts(a, c, font_size),
{
    let first = texts_on(a.pages);
    let second = texts_on(b.pages);
    let third = texts_on(c.pages);
    assert(third.take(first.len() as int) =~= first) by {
        assert(second.take(first.len() as int) =~= third.take(second.len() as int).take(
            first.len() as int,
        ));
        assert(third.take(second.len() as int).take(first.len() as int) =~= third.take(
            first.len() as int,
        ));
    }
    assert forall|i: int| first.len() <= i < third.len() implies (#[trigger] third[i]).font_size
        == font_size by {
        if i < second.len() {
            assert(third.take(second.len() as int)[i] == second[i]);
        }
    }
}

proof fn lemma_a_line_is_added<N: Points>(
    sheet: Sheet<N>,
    line: WrappedLine<N>,
    size: FontSize<N>,
    align: TextAlign,
)
    requires
        sheet.pages.len() > 0,
    ensures
        adds_texts(sheet, sheet.with_text_line(line, size, align), size.size()),
{
    let roomy = sheet.with_room(size.line());
    lemma_room_shows_the_same(sheet, size.line());
    let after = sheet.with_text_line(line, size, align);
    let placed = PlacedText {
        text: line.text,
        x: roomy.aligned_x(line.width, align),
        y: roomy.cursor,
        font_size: size.size(),
    };
    lemma_text_is_last(roomy, placed);
    let old_texts = texts_on(sheet.pages);
    assert(texts_on(after.pages) == old_texts.push(placed));
    assert(old_texts.push(placed).take(old_texts.len() as int) =~= old_texts);
}

proof fn lemma_lines_are_added<N: Points>(
    sheet: Sheet<N>,
    lines: Seq<WrappedLine<N>>,
    size: FontSize<N>,
    align: TextAlign,
)
    requires
        sheet.pages.len() > 0,
    ensures
        adds_texts(sheet, sheet.with_text_lines(lines, size, align), size.size()),
    decreases lines.len(),
{
    if lines.len() == 0 {
        assert(texts_on(sheet.pages).take(texts_on(sheet.pages).len() as int) =~= texts_on(
            sheet.pages,
        ));
    } else {
        let before = sheet.with_text_lines(lines.drop_last(), size, align);
        lemma_lines_are_added(sheet, lines.drop_last(), size, align);
        lemma_a_line_is_added(before, lines.last(), size, align);
        lemma_adding_goes_on(
            sheet,
            before,
            sheet.with_text_lines(lines, size, align),
            size.size(),
        );
    }
}

proof fn lemma_paragraphs_are_added<N: Points>(
    sheet: Sheet<N>,
    paragraphs: Seq<Seq<char>>,
    size: FontSize<N>,
    align: TextAlign,
)
    requires
        sheet.pages.len() > 0,
    ensures
        adds_texts(sheet, sheet.with_paragraphs(paragraphs, size, align), size.size()),
    decreases paragraphs.len(),
{
    if paragraphs.len() == 0 {
        assert(texts_on(sheet.pages).take(texts_on(sheet.pages).len() as int) =~= texts_on(
            sheet.pages,
        ));
    } else {
        let before = sheet.with_paragraphs(paragraphs.drop_last(), size, align);
        lemma_paragraphs_are_added(sheet, paragraphs.drop_last(), size, align);
        let lines = wrapped(words_of(paragraphs.last()), size.size(), sheet.content_width());
        lemma_lines_are_added(before, lines, size, align);
        lemma_adding_goes_on(
            sheet,
            before,
            sheet.with_paragraphs(paragraphs, size, align),
            size.size(),
        );
    }
}

/// A text is added behind what was there, all of it in the size that was asked
/// for, and nothing else of the document changes.
pub proof fn law_a_text_is_added_in_its_size<N: Points>(
    sheet: Sheet<N>,
    text: Seq<char>,
    size: FontSize<N>,
    align: TextAlign,
)
    requires
        sheet.pages.len() > 0,
    ensures
        adds_texts(sheet, sheet.with_wrapped_text(text, size, align), size.size()),
{
    lemma_paragraphs_are_added(sheet, pieces_of(text, '\n'), size, align);
}

proof fn lemma_paragraphs_go_on<N: Points>(
    sheet: Sheet<N>,
    a: Seq<Seq<char>>,
    b: Seq<Seq<char>>,
    size: FontSize<N>,
    align: TextAlign,
)
    requires
        sheet.pages.len() > 0,
    ensures
        sheet.with_paragraphs(a + b, size, align) == sheet.with_paragraphs(
            a,
            size,
            align,
        ).with_paragraphs(b, size, align),
    decreases b.len(),
{
    if b.len() == 0 {
        assert(a + b == a);
    } else {
        lemma_paragraphs_go_on(sheet, a, b.drop_last(), size, align);
        lemma_paragraphs_are_added(sheet, a, size, align);
        assert((a + b).drop_last() == a + b.drop_last());
        assert((a + b).last() == b.last());
    }
}

/// The lines of a text are paragraphs: each is wrapped to the width between the
/// margins on its own, below the one before it.
pub proof fn law_lines_of_a_text_are_paragraphs<N: Points>(
    sheet: Sheet<N>,
    a: Seq<char>,
    b: Seq<char>,
    size: FontSize<N>,
    align: TextAlign,
)
    requires
        sheet.pages.len() > 0,
    ensures
        sheet.with_wrapped_text(a.push('\n') + b, size, align) == sheet.with_wrapped_text(
            a,
            size,
            align,
        ).with_wrapped_text(b, size, align),
        !a.contains('\n') ==> sheet.with_wrapped_text(a, size, align) == sheet.with_text_lines(
            wrapped(
                words_of(a),
                size.size(),
                N::spec_minus(
                    N::spec_minus(sheet.extent().0, sheet.margins.left),
                    sheet.margins.right,
                ),
            ),
            size,
            align,
        ),
{
    law_pieces_of_both_sides(a, b, '\n');
    lemma_paragraphs_go_on(sheet, pieces_of(a, '\n'), pieces_of(b, '\n'), size, align);
    if !a.contains('\n') {
        law_text_without_separator_is_one_piece(a, '\n');
        let one = pieces_of(a, '\n');
        assert(one.drop_last() == Seq::<Seq<char>>::empty());
        assert(sheet.with_paragraphs(one.drop_last(), size, align) == sheet);
        assert(one.last() == a);
    }
}

/// Lines of text come one below the other.
pub proof fn law_lines_come_one_below_the_other<N: Points>(
    sheet: Sheet<N>,
    lines: Seq<WrappedLine<N>>,
    more: WrappedLine<N>,
    size: FontSize<N>,
    align: TextAlign,
)
    ensures
        sheet.with_text_lines(Seq::empty(), size, align) == sheet,
        sheet.with_text_lines(lines.push(more), size, align) == sheet.with_text_lines(
            lines,
            size,
            align,
        ).with_text_line(more, size, align),
{
    assert(lines.push(more).drop_last() == lines);
}

/// Space that is added moves the cursor down by its height, and changes nothing
/// else.
pub proof fn law_space_moves_the_cursor_down<N: Points>(sheet: Sheet<N>, height: N)
    ensures
        sheet.moved_down(height) == (Sheet { cursor: N::spec_minus(sheet.cursor, height), ..sheet }),
        sheet.moved_down(height).pages == sheet.pages,
        sheet.moved_down(height).margins == sheet.margins,
{
}

/// The pages of a builder and the cells of a table are viewed one for one, in
/// order, with everything that is on them.
pub proof fn law_views_of_pages_and_tables<N>(pages: Seq<PageContent<N>>, rows: Seq<Vec<&str>>)
    ensures
        pages_of(pages).len() == pages.len(),
        forall|i: int|
            0 <= i < pages.len() ==> (#[trigger] pages_of(pages)[i]).lines == pages[i].lines@
                && pages_of(pages)[i].texts.len() == pages[i].texts.len(),
        forall|i: int, k: int|
            0 <= i < pages.len() && 0 <= k < pages[i].texts.len() ==> {
                let text = pages[i].texts[k];
                (#[trigger] pages_of(pages)[i].texts[k]) == (PlacedText {
                    text: text.text@,
                    x: text.x,
                    y: text.y,
                    font_size: text.font_size,
                })
            },
        table_of(rows).len() == rows.len(),
        forall|i: int|
            0 <= i < rows.len() ==> (#[trigger] table_of(rows)[i]).len() == rows[i].len(),
        forall|i: int, k: int|
            0 <= i < rows.len() && 0 <= k < rows[i].len() ==> (#[trigger] table_of(rows)[i][k])
                == rows[i][k]@,
{
}

/// A document is built exactly if it does not have too many pages, its size is
/// written in numbers and every character on its pages can be shown.
pub proof fn law_when_a_document_is_built<N: Points>(
    r: FileResult<ProcessingResult>,
    sheet: Sheet<N>,
)
    requires
        is_built(r, sheet),
    ensures
        r is Ok <==> sheet.pages.len() <= 2_147_483_644 && has_size(sheet) && first_bad_on_pages(
            sheet.pages,
        ) is None,
        r matches Ok(result) ==> {
            &&& saved_as(file_of(sheet), true, content(result.data))
            &&& result.metadata.size == content(result.data).len()
            &&& result.metadata.mime_type@ == "application/pdf"@
            &&& texts(result.operations@) == seq!["pdf:generate"@]
        },
        r matches Err(e) ==> e is Pdf,
        r matches Err(FileError::Pdf(text)) ==> {
            &&& sheet.pages.len() > 2_147_483_644 ==> text@ == "too many pages"@
            &&& sheet.pages.len() <= 2_147_483_644 && !has_size(sheet) ==> text@
                == "the page size is not a number"@
            &&& sheet.pages.len() <= 2_147_483_644 && has_size(sheet) ==> (first_bad_on_pages(
                sheet.pages,
            ) matches Some(ch) && text@ == "character "@ + debug_char_text(ch) + " (U+"@ + hex_text(
                (ch as u32) as nat,
                4,
            )
                + ") cannot be encoded in WinAnsiEncoding; the built-in Helvetica font used by PdfBuilder is limited to Latin-1 plus the CP1252 punctuation set"@)
        },
{
}

} // verus!
