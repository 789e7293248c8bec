//! What holds of laying out text, whatever number type is used.

use crate::pdf::builder::has_size;
use crate::pdf::layout::{FontSize, TextAlign};
use crate::pdf::points::{law_milli_is_written_in_decimal, Milli, Points};
use crate::pdf::sheet::{
    filling, lines_of, width_with, wrapped, Page, PlacedText, Sheet, WrappedLine,
};
use crate::text::{is_white, lemma_pieces_not_empty, pieces_of, words_of};
use vstd::prelude::*;

verus! {

/// Whether a text is a single word.
pub open spec fn is_word(s: Seq<char>) -> bool {
    s.len() > 0 && forall|i: int| 0 <= i < s.len() ==> !is_white(#[trigger] s[i])
}

/// Whether every text is a single word.
pub open spec fn are_words(words: Seq<Seq<char>>) -> bool {
    forall|i: int| 0 <= i < words.len() ==> is_word(#[trigger] words[i])
}

/// The words on lines, in order.
pub open spec fn words_on<N>(lines: Seq<WrappedLine<N>>) -> Seq<Seq<char>>
    decreases lines.len(),
{
    if lines.len() == 0 {
        Seq::empty()
    } else {
        words_on(lines.drop_last()) + words_of(lines.last().text)
    }
}

/// The words of a text are words.
pub proof fn lemma_words_are_words(s: Seq<char>)
    ensures
        are_words(words_of(s)),
        s.len() > 0 && !is_white(s.last()) ==> words_of(s).len() > 0,
    decreases s.len(),
{
    if s.len() > 0 {
        let init = s.drop_last();
        lemma_words_are_words(init);
        let before = words_of(init);
        if !is_white(s.last()) && !(init.len() == 0 || is_white(init.last())) {
            assert(is_word(before[before.len() - 1]));
        }
    }
}

/// A word consists of itself.
proof fn lemma_word_alone(w: Seq<char>)
    requires
        is_word(w),
    ensures
        words_of(w) == seq![w],
    decreases w.len(),
{
    let init = w.drop_last();
    assert(!is_white(w[w.len() - 1]));
    if init.len() == 0 {
        assert(words_of(init) == Seq::<Seq<char>>::empty());
        assert(w == seq![w.last()]);
    } else {
        assert(!is_white(w[w.len() - 2]));
        assert(is_word(init));
        lemma_word_alone(init);
        assert(words_of(w) == seq![init].drop_last().push(init.push(w.last())));
        assert(init.push(w.last()) == w);
    }
}

/// A word added behind a space is added to the words.
proof fn lemma_word_added(s: Seq<char>, w: Seq<char>)
    requires
        is_word(w),
    ensures
        words_of(s.push(' ') + w) == words_of(s).push(w),
    decreases w.len(),
{
    let all = s.push(' ') + w;
    let init = w.drop_last();
    assert(all.last() == w.last());
    assert(!is_white(w[w.len() - 1]));
    if init.len() == 0 {
        assert(all.drop_last() == s.push(' '));
        assert(s.push(' ').drop_last() == s);
        assert(words_of(s.push(' ')) == words_of(s));
        assert(w == seq![w.last()]);
    } else {
        assert(!is_white(w[w.len() - 2]));
        assert(is_word(init));
        lemma_word_added(s, init);
        assert(all.drop_last() == s.push(' ') + init);
        assert(all.drop_last().last() == init.last());
        let before = words_of(s).push(init);
        assert(before.drop_last() == words_of(s));
        assert(init.push(w.last()) == w);
    }
}

/// The line that is being filled holds words, and with the full lines it holds
/// all of them.
proof fn lemma_filling_keeps_words<N: Points>(words: Seq<Seq<char>>, font_size: N, max_width: N)
    requires
        are_words(words),
    ensures
        ({
            let f = filling(words, font_size, max_width);
            &&& words_on(f.full) + words_of(f.line.text) == words
            &&& f.line.text.len() == 0 <==> words.len() == 0
            &&& f.line.text.len() == 0 ==> f.full.len() == 0
        }),
    decreases words.len(),
{
    let f = filling(words, font_size, max_width);
    if words.len() == 0 {
        assert(words_on(f.full) + words_of(f.line.text) == words);
    } else {
        let init = words.drop_last();
        let word = words.last();
        let before = filling(init, font_size, max_width);
        assert(are_words(init)) by {
            assert forall|i: int| 0 <= i < init.len() implies is_word(#[trigger] init[i]) by {
                assert(is_word(words[i]));
            }
        }
        assert(is_word(words[words.len() - 1]));
        lemma_filling_keeps_words(init, font_size, max_width);
        lemma_word_alone(word);
        assert(words == init.push(word));
        if before.line.text.len() == 0 {
            assert(words_on(before.full) == Seq::<Seq<char>>::empty());
            assert(words_on(f.full) + words_of(f.line.text) == words);
        } else if N::spec_below(max_width, width_with(before.line, word, font_size)) {
            assert(f.full.drop_last() == before.full);
            assert(words_on(f.full) + words_of(f.line.text) == words);
        } else {
            lemma_word_added(before.line.text, word);
            assert(words_on(f.full) + words_of(f.line.text) == words);
        }
    }
}

/// Wrapping keeps every word of a paragraph, in order and exactly once.
pub proof fn law_wrapping_keeps_every_word<N: Points>(text: Seq<char>, font_size: N, max_width: N)
    ensures
        words_on(wrapped(words_of(text), font_size, max_width)) == words_of(text),
{
    let words = words_of(text);
    lemma_words_are_words(text);
    lemma_filling_keeps_words(words, font_size, max_width);
    let f = filling(words, font_size, max_width);
    if f.line.text.len() > 0 {
        assert(lines_of(f).drop_last() == f.full);
    } else {
        assert(words_on(f.full) + Seq::<Seq<char>>::empty() == words_on(f.full));
    }
}

/// Whether a line holds one word, or was not found too wide.
pub open spec fn fits<N: Points>(line: WrappedLine<N>, max_width: N) -> bool {
    words_of(line.text).len() == 1 || !N::spec_below(max_width, line.width)
}

/// Whether the first word of the next line did not fit on a line.
pub open spec fn is_full<N: Points>(
    line: WrappedLine<N>,
    next: WrappedLine<N>,
    font_size: N,
    max_width: N,
) -> bool {
    N::spec_below(max_width, width_with(line, words_of(next.text)[0], font_size))
}

proof fn lemma_filling_is_greedy<N: Points>(words: Seq<Seq<char>>, font_size: N, max_width: N)
    requires
        are_words(words),
    ensures
        ({
            let f = filling(words, font_size, max_width);
            let lines = f.full.push(f.line);
            &&& words.len() > 0 ==> words_of(f.line.text).len() > 0
            &&& words.len() > 0 ==> forall|i: int|
                0 <= i < lines.len() ==> fits(#[trigger] lines[i], max_width)
            &&& forall|i: int|
                0 <= i < f.full.len() ==> is_full(
                    #[trigger] lines[i],
                    lines[i + 1],
                    font_size,
                    max_width,
                )
        }),
    decreases words.len(),
{
    let f = filling(words, font_size, max_width);
    let lines = f.full.push(f.line);
    if words.len() > 0 {
        let init = words.drop_last();
        let word = words.last();
        let before = filling(init, font_size, max_width);
        let had = before.full.push(before.line);
        assert(are_words(init)) by {
            assert forall|i: int| 0 <= i < init.len() implies is_word(#[trigger] init[i]) by {
                assert(is_word(words[i]));
            }
        }
        assert(is_word(words[words.len() - 1]));
        lemma_filling_is_greedy(init, font_size, max_width);
        lemma_filling_keeps_words(init, font_size, max_width);
        lemma_word_alone(word);
        if before.line.text.len() == 0 {
            assert(lines == seq![f.line]);
        } else if N::spec_below(max_width, width_with(before.line, word, font_size)) {
            assert(f.full == had);
            assert forall|i: int| 0 <= i < lines.len() implies fits(
                #[trigger] lines[i],
                max_width,
            ) by {
                if i < had.len() {
                    assert(lines[i] == had[i]);
                }
            }
            assert forall|i: int| 0 <= i < f.full.len() implies is_full(
                #[trigger] lines[i],
                lines[i + 1],
                font_size,
                max_width,
            ) by {
                if i < before.full.len() {
                    assert(lines[i] == had[i]);
                    assert(lines[i + 1] == had[i + 1]);
                }
            }
        } else {
            lemma_word_added(before.line.text, word);
            assert forall|i: int| 0 <= i < lines.len() implies fits(
                #[trigger] lines[i],
                max_width,
            ) by {
                if i < before.full.len() {
                    assert(lines[i] == had[i]);
                }
            }
            assert forall|i: int| 0 <= i < f.full.len() implies is_full(
                #[trigger] lines[i],
                lines[i + 1],
                font_size,
                max_width,
            ) by {
                assert(lines[i] == had[i]);
                if i + 1 < before.full.len() {
                    assert(lines[i + 1] == had[i + 1]);
                } else {
                    assert(had[i + 1] == before.line);
                    assert(is_full(had[i], had[i + 1], font_size, max_width));
                    assert(words_of(f.line.text)[0] == words_of(before.line.text)[0]);
                }
            }
        }
    }
}

/// No wrapped line is wider than the width it was wrapped to, unless it holds
/// a single word.
pub proof fn law_no_line_overflows<N: Points>(text: Seq<char>, font_size: N, max_width: N)
    ensures
        forall|i: int|
            0 <= i < wrapped(words_of(text), font_size, max_width).len() ==> fits(
                #[trigger] wrapped(words_of(text), font_size, max_width)[i],
                max_width,
            ),
{
    let words = words_of(text);
    lemma_words_are_words(text);
    lemma_filling_is_greedy(words, font_size, max_width);
    lemma_filling_keeps_words(words, font_size, max_width);
}

/// Lines are filled greedily: the first word of every line but the first would
/// not have fitted on the line before.
pub proof fn law_lines_are_filled_greedily<N: Points>(text: Seq<char>, font_size: N, max_width: N)
    ensures
        forall|i: int|
            0 <= i < wrapped(words_of(text), font_size, max_width).len() - 1 ==> is_full(
                #[trigger] wrapped(words_of(text), font_size, max_width)[i],
                wrapped(words_of(text), font_size, max_width)[i + 1],
                font_size,
                max_width,
            ),
{
    let words = words_of(text);
    lemma_words_are_words(text);
    lemma_filling_is_greedy(words, font_size, max_width);
    lemma_filling_keeps_words(words, font_size, max_width);
}

/// The texts on the pages of a document, in order.
pub open spec fn texts_on<N>(pages: Seq<Page<N>>) -> Seq<PlacedText<N>>
    decreases pages.len(),
{
    if pages.len() == 0 {
        Seq::empty()
    } else {
        texts_on(pages.drop_last()) + pages.last().texts
    }
}

/// The characters of placed texts.
pub open spec fn shown<N>(texts: Seq<PlacedText<N>>) -> Seq<Seq<char>> {
    Seq::new(texts.len(), |i: int| texts[i].text)
}

/// The characters of wrapped lines.
pub open spec fn line_texts<N>(lines: Seq<WrappedLine<N>>) -> Seq<Seq<char>> {
    Seq::new(lines.len(), |i: int| lines[i].text)
}

proof fn lemma_line_is_shown<N: Points>(
    sheet: Sheet<N>,
    line: WrappedLine<N>,
    size: FontSize<N>,
    align: TextAlign,
)
    requires
        sheet.pages.len() > 0,
    ensures
        sheet.with_text_line(line, size, align).pages.len() > 0,
        shown(texts_on(sheet.with_text_line(line, size, align).pages)) == shown(
            texts_on(sheet.pages),
        ).push(line.text),
{
    let roomy = sheet.with_room(size.line());
    let page = roomy.pages.last();
    if roomy.pages != sheet.pages {
        assert(roomy.pages.drop_last() == sheet.pages);
        assert(texts_on(roomy.pages) == texts_on(sheet.pages));
    }
    let after = sheet.with_text_line(line, size, align);
    assert(after.pages.drop_last() == roomy.pages.drop_last());
    let op = after.pages.last().texts.last();
    assert(after.pages.last().texts == page.texts.push(op));
    assert(texts_on(after.pages) == texts_on(roomy.pages).push(op));
    assert(shown(texts_on(after.pages)) == shown(texts_on(sheet.pages)).push(line.text));
}

/// Every line of text that is added is shown, in order, behind what was there:
/// starting a new page drops nothing.
pub proof fn law_no_line_is_dropped<N: Points>(
    sheet: Sheet<N>,
    lines: Seq<WrappedLine<N>>,
    size: FontSize<N>,
    align: TextAlign,
)
    requires
        sheet.pages.len() > 0,
    ensures
        sheet.with_text_lines(lines, size, align).pages.len() > 0,
        shown(texts_on(sheet.with_text_lines(lines, size, align).pages)) == shown(
            texts_on(sheet.pages),
        ) + line_texts(lines),
    decreases lines.len(),
{
    if lines.len() == 0 {
        assert(shown(texts_on(sheet.pages)) + line_texts(lines) == shown(texts_on(sheet.pages)));
    } else {
        let init = lines.drop_last();
        law_no_line_is_dropped(sheet, init, size, align);
        lemma_line_is_shown(
            sheet.with_text_lines(init, size, align),
            lines.last(),
            size,
            align,
        );
        assert(line_texts(lines) == line_texts(init).push(lines.last().text));
    }
}

/// The words of several texts, in order.
pub open spec fn words_in(texts: Seq<Seq<char>>) -> Seq<Seq<char>>
    decreases texts.len(),
{
    if texts.len() == 0 {
        Seq::empty()
    } else {
        words_in(texts.drop_last()) + words_of(texts.last())
    }
}

/// The words of two lists of texts come one behind the other.
pub proof fn lemma_words_in_sum(a: Seq<Seq<char>>, b: Seq<Seq<char>>)
    ensures
        words_in(a + b) == words_in(a) + words_in(b),
    decreases b.len(),
{
    if b.len() == 0 {
        assert(a + b == a);
    } else {
        assert((a + b).drop_last() == a + b.drop_last());
        lemma_words_in_sum(a, b.drop_last());
    }
}

proof fn lemma_words_in_lines<N>(lines: Seq<WrappedLine<N>>)
    ensures
        words_in(line_texts(lines)) == words_on(lines),
    decreases lines.len(),
{
    if lines.len() > 0 {
        lemma_words_in_lines(lines.drop_last());
        assert(line_texts(lines).drop_last() == line_texts(lines.drop_last()));
    }
}

/// The last line of a text is what the text ends in.
proof fn lemma_last_line(s: Seq<char>)
    ensures
        ({
            let last = pieces_of(s, '\n').last();
            &&& last.len() > 0 ==> s.len() > 0 && s.last() == last.last()
            &&& last.len() == 0 ==> s.len() == 0 || s.last() == '\n'
        }),
{
}

/// The words of a text are those of its lines.
proof fn lemma_words_of_lines(s: Seq<char>)
    ensures
        words_in(pieces_of(s, '\n')) == words_of(s),
    decreases s.len(),
{
    let now = pieces_of(s, '\n');
    if s.len() == 0 {
        let none = Seq::<Seq<char>>::empty();
        assert(now.drop_last() == none);
        assert(words_in(now.drop_last()) == none);
        assert(words_of(now.last()) == none);
    } else {
        let init = s.drop_last();
        let ch = s.last();
        let before = pieces_of(init, '\n');
        lemma_words_of_lines(init);
        lemma_pieces_not_empty(init, '\n');
        lemma_last_line(init);
        let front = words_in(before.drop_last());
        let last = before.last();
        if ch == '\n' {
            assert(now.drop_last() == before);
            assert(words_of(Seq::<char>::empty()) == Seq::<Seq<char>>::empty());
            assert(words_in(now) == words_in(before) + Seq::<Seq<char>>::empty());
            assert(words_in(now) == words_of(s));
        } else {
            assert(now.drop_last() == before.drop_last());
            assert(last.push(ch).drop_last() == last);
            lemma_words_are_words(last);
            let had = words_of(last);
            if !is_white(ch) && last.len() > 0 && !is_white(last.last()) {
                assert((front + had).drop_last() == front + had.drop_last());
            }
            assert(words_of(s) == front + words_of(last.push(ch)));
        }
    }
}

proof fn lemma_paragraphs_are_shown<N: Points>(
    sheet: Sheet<N>,
    paragraphs: Seq<Seq<char>>,
    size: FontSize<N>,
    align: TextAlign,
)
    requires
        sheet.pages.len() > 0,
    ensures
        sheet.with_paragraphs(paragraphs, size, align).pages.len() > 0,
        words_in(shown(texts_on(sheet.with_paragraphs(paragraphs, size, align).pages)))
            == words_in(shown(texts_on(sheet.pages))) + words_in(paragraphs),
    decreases paragraphs.len(),
{
    if paragraphs.len() > 0 {
        let init = paragraphs.drop_last();
        lemma_paragraphs_are_shown(sheet, init, size, align);
        let before = sheet.with_paragraphs(init, size, align);
        let lines = wrapped(words_of(paragraphs.last()), size.size(), sheet.content_width());
        law_no_line_is_dropped(before, lines, size, align);
        law_wrapping_keeps_every_word(paragraphs.last(), size.size(), sheet.content_width());
        lemma_words_in_sum(shown(texts_on(before.pages)), line_texts(lines));
        lemma_words_in_lines(lines);
    }
}

/// Every word of a text that is added to a document is shown on its pages, in
/// order and exactly once, behind what was there.
pub proof fn law_every_word_is_shown<N: Points>(
    sheet: Sheet<N>,
    text: Seq<char>,
    size: FontSize<N>,
    align: TextAlign,
)
    requires
        sheet.pages.len() > 0,
    ensures
        words_in(shown(texts_on(sheet.with_wrapped_text(text, size, align).pages))) == words_in(
            shown(texts_on(sheet.pages)),
        ) + words_of(text),
        sheet.with_wrapped_text(text, size, align).pages.len() > 0,
{
    lemma_paragraphs_are_shown(sheet, pieces_of(text, '\n'), size, align);
    lemma_words_of_lines(text);
}

/// A layout in thousandths of a point is never refused for its page size.
pub proof fn law_sizes_in_thousandths_are_numbers(sheet: Sheet<Milli>)
    ensures
        has_size(sheet),
{
    law_milli_is_written_in_decimal(sheet.extent().0);
    law_milli_is_written_in_decimal(sheet.extent().1);
}

/// Nothing that is placed reaches into the bottom margin, unless not even an
/// empty page has room for it.
pub proof fn law_bottom_margin_stays_free<N: Points>(sheet: Sheet<N>, height: N)
    ensures
        ({
            let roomy = sheet.with_room(height);
            ||| !N::spec_below(N::spec_minus(roomy.cursor, height), roomy.margins.bottom)
            ||| roomy.cursor == roomy.top() && roomy.pages == sheet.with_page().pages
        }),
{
}

/// Changing the page geometry puts the cursor one top margin below the top of
/// the page, in the orientation that the page then has; and so does a new
/// page.
pub proof fn law_geometry_resets_cursor<N: Points>(sheet: Sheet<N>)
    ensures
        sheet.at_top().cursor == N::spec_minus(sheet.extent().1, sheet.margins.top),
        sheet.with_page().cursor == N::spec_minus(sheet.extent().1, sheet.margins.top),
        sheet.at_top().extent() == sheet.extent(),
        sheet.at_top().pages == sheet.pages,
{
}

} // verus!
