//! Ready-made documents.

use crate::error::FileResult;
use crate::pdf::builder::{is_built, row_of, table_of, PdfBuilder};
use crate::pdf::laws::{law_every_word_is_shown, shown, texts_on, words_in};
use crate::pdf::layout::{FontSize, TextAlign};
use crate::pdf::page_laws::{
    law_a_line_of_text_is_placed, law_a_new_document_is_blank, law_a_table_keeps_the_title,
    law_a_text_is_added_in_its_size, law_every_cell_is_shown, law_headings_are_shown_in_one_line,
    law_rules_go_from_margin_to_margin, lemma_quotient,
};
use crate::pdf::points::{Milli, Points};
use crate::pdf::sheet::{text_width, Page, PlacedText, Sheet, WrappedLine};
use crate::result::ProcessingResult;
use crate::text::{labelled, words_of};
use vstd::prelude::*;
use vstd::string::*;

verus! {

/// The layout of a simple text document.
pub open spec fn text_sheet<N: Points>(title: Seq<char>, text: Seq<char>) -> Sheet<N> {
    (Sheet { title: Some(title), ..Sheet::<N>::blank() }).with_heading(
        title,
        FontSize::H1,
        TextAlign::Left,
    ).moved_down(N::spec_of(10)).with_wrapped_text(text, FontSize::Normal, TextAlign::Left)
}

/// Creates a simple text document.
pub fn text_document<N: Points>(title: &str, text: &str) -> (r: FileResult<ProcessingResult>)
    ensures
        is_built(r, text_sheet::<N>(title@, text@)),
{
    PdfBuilder::<N>::new().title(title.to_owned()).add_heading(title, FontSize::H1).add_space(
        N::of(10),
    ).add_text(text).build()
}

/// The text of an invoice item: description, quantity and price.
pub open spec fn item_row(item: (&str, &str, &str)) -> Seq<Seq<char>> {
    seq![item.0@, item.1@, item.2@]
}

/// The table of an invoice: a head, the items and the total.
pub open spec fn invoice_rows(items: Seq<(&str, &str, &str)>, total: Seq<char>) -> Seq<
    Seq<Seq<char>>,
> {
    seq![seq!["Description"@, "Qty"@, "Price"@]] + Seq::new(
        items.len(),
        |i: int| item_row(items[i]),
    ) + seq![seq![""@, "Total:"@, total]]
}

/// The layout of an invoice.
pub open spec fn invoice_sheet<N: Points>(
    number: Seq<char>,
    company: Seq<char>,
    items: Seq<(&str, &str, &str)>,
    total: Seq<char>,
) -> Sheet<N> {
    (Sheet { title: Some("Invoice "@ + number), ..Sheet::<N>::blank() }).with_heading(
        "INVOICE"@,
        FontSize::H1,
        TextAlign::Left,
    ).moved_down(N::spec_of(10)).with_wrapped_text(
        "Invoice #: "@ + number,
        FontSize::Normal,
        TextAlign::Left,
    ).with_wrapped_text(
        "From: "@ + company,
        FontSize::Normal,
        TextAlign::Left,
    ).with_rule().moved_down(N::spec_of(10)).with_table(invoice_rows(items, total))
}

fn three<'a>(a: &'a str, b: &'a str, c: &'a str) -> (r: Vec<&'a str>)
    ensures
        row_of(r@) == seq![a@, b@, c@],
{
    let mut row: Vec<&'a str> = Vec::new();
    row.push(a);
    row.push(b);
    row.push(c);
    assert(row_of(row@) =~= seq![a@, b@, c@]);
    row
}

/// Creates an invoice-style document.
pub fn invoice<N: Points>(
    invoice_number: &str,
    company: &str,
    items: &[(&str, &str, &str)],
    total: &str,
) -> (r: FileResult<ProcessingResult>)
    ensures
        is_built(r, invoice_sheet::<N>(invoice_number@, company@, items@, total@)),
{
    let builder = PdfBuilder::<N>::new().title(labelled("Invoice ", invoice_number)).add_heading(
        "INVOICE",
        FontSize::H1,
    ).add_space(N::of(10)).add_text(labelled("Invoice #: ", invoice_number).as_str()).add_text(
        labelled("From: ", company).as_str(),
    ).add_horizontal_line().add_space(N::of(10));

    let ghost middle = Seq::new(items@.len(), |i: int| item_row(items@[i]));
    let mut rows: Vec<Vec<&str>> = Vec::new();
    rows.push(three("Description", "Qty", "Price"));
    let ghost head = seq![seq!["Description"@, "Qty"@, "Price"@]];
    assert(table_of(rows@) =~= head + middle.take(0));
    for i in 0..items.len()
        invariant
            middle == Seq::new(items@.len(), |i: int| item_row(items@[i])),
            table_of(rows@) == head + middle.take(i as int),
    {
        let ghost before = rows@;
        let (desc, qty, price) = items[i];
        rows.push(three(desc, qty, price));
        assert(table_of(rows@) =~= table_of(before).push(item_row(items@[i as int])));
        assert(middle.take(i + 1) =~= middle.take(i as int).push(item_row(items@[i as int])));
    }
    assert(middle.take(middle.len() as int) == middle);
    let ghost before = rows@;
    rows.push(three("", "Total:", total));
    assert(table_of(rows@) =~= table_of(before).push(seq![""@, "Total:"@, total@]));
    assert(table_of(rows@) =~= invoice_rows(items@, total@));
    builder.add_table(rows.as_slice()).build()
}

/// A text document bears its title and shows it as its first text, in the size
/// of a heading; behind it come all words of the text, in order, in normal size.
pub proof fn law_a_text_document_shows_title_and_text<N: Points>(title: Seq<char>, text: Seq<char>)
    ensures
        ({
            let sheet = text_sheet::<N>(title, text);
            let all = texts_on(sheet.pages);
            &&& sheet.title == Some(title)
            &&& sheet.author is None
            &&& all.len() >= 1
            &&& all[0].text == title
            &&& all[0].font_size == N::spec_of(24)
            &&& words_in(shown(all)) == words_of(title) + words_of(text)
            &&& forall|i: int|
                1 <= i < all.len() ==> (#[trigger] all[i]).font_size == N::spec_of(12)
        }),
{
    let named = Sheet { title: Some(title), ..Sheet::<N>::blank() };
    let headed = named.with_heading(title, FontSize::H1, TextAlign::Left);
    let below = headed.moved_down(N::spec_of(10));
    let sheet = text_sheet::<N>(title, text);
    lemma_first_heading(named, title);
    law_every_word_is_shown(below, text, FontSize::Normal, TextAlign::Left);
    law_a_text_is_added_in_its_size(below, text, FontSize::Normal, TextAlign::Left);
    let all = texts_on(sheet.pages);
    assert(all.take(1)[0] == all[0]);
}

/// What a document without texts shows once it has a heading.
proof fn lemma_first_heading<N: Points>(sheet: Sheet<N>, text: Seq<char>)
    requires
        sheet.pages == Sheet::<N>::blank().pages,
    ensures
        ({
            let after = sheet.with_heading(text, FontSize::H1, TextAlign::Left);
            let all = texts_on(after.pages);
            &&& after.pages.len() > 0
            &&& all.len() == 1
            &&& all[0].text == text
            &&& all[0].font_size == N::spec_of(24)
            &&& words_in(shown(all)) == words_of(text)
            &&& after.title == sheet.title
            &&& after.author == sheet.author
            &&& forall|i: int| 0 <= i < after.pages.len() ==> (#[trigger] after.pages[i]).lines.len()
                == 0
        }),
{
    let size = FontSize::<N>::H1;
    let line = WrappedLine { text, width: text_width(text, size.size()) };
    let roomy = sheet.with_room(size.line());
    let none = Seq::<PlacedText<N>>::empty();
    assert(sheet.pages.drop_last() == Seq::<Page<N>>::empty());
    assert(texts_on(sheet.pages.drop_last()) == none);
    assert(texts_on(sheet.pages) == none);
    law_headings_are_shown_in_one_line(sheet, text, size, TextAlign::Left);
    law_a_line_of_text_is_placed(sheet, line, size, TextAlign::Left);
    let after = sheet.with_heading(text, size, TextAlign::Left);
    let all = texts_on(after.pages);
    assert(shown(texts_on(sheet.pages)) == Seq::<Seq<char>>::empty());
    assert(shown(all) == seq![text]);
    assert(all.len() == 1);
    assert(shown(all)[0] == text);
    assert(after.pages.last().texts.len() >= 1);
    assert(all[all.len() - 1] == after.pages.last().texts.last());
    assert(shown(all).drop_last() == Seq::<Seq<char>>::empty());
    assert(words_in(shown(all).drop_last()) == Seq::<Seq<char>>::empty());
    assert(Seq::<Seq<char>>::empty() + words_of(text) == words_of(text));
    assert forall|i: int| 0 <= i < after.pages.len() implies (#[trigger] after.pages[i]).lines.len()
        == 0 by {
        if i < after.pages.len() - 1 {
            assert(after.pages.drop_last()[i] == roomy.pages.drop_last()[i]);
        }
        assert(roomy.pages[i].lines.len() == 0);
    }
}

/// In thousandths of a point, the title of a text document stands at the top left
/// between margins of an inch, and the text follows ten points below it.
pub proof fn law_where_a_text_document_begins(title: Seq<char>, text: Seq<char>)
    ensures
        exists|under: Sheet<Milli>|
            #![trigger under.with_wrapped_text(text, FontSize::Normal, TextAlign::Left)]
            {
                &&& text_sheet::<Milli>(title, text) == under.with_wrapped_text(
                    text,
                    FontSize::Normal,
                    TextAlign::Left,
                )
                &&& under.pages.len() == 1
                &&& under.pages[0].texts == seq![
                    (PlacedText {
                        text: title,
                        x: Milli(72_000),
                        y: Milli(770_000),
                        font_size: Milli(24_000),
                    }),
                ]
                &&& under.pages[0].lines.len() == 0
                &&& under.cursor == Milli(724_000)
                &&& under.margins == Sheet::<Milli>::blank().margins
                &&& under.extent() == (Milli(595_000), Milli(842_000))
            },
{
    law_a_new_document_is_blank();
    let named = Sheet { title: Some(title), ..Sheet::<Milli>::blank() };
    let size = FontSize::<Milli>::H1;
    assert(size.size() == Milli(24_000));
    let half_more = Milli::spec_over(Milli::spec_of(3), Milli::spec_of(2));
    lemma_quotient(3_000_000, 2_000, 1_500);
    assert(half_more == Milli(1_500));
    lemma_quotient(36_000_000, 1_000, 36_000);
    assert(size.size().0 * half_more.0 == 36_000_000) by (nonlinear_arith)
        requires
            size.size().0 == 24_000,
            half_more.0 == 1_500,
    ;
    assert(size.line() == Milli(36_000));
    assert(named.with_room(size.line()) == named);
    let headed = named.with_heading(title, size, TextAlign::Left);
    let under = headed.moved_down(Milli::spec_of(10));
    assert(under.pages.len() == 1);
    assert(under.pages[0].texts == seq![
        (PlacedText {
            text: title,
            x: Milli(72_000),
            y: Milli(770_000),
            font_size: Milli(24_000),
        }),
    ]);
    assert(under.cursor == Milli(724_000));
    assert(text_sheet::<Milli>(title, text) == under.with_wrapped_text(
        text,
        FontSize::Normal,
        TextAlign::Left,
    ));
}

/// The rows of the table of an invoice: the head, every item in order, and the
/// total.
pub proof fn law_rows_of_an_invoice(items: Seq<(&str, &str, &str)>, total: Seq<char>)
    ensures
        ({
            let rows = invoice_rows(items, total);
            &&& rows.len() == items.len() + 2
            &&& rows[0] == seq!["Description"@, "Qty"@, "Price"@]
            &&& forall|i: int|
                0 <= i < items.len() ==> rows[i + 1] == seq![
                    (#[trigger] items[i]).0@,
                    items[i].1@,
                    items[i].2@,
                ]
            &&& rows.last() == seq![""@, "Total:"@, total]
        }),
{
}

/// An invoice is titled by its number.  It shows its heading, its number and the
/// company in words, a rule below them, and ten points below that the table with
/// all its cells.
pub proof fn law_an_invoice_shows_everything<N: Points>(
    number: Seq<char>,
    company: Seq<char>,
    items: Seq<(&str, &str, &str)>,
    total: Seq<char>,
)
    ensures
        ({
            let sheet = invoice_sheet::<N>(number, company, items, total);
            let rows = invoice_rows(items, total);
            &&& sheet.title == Some("Invoice "@ + number)
            &&& sheet.author is None
            &&& exists|above: Sheet<N>|
                #![trigger above.with_table(rows)]
                {
                    &&& sheet == above.with_table(rows)
                    &&& texts_on(above.pages).len() >= 1
                    &&& texts_on(above.pages)[0].text == "INVOICE"@
                    &&& texts_on(above.pages)[0].font_size == N::spec_of(24)
                    &&& words_in(shown(texts_on(above.pages))) == words_of("INVOICE"@) + words_of(
                        "Invoice #: "@ + number,
                    ) + words_of("From: "@ + company)
                    &&& shown(texts_on(sheet.pages)) == shown(texts_on(above.pages))
                        + rows.flatten()
                    &&& above.pages.last().lines.len() >= 1
                    &&& above.cursor == N::spec_minus(
                        N::spec_minus(above.pages.last().lines.last().y1, N::spec_of(10)),
                        N::spec_of(10),
                    )
                }
        }),
{
    let left = TextAlign::Left;
    let named = Sheet { title: Some("Invoice "@ + number), ..Sheet::<N>::blank() };
    let below = named.with_heading("INVOICE"@, FontSize::H1, left).moved_down(N::spec_of(10));
    let numbered = below.with_wrapped_text("Invoice #: "@ + number, FontSize::Normal, left);
    let signed = numbered.with_wrapped_text("From: "@ + company, FontSize::Normal, left);
    let ruled = signed.with_rule();
    let above = ruled.moved_down(N::spec_of(10));
    let rows = invoice_rows(items, total);
    let sheet = invoice_sheet::<N>(number, company, items, total);
    lemma_first_heading(named, "INVOICE"@);
    law_every_word_is_shown(below, "Invoice #: "@ + number, FontSize::Normal, left);
    law_a_text_is_added_in_its_size(below, "Invoice #: "@ + number, FontSize::Normal, left);
    law_every_word_is_shown(numbered, "From: "@ + company, FontSize::Normal, left);
    law_a_text_is_added_in_its_size(numbered, "From: "@ + company, FontSize::Normal, left);
    law_rules_go_from_margin_to_margin(signed);
    assert(texts_on(numbered.pages).take(1)[0] == texts_on(numbered.pages)[0]);
    let had = texts_on(numbered.pages).len() as int;
    assert(texts_on(signed.pages).take(had)[0] == texts_on(signed.pages)[0]);
    assert(rows[0].len() == 3);
    law_every_cell_is_shown(above, rows);
    law_a_table_keeps_the_title(above, rows);
    assert(sheet == above.with_table(rows));
}

} // verus!
