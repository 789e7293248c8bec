//! Text helpers shared by the rest of the crate: numerals, splitting into
//! lines and words, and the few string operations that carry a contract.

use vstd::prelude::*;
use vstd::string::*;

verus! {

/// `String::push`: the character is added at the end of the string.
pub assume_specification[ String::push ](s: &mut String, ch: char)
    ensures
        final(s)@ == old(s)@.push(ch),
;

/// What the `Debug` form of a string shows: the quoted and escaped text.
pub uninterp spec fn debug_str_text(s: Seq<char>) -> Seq<char>;

/// What the `Debug` form of a character shows: the quoted and escaped text.
pub uninterp spec fn debug_char_text(c: char) -> Seq<char>;

/// The standard library's `{:?}` of a `str`.  The contract claims that the
/// text depends on the characters of the string and nothing else.
#[verifier::external_body]
pub(crate) fn debug_str(s: &str) -> (r: String)
    ensures
        r@ == debug_str_text(s@),
{
    format!("{:?}", s)
}

/// The standard library's `{:?}` of a `char`.  The contract claims that the
/// text depends on the character and nothing else.
#[verifier::external_body]
pub(crate) fn debug_char(c: char) -> (r: String)
    ensures
        r@ == debug_char_text(c),
{
    format!("{:?}", c)
}

/// The texts of a sequence of strings.
pub open spec fn texts(v: Seq<String>) -> Seq<Seq<char>> {
    Seq::new(v.len(), |i: int| v[i]@)
}

/// The characters of a string, in order.
pub fn chars_of(s: &str) -> (r: Vec<char>)
    ensures
        r@ == s@,
{
    let mut out: Vec<char> = Vec::new();
    for c in it: s.chars()
        invariant
            it.seq() == s@,
            out@ == s@.take(it.index()),
    {
        out.push(c);
    }
    out
}

/// Puts a label in front of a text.
pub(crate) fn labelled(label: &str, text: &str) -> (r: String)
    ensures
        r@ == label@ + text@,
{
    let mut out = label.to_owned();
    out.append(text);
    out
}

/// Whether a text begins with a prefix.
pub open spec fn has_prefix(s: Seq<char>, prefix: Seq<char>) -> bool {
    prefix.len() <= s.len() && s.take(prefix.len() as int) == prefix
}

/// `true` exactly when `s` begins with `prefix`.
pub fn starts_with(s: &str, prefix: &str) -> (r: bool)
    ensures
        r == has_prefix(s@, prefix@),
{
    let s_chars = chars_of(s);
    let p_chars = chars_of(prefix);
    if p_chars.len() > s_chars.len() {
        return false;
    }
    for i in 0..p_chars.len()
        invariant
            s_chars@ == s@,
            p_chars@ == prefix@,
            p_chars.len() <= s_chars.len(),
            s@.take(i as int) == prefix@.take(i as int),
    {
        if s_chars[i] != p_chars[i] {
            assert(s@.take(prefix@.len() as int)[i as int] != prefix@[i as int]);
            return false;
        }
        assert(s@.take(i + 1) == s@.take(i as int).push(s@[i as int]));
        assert(prefix@.take(i + 1) == prefix@.take(i as int).push(prefix@[i as int]));
    }
    assert(prefix@.take(prefix@.len() as int) == prefix@);
    true
}

/// `true` exactly when the two texts are the same.
pub fn equal(a: &str, b: &str) -> (r: bool)
    ensures
        r == (a@ == b@),
{
    let r = starts_with(a, b) && starts_with(b, a);
    assert(a@.take(a@.len() as int) == a@);
    assert(b@.take(b@.len() as int) == b@);
    r
}

/// The decimal digit `d`.
pub open spec fn digit_char(d: nat) -> char
    recommends
        d < 10,
{
    ('0' as int + d) as char
}

/// The decimal numeral of a number, without leading zeros.
pub open spec fn decimal_text(n: nat) -> Seq<char>
    decreases n,
{
    if n < 10 {
        seq![digit_char(n)]
    } else {
        decimal_text(n / 10).push(digit_char(n % 10))
    }
}

/// Whether a text consists of decimal digits, and of at least one.
pub open spec fn are_digits(s: Seq<char>) -> bool {
    s.len() > 0 && forall|i: int| 0 <= i < s.len() ==> '0' <= #[trigger] s[i] <= '9'
}

/// Whether a text consists of a minus sign, if the number is negative, of the
/// digits before the point and, if there are any, of a point and the digits
/// behind it.
pub open spec fn is_decimal(
    s: Seq<char>,
    negative: bool,
    whole: Seq<char>,
    fraction: Seq<char>,
) -> bool {
    let sign = if negative {
        seq!['-']
    } else {
        Seq::empty()
    };
    if fraction.len() == 0 {
        are_digits(whole) && s == sign + whole + fraction
    } else {
        are_digits(whole) && are_digits(fraction) && s == sign + whole + (seq!['.'] + fraction)
    }
}

/// Whether a text is a number in decimal.
pub open spec fn decimal_numeral(s: Seq<char>) -> bool {
    exists|negative: bool, whole: Seq<char>, fraction: Seq<char>|
        is_decimal(s, negative, whole, fraction)
}

fn digit(d: u8) -> (c: char)
    requires
        d < 10,
    ensures
        c == digit_char(d as nat),
{
    (48u8 + d) as char
}

/// Writes a number in decimal.
pub fn decimal(n: u64) -> (r: String)
    ensures
        r@ == decimal_text(n as nat),
    decreases n,
{
    let last = digit((n % 10) as u8);
    let mut out = if n < 10 {
        String::new()
    } else {
        decimal(n / 10)
    };
    out.push(last);
    out
}

/// The upper-case hexadecimal digit `d`.
pub open spec fn hex_char(d: nat) -> char
    recommends
        d < 16,
{
    if d < 10 {
        digit_char(d)
    } else {
        ('A' as int + d - 10) as char
    }
}

/// The upper-case hexadecimal numeral of a number, with at least `width`
/// digits.
pub open spec fn hex_text(n: nat, width: nat) -> Seq<char>
    decreases n, width,
{
    if n < 16 && width <= 1 {
        seq![hex_char(n)]
    } else {
        hex_text(n / 16, if width == 0 { 0 } else { (width - 1) as nat }).push(hex_char(n % 16))
    }
}

fn hex_digit(d: u8) -> (c: char)
    requires
        d < 16,
    ensures
        c == hex_char(d as nat),
{
    if d < 10 {
        digit(d)
    } else {
        (55u8 + d) as char
    }
}

/// Writes a number in upper-case hexadecimal, with at least `width` digits.
pub fn hex(n: u32, width: u32) -> (r: String)
    ensures
        r@ == hex_text(n as nat, width as nat),
    decreases n, width,
{
    let last = hex_digit((n % 16) as u8);
    let mut out = if n < 16 && width <= 1 {
        String::new()
    } else {
        hex(n / 16, if width == 0 { 0 } else { width - 1 })
    };
    out.push(last);
    out
}

/// The characters with the Unicode `White_Space` property.
pub open spec fn is_white(c: char) -> bool {
    let n = c as u32;
    9 <= n <= 13 || n == 32 || n == 0x85 || n == 0xA0 || n == 0x1680 || 0x2000 <= n <= 0x200A || n
        == 0x2028 || n == 0x2029 || n == 0x202F || n == 0x205F || n == 0x3000
}

/// Whether a character has the Unicode `White_Space` property.
pub fn white(c: char) -> (r: bool)
    ensures
        r == is_white(c),
{
    let n: u32 = c as u32;
    (9 <= n && n <= 13) || n == 32 || n == 0x85 || n == 0xA0 || n == 0x1680 || (0x2000 <= n && n
        <= 0x200A) || n == 0x2028 || n == 0x2029 || n == 0x202F || n == 0x205F || n == 0x3000
}

/// The words of a text: its maximal runs of characters that are not white.
pub open spec fn words_of(s: Seq<char>) -> Seq<Seq<char>>
    decreases s.len(),
{
    if s.len() == 0 {
        Seq::empty()
    } else {
        let init = s.drop_last();
        let before = words_of(init);
        if is_white(s.last()) {
            before
        } else if init.len() == 0 || is_white(init.last()) {
            before.push(seq![s.last()])
        } else {
            before.drop_last().push(before.last().push(s.last()))
        }
    }
}

/// The pieces of a text between the occurrences of a separator.  There is
/// always one piece more than there are separators.
pub open spec fn pieces_of(s: Seq<char>, separator: char) -> Seq<Seq<char>>
    decreases s.len(),
{
    if s.len() == 0 {
        seq![Seq::empty()]
    } else {
        let before = pieces_of(s.drop_last(), separator);
        if s.last() == separator {
            before.push(Seq::empty())
        } else {
            before.drop_last().push(before.last().push(s.last()))
        }
    }
}

/// There is at least one piece.
pub proof fn lemma_pieces_not_empty(s: Seq<char>, separator: char)
    ensures
        pieces_of(s, separator).len() >= 1,
    decreases s.len(),
{
    if s.len() > 0 {
        lemma_pieces_not_empty(s.drop_last(), separator);
    }
}

/// Splits a text into its words.
pub fn words(s: &str) -> (r: Vec<String>)
    ensures
        texts(r@) == words_of(s@),
{
    let chars = chars_of(s);
    let mut done: Vec<String> = Vec::new();
    let mut current = String::new();
    for i in 0..chars.len()
        invariant
            chars@ == s@,
            current@.len() == 0 <==> (i == 0 || is_white(s@[i - 1])),
            words_of(s@.take(i as int)) == if current@.len() == 0 {
                texts(done@)
            } else {
                texts(done@).push(current@)
            },
    {
        let c = chars[i];
        let ghost before = s@.take(i as int);
        let ghost done_before = done@;
        assert(s@.take(i + 1).drop_last() == before);
        assert(i > 0 ==> before.last() == s@[i - 1]);
        if white(c) {
            if !current.as_str().is_empty() {
                done.push(current);
                assert(texts(done@) == texts(done_before).push(current@));
                current = String::new();
            }
        } else {
            proof {
                let all = texts(done@).push(current@);
                assert(all.drop_last() == texts(done@));
                assert(current@.push(c) == (if current@.len() == 0 { seq![c] } else { current@.push(c) }));
            }
            current.push(c);
        }
    }
    assert(s@.take(s@.len() as int) == s@);
    if !current.as_str().is_empty() {
        let ghost done_before = done@;
        done.push(current);
        assert(texts(done@) == texts(done_before).push(current@));
    }
    done
}

/// Splits a text at every occurrence of a separator.
pub fn pieces(s: &str, separator: char) -> (r: Vec<String>)
    ensures
        texts(r@) == pieces_of(s@, separator),
{
    let chars = chars_of(s);
    let mut done: Vec<String> = Vec::new();
    let mut current = String::new();
    for i in 0..chars.len()
        invariant
            chars@ == s@,
            pieces_of(s@.take(i as int), separator) == texts(done@).push(current@),
    {
        let c = chars[i];
        let ghost done_before = done@;
        assert(s@.take(i + 1).drop_last() == s@.take(i as int));
        assert(texts(done@).push(current@).drop_last() == texts(done@));
        if c == separator {
            done.push(current);
            assert(texts(done@) == texts(done_before).push(current@));
            current = String::new();
        } else {
            current.push(c);
        }
    }
    assert(s@.take(s@.len() as int) == s@);
    let ghost done_before = done@;
    done.push(current);
    assert(texts(done@) == texts(done_before).push(current@));
    done
}

/// A text with every occurrence of one character replaced by another.
pub open spec fn replaced(s: Seq<char>, from: char, to: char) -> Seq<char> {
    s.map_values(
        |c: char|
            if c == from {
                to
            } else {
                c
            },
    )
}

/// Replaces every occurrence of one character by another.
pub fn replace(s: &str, from: char, to: char) -> (r: String)
    ensures
        r@ == replaced(s@, from, to),
{
    let chars = chars_of(s);
    let mut out = String::new();
    for i in 0..chars.len()
        invariant
            chars@ == s@,
            out@ == replaced(s@, from, to).take(i as int),
    {
        let c = chars[i];
        out.push(
            if c == from {
                to
            } else {
                c
            },
        );
    }
    assert(replaced(s@, from, to).take(s@.len() as int) == replaced(s@, from, to));
    out
}

/// The white characters are the tabulator, the line breaks, the space, and the
/// other spaces of Unicode; no others are.
pub proof fn law_white_characters(c: char)
    ensures
        is_white(c) <==> {
            ||| c == '\t' || c == '\n' || c == '\u{b}' || c == '\u{c}' || c == '\r'
            ||| c == ' ' || c == '\u{85}' || c == '\u{a0}' || c == '\u{1680}'
            ||| '\u{2000}' <= c <= '\u{200a}'
            ||| c == '\u{2028}' || c == '\u{2029}' || c == '\u{202f}' || c == '\u{205f}'
            ||| c == '\u{3000}'
        },
{
}

/// Texts, one behind the other.
pub open spec fn concatenated(parts: Seq<Seq<char>>) -> Seq<char>
    decreases parts.len(),
{
    if parts.len() == 0 {
        Seq::empty()
    } else {
        concatenated(parts.drop_last()) + parts.last()
    }
}

/// Texts, one behind the other, with a separator between each two.
pub open spec fn interleaved(parts: Seq<Seq<char>>, separator: char) -> Seq<char>
    decreases parts.len(),
{
    if parts.len() == 0 {
        Seq::empty()
    } else if parts.len() == 1 {
        parts[0]
    } else {
        interleaved(parts.drop_last(), separator).push(separator) + parts.last()
    }
}

proof fn lemma_words_lose_white(s: Seq<char>)
    ensures
        concatenated(words_of(s)) == s.filter(|c: char| !is_white(c)),
        s.len() > 0 && !is_white(s.last()) ==> words_of(s).len() > 0,
    decreases s.len(),
{
    reveal(Seq::filter);
    let solid = |c: char| !is_white(c);
    if s.len() == 0 {
        assert(concatenated(words_of(s)) == s);
    } else {
        let init = s.drop_last();
        let before = words_of(init);
        let now = words_of(s);
        lemma_words_lose_white(init);
        if !is_white(s.last()) {
            if init.len() == 0 || is_white(init.last()) {
                assert(now.drop_last() == before);
                assert(concatenated(now) == concatenated(before).push(s.last()));
            } else {
                assert(now.drop_last() == before.drop_last());
                assert(concatenated(before) == concatenated(before.drop_last()) + before.last());
                assert(concatenated(now) == concatenated(before).push(s.last()));
            }
        }
        assert(concatenated(now) == s.filter(solid));
    }
}

/// Splitting a text into words loses its white space and nothing else: the
/// words, one behind the other, are the text without the tabulator, the line
/// breaks, the space and the other spaces of Unicode.
pub proof fn law_words_lose_only_white_space(s: Seq<char>)
    ensures
        concatenated(words_of(s)) == s.filter(
            |c: char|
                !(('\t' <= c <= '\r') || c == ' ' || c == '\u{85}' || c == '\u{a0}' || c
                    == '\u{1680}' || ('\u{2000}' <= c <= '\u{200a}') || c == '\u{2028}' || c
                    == '\u{2029}' || c == '\u{202f}' || c == '\u{205f}' || c == '\u{3000}'),
        ),
{
    let listed = |c: char|
        !(('\t' <= c <= '\r') || c == ' ' || c == '\u{85}' || c == '\u{a0}' || c == '\u{1680}' || (
        '\u{2000}' <= c <= '\u{200a}') || c == '\u{2028}' || c == '\u{2029}' || c == '\u{202f}'
            || c == '\u{205f}' || c == '\u{3000}');
    let solid = |c: char| !is_white(c);
    lemma_words_lose_white(s);
    assert forall|c: char| #[trigger] listed(c) == solid(c) by {
        law_white_characters(c);
    }
    assert(listed =~= solid);
}

proof fn lemma_words_are_solid(s: Seq<char>)
    ensures
        forall|i: int, k: int|
            0 <= i < words_of(s).len() && 0 <= k < words_of(s)[i].len() ==> !is_white(
                #[trigger] words_of(s)[i][k],
            ),
        forall|i: int| 0 <= i < words_of(s).len() ==> (#[trigger] words_of(s)[i]).len() > 0,
    decreases s.len(),
{
    if s.len() > 0 {
        let init = s.drop_last();
        lemma_words_are_solid(init);
        lemma_words_lose_white(init);
        let before = words_of(init);
        let now = words_of(s);
        assert forall|i: int| 0 <= i < now.len() implies (#[trigger] now[i]).len() > 0 && forall|
            k: int,
        |
            0 <= k < now[i].len() ==> !is_white(#[trigger] now[i][k]) by {
            if i < before.len() - 1 || is_white(s.last()) {
                assert(now[i] == before[i]);
            } else if !(init.len() == 0 || is_white(init.last())) {
                assert(before[before.len() - 1] == before.last());
                assert(now[i] == before.last().push(s.last()));
            } else if i < before.len() {
                assert(now[i] == before[i]);
            }
        }
    }
}

/// White space separates words, and nothing else does: no word is empty or has
/// white space in it, what stands before and behind a white character is split
/// by itself, and a text without any is a single word.
pub proof fn law_words_are_separated_by_white_space(a: Seq<char>, space: char, b: Seq<char>)
    requires
        ('\t' <= space <= '\r') || space == ' ' || space == '\u{85}' || space == '\u{a0}' || space
            == '\u{1680}' || ('\u{2000}' <= space <= '\u{200a}') || space == '\u{2028}' || space
            == '\u{2029}' || space == '\u{202f}' || space == '\u{205f}' || space == '\u{3000}',
    ensures
        words_of(a.push(space) + b) == words_of(a) + words_of(b),
        forall|i: int| 0 <= i < words_of(a).len() ==> (#[trigger] words_of(a)[i]).len() > 0,
        forall|i: int, k: int|
            0 <= i < words_of(a).len() && 0 <= k < words_of(a)[i].len() ==> !is_white(
                #[trigger] words_of(a)[i][k],
            ),
        a.len() > 0 && (forall|k: int| 0 <= k < a.len() ==> !is_white(#[trigger] a[k]))
            ==> words_of(a) == seq![a],
    decreases a.len() + b.len(),
{
    lemma_words_are_solid(a);
    lemma_words_join(a, space, b);
    if a.len() > 0 && (forall|k: int| 0 <= k < a.len() ==> !is_white(#[trigger] a[k])) {
        lemma_solid_text_is_a_word(a);
    }
}

proof fn lemma_words_join(a: Seq<char>, space: char, b: Seq<char>)
    requires
        is_white(space),
    ensures
        words_of(a.push(space) + b) == words_of(a) + words_of(b),
    decreases b.len(),
{
    let all = a.push(space) + b;
    if b.len() == 0 {
        assert(all.drop_last() == a);
        assert(words_of(b) == Seq::<Seq<char>>::empty());
    } else {
        let init = b.drop_last();
        lemma_words_join(a, space, init);
        lemma_words_lose_white(init);
        assert(all.drop_last() == a.push(space) + init);
        assert(all.last() == b.last());
        if init.len() == 0 {
            assert(all.drop_last().last() == space);
        } else {
            assert(all.drop_last().last() == init.last());
        }
        let front = words_of(a);
        let before = words_of(init);
        if !is_white(b.last()) && !(init.len() == 0 || is_white(init.last())) {
            assert((front + before).drop_last() == front + before.drop_last());
        }
        assert(words_of(all) == front + words_of(b));
    }
}

proof fn lemma_solid_text_is_a_word(s: Seq<char>)
    requires
        s.len() > 0,
        forall|k: int| 0 <= k < s.len() ==> !is_white(#[trigger] s[k]),
    ensures
        words_of(s) == seq![s],
    decreases s.len(),
{
    let init = s.drop_last();
    assert(!is_white(s[s.len() - 1]));
    if init.len() == 0 {
        assert(words_of(init) == Seq::<Seq<char>>::empty());
        assert(s == seq![s.last()]);
    } else {
        assert(!is_white(s[s.len() - 2]));
        lemma_solid_text_is_a_word(init);
        assert(init.push(s.last()) == s);
        assert(seq![init].drop_last().push(init.push(s.last())) =~= seq![s]);
    }
}

/// Splitting a text at a separator loses nothing but the separators: the
/// pieces, with a separator between each two, are the text, and there is no
/// separator in any of them.
pub proof fn law_pieces_lose_only_separators(s: Seq<char>, separator: char)
    ensures
        pieces_of(s, separator).len() >= 1,
        interleaved(pieces_of(s, separator), separator) == s,
        forall|i: int, k: int|
            0 <= i < pieces_of(s, separator).len() && 0 <= k < pieces_of(s, separator)[i].len()
                ==> #[trigger] pieces_of(s, separator)[i][k] != separator,
    decreases s.len(),
{
    let now = pieces_of(s, separator);
    if s.len() == 0 {
        assert(interleaved(now, separator) == s);
    } else {
        let init = s.drop_last();
        law_pieces_lose_only_separators(init, separator);
        let before = pieces_of(init, separator);
        if s.last() == separator {
            assert(now.drop_last() == before);
            assert(interleaved(now, separator) == init.push(separator) + Seq::<char>::empty());
            assert forall|i: int, k: int|
                0 <= i < now.len() && 0 <= k < now[i].len() implies #[trigger] now[i][k]
                != separator by {
                assert(now[i] == before[i]);
            }
        } else {
            assert(now.drop_last() == before.drop_last());
            if before.len() == 1 {
                assert(now[0] == before[0].push(s.last()));
            } else {
                assert(now.last() == before.last().push(s.last()));
            }
            assert(interleaved(now, separator) == interleaved(before, separator).push(s.last()));
            assert forall|i: int, k: int|
                0 <= i < now.len() && 0 <= k < now[i].len() implies #[trigger] now[i][k]
                != separator by {
                if i < before.len() - 1 {
                    assert(now[i] == before[i]);
                } else if k < before.last().len() {
                    assert(now[i][k] == before[i][k]);
                }
            }
        }
    }
}

/// Replacing one character by another changes the places where it stands, and
/// no others.
pub proof fn law_replacing_changes_one_character(s: Seq<char>, from: char, to: char)
    ensures
        replaced(s, from, to).len() == s.len(),
        forall|i: int|
            0 <= i < s.len() && s[i] == from ==> #[trigger] replaced(s, from, to)[i] == to,
        forall|i: int|
            0 <= i < s.len() && s[i] != from ==> #[trigger] replaced(s, from, to)[i] == s[i],
{
}

/// The number that a sequence of digits denotes.
pub open spec fn number_of(digits: Seq<char>, base: nat) -> nat
    decreases digits.len(),
{
    if digits.len() == 0 {
        0
    } else {
        let c = digits.last() as int;
        let digit = if c <= '9' as int {
            c - '0' as int
        } else {
            c - 'A' as int + 10
        };
        (number_of(digits.drop_last(), base) * base + digit) as nat
    }
}

/// A number is written in decimal digits that denote it, without leading
/// zeros.
pub proof fn law_decimal_numerals_denote_the_number(n: nat)
    ensures
        number_of(decimal_text(n), 10) == n,
        are_digits(decimal_text(n)),
        n > 0 ==> decimal_text(n)[0] != '0',
    decreases n,
{
    let text = decimal_text(n);
    if n < 10 {
        assert(text.drop_last() == Seq::<char>::empty());
        assert(number_of(text.drop_last(), 10) == 0);
    } else {
        law_decimal_numerals_denote_the_number(n / 10);
        assert(text.drop_last() == decimal_text(n / 10));
        assert(text[0] == decimal_text(n / 10)[0]);
    }
}

/// A number is written in upper-case hexadecimal digits that denote it, as many
/// as are asked for and no more leading zeros than that takes.
pub proof fn law_hexadecimal_numerals_denote_the_number(n: nat, width: nat)
    ensures
        number_of(hex_text(n, width), 16) == n,
        hex_text(n, width).len() >= width,
        hex_text(n, width).len() >= 1,
        hex_text(n, width).len() > width && hex_text(n, width).len() > 1 ==> hex_text(
            n,
            width,
        )[0] != '0',
        forall|i: int|
            0 <= i < hex_text(n, width).len() ==> ('0' <= #[trigger] hex_text(n, width)[i] <= '9'
                || 'A' <= hex_text(n, width)[i] <= 'F'),
    decreases n, width,
{
    let text = hex_text(n, width);
    if n < 16 && width <= 1 {
        assert(text.drop_last() == Seq::<char>::empty());
        assert(number_of(text.drop_last(), 16) == 0);
    } else {
        let rest = if width == 0 {
            0
        } else {
            (width - 1) as nat
        };
        law_hexadecimal_numerals_denote_the_number(n / 16, rest);
        let front = hex_text(n / 16, rest);
        assert(text.drop_last() == front);
        assert(text[0] == front[0]);
        if front.len() == 1 && width == 0 {
            assert(number_of(front.drop_last(), 16) == 0);
        }
        if front.len() == 1 && width == 1 {
            assert(number_of(front.drop_last(), 16) == 0);
        }
    }
}

/// A text begins with a prefix exactly if it is the prefix with something
/// behind it.
pub proof fn law_a_prefix_comes_first(prefix: Seq<char>, rest: Seq<char>, s: Seq<char>)
    ensures
        has_prefix(prefix + rest, prefix),
        has_prefix(s, prefix) ==> s == prefix + s.skip(prefix.len() as int),
{
    assert((prefix + rest).take(prefix.len() as int) == prefix);
    if has_prefix(s, prefix) {
        assert(s == s.take(prefix.len() as int) + s.skip(prefix.len() as int));
    }
}

/// The pieces on both sides of a separator are those of the whole.
pub proof fn law_pieces_of_both_sides(a: Seq<char>, b: Seq<char>, separator: char)
    ensures
        pieces_of(a.push(separator) + b, separator) == pieces_of(a, separator) + pieces_of(
            b,
            separator,
        ),
    decreases b.len(),
{
    let all = a.push(separator) + b;
    let left = pieces_of(a, separator);
    if b.len() == 0 {
        assert(all.drop_last() == a);
        assert(left.push(Seq::empty()) =~= left + seq![Seq::<char>::empty()]);
    } else {
        law_pieces_of_both_sides(a, b.drop_last(), separator);
        law_pieces_lose_only_separators(b.drop_last(), separator);
        assert(all.drop_last() == a.push(separator) + b.drop_last());
        let right = pieces_of(b.drop_last(), separator);
        assert((left + right).drop_last() == left + right.drop_last());
        assert((left + right).last() == right.last());
        assert(pieces_of(all, separator) =~= left + pieces_of(b, separator));
    }
}

/// A text without a separator in it is a single piece.
pub proof fn law_text_without_separator_is_one_piece(s: Seq<char>, separator: char)
    requires
        !s.contains(separator),
    ensures
        pieces_of(s, separator) == seq![s],
    decreases s.len(),
{
    if s.len() == 0 {
        assert(s == Seq::<char>::empty());
    } else {
        let init = s.drop_last();
        assert(!init.contains(separator)) by {
            if init.contains(separator) {
                let k = init.index_of(separator);
                assert(s[k] == separator);
            }
        }
        law_text_without_separator_is_one_piece(init, separator);
        assert(s.last() == s[s.len() - 1]);
        assert(init.push(s.last()) == s);
        assert(pieces_of(s, separator) =~= seq![s]);
    }
}

/// The texts of strings are those of each, in order.
pub proof fn law_texts_stand_in_order(v: Seq<String>)
    ensures
        texts(v).len() == v.len(),
        forall|i: int| 0 <= i < v.len() ==> #[trigger] texts(v)[i] == v[i]@,
{
}

} // verus!
