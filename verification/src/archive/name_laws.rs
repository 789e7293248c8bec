//! What member names, read as paths, are made of.

use crate::archive::container::{
    behind_drive, entry_path, is_absolute, name_pieces, names_drive, some_drive, walk,
};
use crate::archive::paths::names_directory;
use crate::text::{
    interleaved, law_pieces_lose_only_separators, law_replacing_changes_one_character, pieces_of,
    replaced,
};
use vstd::prelude::*;

verus! {

/// Pieces that lead to the same place can stand for each other in front of
/// others.
proof fn lemma_walk_goes_on(a: Seq<Seq<char>>, b: Seq<Seq<char>>, more: Seq<Seq<char>>)
    requires
        walk(a) == walk(b),
    ensures
        walk(a + more) == walk(b + more),
    decreases more.len(),
{
    if more.len() == 0 {
        assert(a + more == a);
        assert(b + more == b);
    } else {
        lemma_walk_goes_on(a, b, more.drop_last());
        assert((a + more).drop_last() == a + more.drop_last());
        assert((b + more).drop_last() == b + more.drop_last());
    }
}

/// An empty piece and a dot lead nowhere, wherever they stand.
pub proof fn law_empty_pieces_and_dots_lead_nowhere(
    before: Seq<Seq<char>>,
    piece: Seq<char>,
    after: Seq<Seq<char>>,
)
    requires
        piece == Seq::<char>::empty() || piece == seq!['.'],
    ensures
        walk(before.push(piece) + after) == walk(before + after),
{
    assert(before.push(piece).drop_last() == before);
    lemma_walk_goes_on(before.push(piece), before, after);
}

/// Two dots take the name in front of them back, wherever the two stand; with
/// nothing in front of them there is no path.
pub proof fn law_two_dots_take_a_name_back(
    before: Seq<Seq<char>>,
    name: Seq<char>,
    after: Seq<Seq<char>>,
)
    requires
        name.len() > 0,
        name != seq!['.'],
        name != seq!['.', '.'],
    ensures
        walk(before.push(name).push(seq!['.', '.']) + after) == walk(before + after),
        walk(seq![seq!['.', '.']] + after) is None,
    decreases after.len(),
{
    let there = before.push(name);
    let back = there.push(seq!['.', '.']);
    assert(there.drop_last() == before);
    assert(back.drop_last() == there);
    let dots = seq!['.', '.'];
    assert(dots.len() == 2 && seq!['.'].len() == 1);
    assert(back.last() == dots);
    match walk(before) {
        Some(path) => {
            assert(walk(there) == Some(path.push(name)));
            assert(path.push(name).drop_last() == path);
            assert(walk(back) == Some(path));
        },
        None => {
            assert(walk(there) is None);
        },
    }
    lemma_walk_goes_on(back, before, after);
    let up = seq![seq!['.', '.']];
    if after.len() == 0 {
        assert(up + after == up);
        assert(up.drop_last() == Seq::<Seq<char>>::empty());
        assert(up.last() == seq!['.', '.']);
        assert(up.last().len() == 2);
        assert(seq!['.'].len() == 1);
        assert(walk(up.drop_last()) == Some(Seq::<Seq<char>>::empty()));
    } else {
        law_two_dots_take_a_name_back(before, name, after.drop_last());
        assert((up + after).drop_last() == up + after.drop_last());
    }
}

/// Pieces without two dots among them lead to the path of their names: all of
/// them, in order, and nothing else.
pub proof fn law_names_are_kept_in_order(pieces: Seq<Seq<char>>)
    requires
        forall|i: int| 0 <= i < pieces.len() ==> #[trigger] pieces[i] != seq!['.', '.'],
    ensures
        walk(pieces) == Some(pieces.filter(|p: Seq<char>| p.len() > 0 && p != seq!['.'])),
    decreases pieces.len(),
{
    reveal(Seq::filter);
    if pieces.len() > 0 {
        let init = pieces.drop_last();
        assert forall|i: int| 0 <= i < init.len() implies #[trigger] init[i] != seq!['.', '.'] by {
            assert(init[i] == pieces[i]);
        }
        law_names_are_kept_in_order(init);
        assert(pieces.last() == pieces[pieces.len() - 1]);
    }
}

/// The pieces of a member name hold no separator, and with slashes between them
/// they are the name with its backslashes turned.
pub proof fn law_the_pieces_of_a_name(name: Seq<char>)
    ensures
        forall|i: int, k: int|
            0 <= i < name_pieces(name).len() && 0 <= k < name_pieces(name)[i].len()
                ==> #[trigger] name_pieces(name)[i][k] != '/',
        interleaved(name_pieces(name), '/').len() == name.len(),
        forall|k: int|
            0 <= k < name.len() ==> #[trigger] interleaved(name_pieces(name), '/')[k] == if name[k]
                == '\\' {
                '/'
            } else {
                name[k]
            },
{
    let slashed = replaced(name, '\\', '/');
    law_replacing_changes_one_character(name, '\\', '/');
    law_pieces_lose_only_separators(slashed, '/');
}

/// A drive is a letter of the alphabet, of either case, and a colon.
pub proof fn law_drives_are_letters(name: Seq<char>, letter: char, rest: Seq<char>)
    ensures
        names_drive(name) ==> {
            &&& name.len() >= 2
            &&& (65 <= name[0] as u32 <= 90 || 97 <= name[0] as u32 <= 122)
            &&& name == seq![name[0], ':'] + behind_drive(name)
        },
        !names_drive(name) ==> behind_drive(name) == name,
        65 <= letter as u32 <= 90 || 97 <= letter as u32 <= 122 ==> {
            &&& names_drive(seq![letter, ':'] + rest)
            &&& behind_drive(seq![letter, ':'] + rest) == rest
        },
{
    if names_drive(name) {
        assert(name == seq![name[0], ':'] + name.skip(2));
    }
    let full = seq![letter, ':'] + rest;
    assert(full[0] == letter && full[1] == ':');
    assert(full.skip(2) == rest);
}

/// A name denotes a directory exactly if it ends in a separator, and is absolute
/// exactly if it begins with one; a slash is a separator, and so is a backslash.
pub proof fn law_separators_at_the_ends(name: Seq<char>, rest: Seq<char>)
    ensures
        names_directory(rest.push('/')),
        names_directory(rest.push('\\')),
        names_directory(name) ==> name == name.drop_last().push('/') || name
            == name.drop_last().push('\\'),
        is_absolute(seq!['/'] + rest),
        is_absolute(seq!['\\'] + rest),
        is_absolute(name) ==> name == seq!['/'] + name.drop_first() || name == seq!['\\']
            + name.drop_first(),
{
    if names_directory(name) {
        assert(name == name.drop_last().push(name.last()));
    }
    if is_absolute(name) {
        assert(name == seq![name[0]] + name.drop_first());
    }
}

/// A name that has neither NULs nor drives nor two dots in it, and that is not
/// absolute, stands for its pieces without the empty ones and the dots.
pub proof fn law_tame_names_stand_for_their_pieces(name: Seq<char>)
    requires
        !name.contains('\0'),
        name.len() > 0 ==> name[0] != '/' && name[0] != '\\',
        !name.contains(':'),
        forall|i: int|
            0 <= i < name_pieces(name).len() ==> #[trigger] name_pieces(name)[i] != seq!['.', '.'],
    ensures
        entry_path(name) == Some(
            name_pieces(name).filter(|p: Seq<char>| p.len() > 0 && p != seq!['.']),
        ),
{
    let pieces = name_pieces(name);
    let slashed = replaced(name, '\\', '/');
    law_names_are_kept_in_order(pieces);
    if names_drive(name) {
        assert(name[1] == ':');
    }
    assert(behind_drive(name) == name);
    assert(!slashed.contains(':')) by {
        if slashed.contains(':') {
            let k = slashed.index_of(':');
            assert(name[k] == ':');
        }
    }
    lemma_pieces_hold_no_other(slashed, '/', ':');
    assert(!some_drive(pieces)) by {
        if some_drive(pieces) {
            let i = choose|i: int| 0 <= i < pieces.len() && names_drive(#[trigger] pieces[i]);
            assert(pieces[i][1] == ':');
            assert(pieces[i].contains(':'));
        }
    }
}

/// What a text does not hold, its pieces do not hold.
proof fn lemma_pieces_hold_no_other(s: Seq<char>, separator: char, c: char)
    requires
        !s.contains(c),
    ensures
        forall|i: int|
            0 <= i < pieces_of(s, separator).len() ==> !(#[trigger] pieces_of(
                s,
                separator,
            )[i]).contains(c),
    decreases s.len(),
{
    let now = pieces_of(s, separator);
    if s.len() > 0 {
        let init = s.drop_last();
        assert(!init.contains(c)) by {
            if init.contains(c) {
                let k = init.index_of(c);
                assert(s[k] == c);
            }
        }
        lemma_pieces_hold_no_other(init, separator, c);
        law_pieces_lose_only_separators(init, separator);
        let before = pieces_of(init, separator);
        assert(s.last() == s[s.len() - 1]);
        assert(s.last() != c);
        assert forall|i: int| 0 <= i < now.len() implies !(#[trigger] now[i]).contains(c) by {
            if i < before.len() - 1 || s.last() == separator && i < before.len() {
                assert(now[i] == before[i]);
            } else if s.last() != separator {
                assert(now[i] == before.last().push(s.last()));
                assert(before.last() == before[before.len() - 1]);
                if now[i].contains(c) {
                    let k = now[i].index_of(c);
                    assert(k < before.last().len());
                    assert(before.last()[k] == c);
                }
            }
        }
    }
}

} // verus!
