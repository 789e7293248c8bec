//! What holds of building and extracting archives taken together.

use crate::archive::builder::{archive_of, normalized_all, CompressionLevel};
use crate::archive::container::{
    behind_drive, classic_count, ends_in_record, entry_path, finds, first_bytes, has_size, is_absolute,
    name_pieces, names_drive, reads, reads_back, record_start, some_drive, unambiguous, walk,
    zip_names, zip_read, WrittenEntry,
};
use crate::archive::extractor::{
    all_outcome, file_outcome, indexed, models, next_outcome, one_over, read_outcome, refusal,
    target_outcome, unless_refused, ArchiveEntry,
};
use crate::archive::paths::{
    inner_component, joined, lemma_walk_stays_inside, names_directory, stays_inside,
};
use crate::archive::promotion::{
    can_run, conflict, law_promotion_places_all_or_nothing, promoted, start, OutcomeView, PathView,
    Tree,
};
use crate::archive::records::{
    classic_declares, classic_record, declared_count, declares, law_no_record_hides_another, le16,
    le64, record_window, zip64_declares, zip64_record, EOCD64_LEN, LOCATOR_LEN,
};
use crate::text::{decimal_text, lemma_pieces_not_empty, pieces_of, replaced};
use vstd::prelude::*;
use vstd::utf8::encode_utf8;

verus! {

/// The number of bytes in a list of extracted files.
pub open spec fn total_size(files: Seq<(Seq<char>, Seq<u8>)>) -> nat
    decreases files.len(),
{
    if files.len() == 0 {
        0
    } else {
        total_size(files.drop_last()) + files.last().1.len()
    }
}

/// The combined size of everything that an extraction produces stays within
/// the budget, across all entries.
pub proof fn law_budget_is_shared(
    data: Seq<u8>,
    index: nat,
    done: Seq<(Seq<char>, Seq<u8>)>,
    max_entries: usize,
    budget: u64,
)
    ensures
        all_outcome(data, index, done, max_entries, budget) matches Ok(files) ==> total_size(files)
            <= total_size(done) + budget,
    decreases zip_names(data)->Ok_0.len() - index,
{
    if index < zip_names(data)->Ok_0.len() && done.len() < max_entries {
        match target_outcome(data, index) {
            Err(_) => {},
            Ok(None) => law_budget_is_shared(data, index + 1, done, max_entries, budget),
            Ok(Some(path)) => match read_outcome(data, index, joined(path), budget) {
                Err(_) => {},
                Ok(bytes) => {
                    let more = done.push((joined(path), bytes));
                    assert(more.drop_last() == done);
                    law_budget_is_shared(
                        data,
                        index + 1,
                        more,
                        max_entries,
                        (budget - bytes.len()) as u64,
                    );
                },
            },
        }
    }
}

/// No extraction produces more entries than the limit.
pub proof fn law_entry_count_is_capped(
    data: Seq<u8>,
    index: nat,
    done: Seq<(Seq<char>, Seq<u8>)>,
    max_entries: usize,
    budget: u64,
)
    requires
        done.len() <= max_entries,
    ensures
        all_outcome(data, index, done, max_entries, budget) matches Ok(files) ==> files.len()
            <= max_entries,
    decreases zip_names(data)->Ok_0.len() - index,
{
    if index < zip_names(data)->Ok_0.len() && done.len() < max_entries {
        match target_outcome(data, index) {
            Err(_) => {},
            Ok(None) => law_entry_count_is_capped(data, index + 1, done, max_entries, budget),
            Ok(Some(path)) => match read_outcome(data, index, joined(path), budget) {
                Err(_) => {},
                Ok(bytes) => law_entry_count_is_capped(
                    data,
                    index + 1,
                    done.push((joined(path), bytes)),
                    max_entries,
                    (budget - bytes.len()) as u64,
                ),
            },
        }
    }
}

/// Handing the members out one by one and reading each within what is left of
/// the budget gives what extracting all of them into memory gives, step by
/// step.  As many entries as the archive has members are always allowed, once
/// the archive is not refused.
pub proof fn law_stepwise_extraction_agrees(
    data: Seq<u8>,
    index: nat,
    done: Seq<(Seq<char>, Seq<u8>)>,
    max_entries: usize,
    budget: u64,
)
    requires
        zip_names(data)->Ok_0.len() <= max_entries,
        done.len() <= index,
    ensures
        all_outcome(data, index, done, max_entries, budget) == match next_outcome(data, index) {
            Err(text) => Err(text),
            Ok(None) => Ok(done),
            Ok(Some(target)) => match read_outcome(
                data,
                target.index,
                joined(target.path),
                budget,
            ) {
                Err(text) => Err(text),
                Ok(bytes) => all_outcome(
                    data,
                    target.index + 1,
                    done.push((joined(target.path), bytes)),
                    max_entries,
                    (budget - bytes.len()) as u64,
                ),
            },
        },
        next_outcome(data, index) matches Ok(Some(target)) ==> index <= target.index < zip_names(
            data,
        )->Ok_0.len(),
    decreases zip_names(data)->Ok_0.len() - index,
{
    if index < zip_names(data)->Ok_0.len() {
        if target_outcome(data, index) matches Ok(None) {
            law_stepwise_extraction_agrees(data, index + 1, done, max_entries, budget);
        }
    }
}

/// A piece of a text does not hold the separator.
pub proof fn lemma_pieces_hold_no_separator(s: Seq<char>, separator: char)
    ensures
        forall|i: int|
            0 <= i < pieces_of(s, separator).len() ==> !(#[trigger] pieces_of(
                s,
                separator,
            )[i]).contains(separator),
    decreases s.len(),
{
    if s.len() > 0 {
        lemma_pieces_hold_no_separator(s.drop_last(), separator);
        lemma_pieces_not_empty(s.drop_last(), separator);
        let before = pieces_of(s.drop_last(), separator);
        let now = pieces_of(s, separator);
        assert forall|i: int| 0 <= i < now.len() implies !(#[trigger] now[i]).contains(
            separator,
        ) by {
            if s.last() == separator {
                if i < before.len() {
                    assert(now[i] == before[i]);
                }
            } else if i < before.len() - 1 {
                assert(now[i] == before[i]);
            } else {
                let last = before.last();
                assert(!before[before.len() - 1].contains(separator));
                assert(now[i] == last.push(s.last()));
                if now[i].contains(separator) {
                    let k = now[i].index_of(separator);
                    assert(k < last.len() ==> last[k] == separator);
                }
            }
        }
    }
}

/// Backslashes that were replaced by slashes are in no piece.
proof fn lemma_pieces_hold_no_backslash(s: Seq<char>)
    requires
        !s.contains('\\'),
    ensures
        forall|i: int|
            0 <= i < pieces_of(s, '/').len() ==> !(#[trigger] pieces_of(s, '/')[i]).contains('\\'),
    decreases s.len(),
{
    if s.len() > 0 {
        let init = s.drop_last();
        assert(!init.contains('\\')) by {
            if init.contains('\\') {
                let k = init.index_of('\\');
                assert(s[k] == '\\');
            }
        }
        assert(s.last() != '\\') by {
            assert(s.contains(s.last()));
        }
        lemma_pieces_hold_no_backslash(init);
        lemma_pieces_not_empty(init, '/');
        let before = pieces_of(init, '/');
        let now = pieces_of(s, '/');
        assert forall|i: int| 0 <= i < now.len() implies !(#[trigger] now[i]).contains('\\') by {
            if s.last() == '/' {
                if i < before.len() {
                    assert(now[i] == before[i]);
                }
            } else if i < before.len() - 1 {
                assert(now[i] == before[i]);
            } else {
                let last = before.last();
                assert(!before[before.len() - 1].contains('\\'));
                assert(now[i] == last.push(s.last()));
                if now[i].contains('\\') {
                    let k = now[i].index_of('\\');
                    assert(k < last.len() ==> last[k] == '\\');
                }
            }
        }
    }
}

/// A member name is either refused or stands for a path that stays inside the
/// extraction root.
pub proof fn law_entry_path_stays_inside(name: Seq<char>)
    ensures
        entry_path(name) matches Some(path) ==> stays_inside(path),
{
    let rest = behind_drive(name);
    let slashed = replaced(rest, '\\', '/');
    assert(!slashed.contains('\\')) by {
        if slashed.contains('\\') {
            let k = slashed.index_of('\\');
            assert(slashed[k] != '\\');
        }
    }
    lemma_pieces_hold_no_separator(slashed, '/');
    lemma_pieces_hold_no_backslash(slashed);
    if entry_path(name) is Some {
        let pieces = name_pieces(rest);
        assert forall|i: int| 0 <= i < pieces.len() implies !names_drive(#[trigger] pieces[i]) by {
        }
        lemma_walk_stays_inside(pieces);
    }
}

/// How deep pieces lead: `..` leads up, names lead down, and an empty piece and
/// `.` lead nowhere.
pub open spec fn depth(pieces: Seq<Seq<char>>) -> int
    decreases pieces.len(),
{
    if pieces.len() == 0 {
        0
    } else {
        let piece = pieces.last();
        depth(pieces.drop_last()) + if piece.len() == 0 || piece == seq!['.'] {
            0int
        } else if piece == seq!['.', '.'] {
            -1int
        } else {
            1int
        }
    }
}

/// Whether pieces lead above where they start, on the way or in the end.
pub open spec fn climbs_out(pieces: Seq<Seq<char>>) -> bool {
    exists|n: int| 0 <= n <= pieces.len() && depth(#[trigger] pieces.take(n)) < 0
}

proof fn lemma_walk_counts_depth(pieces: Seq<Seq<char>>)
    ensures
        walk(pieces) is None <==> climbs_out(pieces),
        walk(pieces) matches Some(path) ==> path.len() == depth(pieces),
    decreases pieces.len(),
{
    assert(pieces.take(pieces.len() as int) == pieces);
    if pieces.len() == 0 {
        assert forall|n: int| 0 <= n <= pieces.len() implies depth(#[trigger] pieces.take(n))
            >= 0 by {
            assert(pieces.take(n) == pieces);
        }
    } else {
        let init = pieces.drop_last();
        lemma_walk_counts_depth(init);
        assert(forall|n: int|
            0 <= n < pieces.len() ==> #[trigger] pieces.take(n) == init.take(n));
        if climbs_out(init) {
            let n = choose|n: int| 0 <= n <= init.len() && depth(#[trigger] init.take(n)) < 0;
            assert(depth(pieces.take(n)) < 0);
        }
        if climbs_out(pieces) {
            let n = choose|n: int| 0 <= n <= pieces.len() && depth(#[trigger] pieces.take(n)) < 0;
            if n < pieces.len() {
                assert(depth(init.take(n)) < 0);
            }
        }
    }
}

/// A member name is refused exactly if it holds a NUL or if, behind a drive at
/// its front, it is absolute, has a piece that begins with a drive or climbs out
/// of the extraction root.
pub proof fn law_only_unsafe_names_are_refused(name: Seq<char>)
    ensures
        entry_path(name) is None <==> (name.contains('\0') || is_absolute(behind_drive(name))
            || some_drive(name_pieces(behind_drive(name))) || climbs_out(
            name_pieces(behind_drive(name)),
        )),
{
    lemma_walk_counts_depth(name_pieces(behind_drive(name)));
}

/// An archive with an unsafe name among its files is not extracted.
pub proof fn law_an_unsafe_name_stops_extraction(
    data: Seq<u8>,
    unsafe_at: nat,
    index: nat,
    done: Seq<(Seq<char>, Seq<u8>)>,
    max_entries: usize,
    budget: u64,
)
    requires
        index <= unsafe_at < zip_names(data)->Ok_0.len(),
        !names_directory(zip_names(data)->Ok_0[unsafe_at as int]),
        entry_path(zip_names(data)->Ok_0[unsafe_at as int]) is None,
    ensures
        all_outcome(data, index, done, max_entries, budget) is Err,
    decreases zip_names(data)->Ok_0.len() - index,
{
    if done.len() < max_entries {
        match target_outcome(data, index) {
            Err(_) => {},
            Ok(None) => law_an_unsafe_name_stops_extraction(
                data,
                unsafe_at,
                index + 1,
                done,
                max_entries,
                budget,
            ),
            Ok(Some(path)) => match read_outcome(data, index, joined(path), budget) {
                Err(_) => {},
                Ok(bytes) => law_an_unsafe_name_stops_extraction(
                    data,
                    unsafe_at,
                    index + 1,
                    done.push((joined(path), bytes)),
                    max_entries,
                    (budget - bytes.len()) as u64,
                ),
            },
        }
    }
}

/// The indices, from `index` on, of the members that are not directories.
pub open spec fn file_indices(data: Seq<u8>, index: nat) -> Seq<nat>
    decreases zip_names(data)->Ok_0.len() - index,
{
    if index >= zip_names(data)->Ok_0.len() {
        Seq::empty()
    } else if names_directory(zip_names(data)->Ok_0[index as int]) {
        file_indices(data, index + 1)
    } else {
        seq![index] + file_indices(data, index + 1)
    }
}

/// Whether a file is the member at an index: its path is that of the member,
/// and its bytes are all that the member holds, within the budget.
pub open spec fn is_member(
    data: Seq<u8>,
    index: nat,
    budget: int,
    file: (Seq<char>, Seq<u8>),
) -> bool {
    let name = zip_names(data)->Ok_0[index as int];
    &&& 0 <= budget <= u64::MAX
    &&& entry_path(name) is Some
    &&& file.0 == joined(entry_path(name)->0)
    &&& reads(data, index, one_over(budget as u64), file.1)
    &&& file.1.len() <= budget
}

/// Extracting everything takes every member that is not a directory, in the
/// order of the index, and reads each within what the ones before it left of
/// the budget.
pub proof fn law_extraction_is_complete(
    data: Seq<u8>,
    index: nat,
    done: Seq<(Seq<char>, Seq<u8>)>,
    max_entries: usize,
    budget: u64,
)
    ensures
        all_outcome(data, index, done, max_entries, budget) matches Ok(files) ==> {
            let more = file_indices(data, index);
            &&& files.len() == done.len() + more.len()
            &&& files.take(done.len() as int) == done
            &&& forall|k: int|
                0 <= k < more.len() ==> is_member(
                    data,
                    #[trigger] more[k],
                    budget + total_size(done) - total_size(files.take(done.len() + k)),
                    files[done.len() + k],
                )
        },
    decreases zip_names(data)->Ok_0.len() - index,
{
    let outcome = all_outcome(data, index, done, max_entries, budget);
    let more = file_indices(data, index);
    if outcome is Ok {
        let files = outcome->Ok_0;
        if index >= zip_names(data)->Ok_0.len() {
            assert(files.take(done.len() as int) == done);
        } else {
            match target_outcome(data, index) {
                Err(_) => {},
                Ok(None) => {
                    law_extraction_is_complete(data, index + 1, done, max_entries, budget);
                },
                Ok(Some(path)) => {
                    let bytes = read_outcome(data, index, joined(path), budget)->Ok_0;
                    let file = (joined(path), bytes);
                    let next = done.push(file);
                    let left = (budget - bytes.len()) as u64;
                    law_extraction_is_complete(data, index + 1, next, max_entries, left);
                    let rest = file_indices(data, index + 1);
                    assert(more == seq![index] + rest);
                    assert(next.drop_last() == done);
                    assert(files.take(done.len() as int) == done) by {
                        assert(files.take(next.len() as int).take(done.len() as int) == files.take(
                            done.len() as int,
                        ));
                        assert(next.take(done.len() as int) == done);
                    }
                    assert(files[done.len() as int] == file) by {
                        assert(files.take(next.len() as int)[done.len() as int] == file);
                    }
                    assert forall|k: int| 0 <= k < more.len() implies is_member(
                        data,
                        #[trigger] more[k],
                        budget + total_size(done) - total_size(files.take(done.len() + k)),
                        files[done.len() + k],
                    ) by {
                        if k > 0 {
                            assert(more[k] == rest[k - 1]);
                            assert(next.len() + (k - 1) == done.len() + k);
                        }
                    }
                },
            }
        }
    }
}

/// An archive that is not refused at first is not refused later, when its
/// index is at hand, under the same limits.
pub proof fn law_index_changes_no_answer(data: Seq<u8>, max_entries: usize, max_archive_bytes: u64)
    requires
        refusal(data, false, max_entries, max_archive_bytes) is None,
    ensures
        indexed(data, false, max_entries, max_archive_bytes),
        refusal(data, true, max_entries, max_archive_bytes) is None,
{
}

/// A limit on the number of entries that an archive exceeds is enforced
/// whether or not its index is at hand.
pub proof fn law_entry_limit_always_applies(
    data: Seq<u8>,
    cached: bool,
    max_entries: usize,
    max_archive_bytes: u64,
)
    requires
        zip_names(data) is Ok,
        zip_names(data)->Ok_0.len() > max_entries,
    ensures
        refusal(data, cached, max_entries, max_archive_bytes) is Some,
{
}

/// With an index at hand, an archive is refused exactly if it has more members
/// than the limit; otherwise the operation goes on as it is.
pub proof fn law_an_index_at_hand_is_held_to_the_limit<V>(
    data: Seq<u8>,
    max_entries: usize,
    max_archive_bytes: u64,
    outcome: Result<V, Seq<char>>,
)
    requires
        zip_names(data) is Ok,
    ensures
        zip_names(data)->Ok_0.len() > max_entries ==> unless_refused(
            refusal(data, true, max_entries, max_archive_bytes),
            outcome,
        ) is Err,
        zip_names(data)->Ok_0.len() <= max_entries ==> unless_refused(
            refusal(data, true, max_entries, max_archive_bytes),
            outcome,
        ) == outcome,
{
}

/// The number of members that the end records at the end of a container declare
/// within reach of the comment: a Zip64 record may be pushed out of reach by a
/// comment of nearly full length.
pub open spec fn visible_count(count: nat, comment_len: nat) -> nat {
    if comment_len + LOCATOR_LEN + EOCD64_LEN <= 0xFFFF {
        count
    } else {
        classic_count(count)
    }
}

/// An archive that ends in the records of `count` members declares at least
/// that many, whatever its comment holds.  So a limit below `count` refuses it
/// before it is opened.
pub proof fn law_declared_count_cannot_be_understated(
    data: Seq<u8>,
    count: nat,
    comment_len: nat,
    max_entries: usize,
    max_archive_bytes: u64,
)
    requires
        ends_in_record(data, count, comment_len),
        visible_count(count, comment_len) > max_entries,
        data.len() <= max_archive_bytes,
    ensures
        declared_count(data) is Some,
        declared_count(data)->0 >= visible_count(count, comment_len),
        refusal(data, false, max_entries, max_archive_bytes) == Some(
            "archive declares "@ + decimal_text(declared_count(data)->0 as nat)
                + " entries, exceeding the limit of "@ + decimal_text(max_entries as nat),
        ),
        !indexed(data, false, max_entries, max_archive_bytes),
{
    let tail = record_window(data);
    let at = record_start(data, comment_len);
    let shift = data.len() - tail.len();
    let here = at - shift;
    assert(comment_len <= 0xFFFF);
    assert(forall|i: int| 0 <= i < tail.len() ==> #[trigger] tail[i] == data[i + shift]);
    if visible_count(count, comment_len) <= 0xFFFF {
        assert(classic_record(tail, here));
        assert(le16(tail, here + 10) == classic_count(count));
        assert(classic_declares(tail, tail.len() as int, classic_count(count)));
        assert(declares(data, classic_count(count)));
        law_no_record_hides_another(data, classic_count(count));
    } else {
        let there = here - LOCATOR_LEN - EOCD64_LEN;
        assert(zip64_record(tail, there));
        assert(le64(tail, there + 32) == count);
        assert(zip64_declares(tail, tail.len() as int, count));
        assert(declares(data, count));
        law_no_record_hides_another(data, count);
    }
}

/// An archive that was built of more files than a limit allows is refused
/// under that limit before it is opened, whatever comment it was given.
pub proof fn law_built_archives_cannot_exceed_the_limit(
    data: Seq<u8>,
    files: Seq<WrittenEntry>,
    comment: Seq<char>,
    max_entries: usize,
    max_archive_bytes: u64,
)
    requires
        archive_of(data, files, comment),
        visible_count(files.len(), encode_utf8(comment).len()) > max_entries,
        data.len() <= max_archive_bytes,
    ensures
        refusal(data, false, max_entries, max_archive_bytes) is Some,
        !indexed(data, false, max_entries, max_archive_bytes),
{
    law_declared_count_cannot_be_understated(
        data,
        files.len(),
        encode_utf8(comment).len(),
        max_entries,
        max_archive_bytes,
    );
}

/// Without a comment, nothing in a container can be taken for one of its end
/// records, unless it just reaches a limit of the classic format.
pub proof fn law_archives_without_comment_are_unambiguous(data: Seq<u8>, count: nat)
    requires
        ends_in_record(data, count, 0),
        count > 0xFFFF || (count < 0xFFFF && data.len() < 0xFFFF_FFFF),
    ensures
        unambiguous(data, count, 0),
{
}

/// A file that was put into an archive comes out of it unchanged when it is
/// extracted by name, provided that it fits the budget; otherwise it is
/// refused.
pub proof fn law_round_trip_by_name(
    data: Seq<u8>,
    files: Seq<WrittenEntry>,
    comment: Seq<char>,
    i: int,
    budget: u64,
)
    requires
        archive_of(data, files, comment),
        unambiguous(data, files.len(), encode_utf8(comment).len()),
        0 <= i < files.len(),
        files[i].data.len() <= u64::MAX,
    ensures
        zip_names(data) == Ok::<Seq<Seq<char>>, Seq<char>>(
            Seq::new(files.len(), |k: int| files[k].name),
        ),
        files[i].data.len() <= budget ==> file_outcome(data, files[i].name, budget) == Ok::<
            Seq<u8>,
            Seq<char>,
        >(files[i].data),
        files[i].data.len() > budget ==> file_outcome(data, files[i].name, budget) is Err,
{
    assert(finds(data, files[i].name, i as nat));
    lemma_read_back(data, files, i, files[i].name, budget);
}

/// Reading a member of an archive that reads back gives its bytes, if they fit
/// the budget.
proof fn lemma_read_back(
    data: Seq<u8>,
    files: Seq<WrittenEntry>,
    i: int,
    name: Seq<char>,
    budget: u64,
)
    requires
        reads_back(data, files),
        0 <= i < files.len(),
        files[i].data.len() <= u64::MAX,
    ensures
        files[i].data.len() <= budget ==> read_outcome(data, i as nat, name, budget) == Ok::<
            Seq<u8>,
            Seq<char>,
        >(files[i].data),
        files[i].data.len() > budget ==> read_outcome(data, i as nat, name, budget) is Err,
{
    assert(has_size(data, i as nat, files[i].data.len() as u64));
    assert(reads(
        data,
        i as nat,
        one_over(budget),
        first_bytes(files[i].data, one_over(budget)),
    )) by {
        let _ = zip_read(data, i as nat, one_over(budget));
    }
}

/// Whether a member name is written the way its path is: nothing in it is
/// skipped or taken back, and it does not denote a directory.
pub open spec fn is_canonical(name: Seq<char>) -> bool {
    &&& !names_directory(name)
    &&& entry_path(name) is Some
    &&& joined(entry_path(name)->0) == name
}

/// Joining the pieces of a path gives the path back, as long as only the last
/// piece may be empty.
proof fn lemma_join_pieces(s: Seq<char>)
    requires
        forall|i: int|
            0 <= i < pieces_of(s, '/').len() - 1 ==> (#[trigger] pieces_of(s, '/')[i]).len() > 0,
    ensures
        joined(pieces_of(s, '/')) == s,
    decreases s.len(),
{
    let now = pieces_of(s, '/');
    if s.len() == 0 {
        assert(now == seq![Seq::<char>::empty()]);
        assert(now.drop_last() == Seq::<Seq<char>>::empty());
        assert(joined(now.drop_last()) == Seq::<char>::empty());
        assert(joined(now) == s);
    } else {
        let init = s.drop_last();
        let before = pieces_of(init, '/');
        lemma_pieces_not_empty(init, '/');
        lemma_pieces_hold_no_separator(init, '/');
        assert forall|i: int| 0 <= i < before.len() - 1 implies (#[trigger] before[i]).len()
            > 0 by {
            assert(now[i] == before[i]);
        }
        lemma_join_pieces(init);
        if s.last() == '/' {
            assert(now.drop_last() == before);
            assert(now[before.len() - 1] == before.last());
            lemma_last_piece(init);
            assert(joined(now) == init.push('/') + Seq::<char>::empty());
            assert(joined(now) == s);
        } else {
            assert(now.drop_last() == before.drop_last());
            assert(now.last() == before.last().push(s.last()));
            let front = joined(before.drop_last());
            assert(s == init.push(s.last()));
            if front.len() == 0 || front.last() == '/' {
                assert(init == front + before.last());
            } else {
                assert(init == front.push('/') + before.last());
            }
            assert(joined(now) == s);
        }
    }
}

/// A path whose last piece is not empty does not end in a slash.
proof fn lemma_last_piece(s: Seq<char>)
    ensures
        pieces_of(s, '/').last().len() > 0 ==> s.len() > 0 && s.last() != '/',
{
}

/// Walking pieces none of which is skipped or taken back gives those pieces.
proof fn lemma_walk_keeps(pieces: Seq<Seq<char>>)
    requires
        stays_inside(pieces),
    ensures
        walk(pieces) == Some(pieces),
    decreases pieces.len(),
{
    if pieces.len() > 0 {
        assert forall|i: int| 0 <= i < pieces.drop_last().len() implies inner_component(
            #[trigger] pieces.drop_last()[i],
        ) by {
            assert(pieces.drop_last()[i] == pieces[i]);
        }
        lemma_walk_keeps(pieces.drop_last());
        assert(inner_component(pieces[pieces.len() - 1]));
        assert(pieces.drop_last().push(pieces.last()) == pieces);
    } else {
        assert(pieces == Seq::<Seq<char>>::empty());
    }
}

/// A text that begins with a separator has an empty first piece.
proof fn lemma_first_piece(s: Seq<char>, separator: char)
    ensures
        s.len() > 0 && s[0] == separator ==> pieces_of(s, separator)[0].len() == 0,
    decreases s.len(),
{
    if s.len() > 0 {
        let init = s.drop_last();
        lemma_pieces_not_empty(init, separator);
        lemma_first_piece(init, separator);
        if s[0] == separator {
            if init.len() == 0 {
                assert(pieces_of(init, separator) == seq![Seq::<char>::empty()]);
            } else {
                assert(init[0] == separator);
                assert(pieces_of(init, separator).len() > 1) by {
                    lemma_separator_splits(init, separator);
                }
            }
        }
    }
}

/// A text that begins with a separator has at least two pieces.
proof fn lemma_separator_splits(s: Seq<char>, separator: char)
    requires
        s.len() > 0,
        s[0] == separator,
    ensures
        pieces_of(s, separator).len() > 1,
    decreases s.len(),
{
    let init = s.drop_last();
    lemma_pieces_not_empty(init, separator);
    if init.len() > 0 {
        lemma_separator_splits(init, separator);
    }
}

/// The drive that a name begins with is in its first piece.
proof fn lemma_drive_in_first_piece(s: Seq<char>)
    ensures
        names_drive(s) ==> names_drive(pieces_of(s, '/')[0]),
    decreases s.len(),
{
    if names_drive(s) {
        let init = s.drop_last();
        lemma_pieces_not_empty(init, '/');
        if s.len() == 2 {
            let none = Seq::<char>::empty();
            assert(init.drop_last() == none);
            assert(pieces_of(none, '/') == seq![none]);
            assert(pieces_of(init, '/') == seq![none.push(s[0])]);
            assert(pieces_of(s, '/') == seq![none.push(s[0]).push(s[1])]);
        } else {
            assert(names_drive(init));
            lemma_drive_in_first_piece(init);
        }
    }
}

/// Whether a name is an ordinary relative one: its pieces, between slashes, are
/// all names.
pub open spec fn is_ordinary(name: Seq<char>) -> bool {
    &&& !name.contains('\0')
    &&& !name.contains('\\')
    &&& stays_inside(pieces_of(name, '/'))
}

/// An ordinary relative name is extracted under that very name.
pub proof fn law_ordinary_names_are_canonical(name: Seq<char>)
    requires
        is_ordinary(name),
    ensures
        is_canonical(name),
{
    let pieces = pieces_of(name, '/');
    lemma_pieces_not_empty(name, '/');
    lemma_walk_keeps(pieces);
    assert(inner_component(pieces[0]));
    assert(inner_component(pieces[pieces.len() - 1]));
    lemma_first_piece(name, '/');
    lemma_drive_in_first_piece(name);
    lemma_last_piece(name);
    assert(name.len() > 0);
    assert(name.contains(name[0]));
    assert(name.contains(name.last()));
    assert(replaced(name, '\\', '/') == name) by {
        assert forall|i: int| 0 <= i < name.len() implies name[i] != '\\' by {
            assert(name.contains(name[i]));
        }
    }
    lemma_join_pieces(name);
}

/// The paths and bytes of the entries.
pub open spec fn contents(files: Seq<WrittenEntry>) -> Seq<(Seq<char>, Seq<u8>)> {
    Seq::new(files.len(), |i: int| (files[i].name, files[i].data))
}

/// Everything that was put into an archive comes out of it unchanged and in
/// order when all of it is extracted, provided that it fits the limits.
pub proof fn law_round_trip_all(
    data: Seq<u8>,
    files: Seq<WrittenEntry>,
    comment: Seq<char>,
    max_entries: usize,
    budget: u64,
)
    requires
        archive_of(data, files, comment),
        unambiguous(data, files.len(), encode_utf8(comment).len()),
        forall|i: int| 0 <= i < files.len() ==> is_canonical((#[trigger] files[i]).name),
        files.len() <= max_entries,
        total_size(contents(files)) <= budget,
    ensures
        all_outcome(data, 0, Seq::empty(), max_entries, budget) == Ok::<_, Seq<char>>(
            contents(files),
        ),
{
    assert(contents(files).take(0) == Seq::<(Seq<char>, Seq<u8>)>::empty());
    lemma_round_trip_from(data, files, 0, max_entries, budget, budget);
}

proof fn lemma_total_size_of_take(files: Seq<(Seq<char>, Seq<u8>)>, n: int)
    requires
        0 <= n <= files.len(),
    ensures
        total_size(files.take(n)) <= total_size(files),
    decreases files.len() - n,
{
    if n < files.len() {
        assert(files.take(n + 1).drop_last() == files.take(n));
        lemma_total_size_of_take(files, n + 1);
    } else {
        assert(files.take(n) == files);
    }
}

proof fn lemma_round_trip_from(
    data: Seq<u8>,
    files: Seq<WrittenEntry>,
    index: nat,
    max_entries: usize,
    budget: u64,
    left: u64,
)
    requires
        reads_back(data, files),
        forall|i: int| 0 <= i < files.len() ==> is_canonical((#[trigger] files[i]).name),
        files.len() <= max_entries,
        index <= files.len(),
        total_size(contents(files)) <= budget,
        left == budget - total_size(contents(files).take(index as int)),
    ensures
        all_outcome(
            data,
            index,
            contents(files).take(index as int),
            max_entries,
            left,
        ) == Ok::<_, Seq<char>>(contents(files)),
    decreases files.len() - index,
{
    let all = contents(files);
    let done = all.take(index as int);
    assert(zip_names(data)->Ok_0.len() == files.len());
    if index == files.len() {
        assert(done == all);
    } else {
        let i = index as int;
        assert(zip_names(data)->Ok_0[i] == files[i].name);
        assert(is_canonical(files[i].name));
        assert(all.take(i + 1) == done.push(all[i]));
        assert(all.take(i + 1).drop_last() == done);
        lemma_total_size_of_take(all, i + 1);
        assert(has_size(data, index, files[i].data.len() as u64));
        lemma_read_back(data, files, i, joined(entry_path(files[i].name)->0), left);
        lemma_round_trip_from(
            data,
            files,
            index + 1,
            max_entries,
            budget,
            (left - files[i].data.len()) as u64,
        );
    }
}

/// Everything that was put into an archive under ordinary names comes out of it
/// unchanged and in order, at every compression level, provided that the
/// archive and its contents fit the limits; and no matter whether its index is
/// at hand.
pub proof fn law_round_trip_of_entries(
    data: Seq<u8>,
    entries: Seq<ArchiveEntry>,
    level: CompressionLevel,
    comment: Seq<char>,
    cached: bool,
    max_entries: usize,
    max_archive_bytes: u64,
    budget: u64,
)
    requires
        archive_of(data, normalized_all(entries, level), comment),
        unambiguous(data, entries.len(), encode_utf8(comment).len()),
        forall|i: int| 0 <= i < entries.len() ==> is_ordinary((#[trigger] entries[i]).path@),
        data.len() <= max_archive_bytes,
        declared_count(data) matches Some(declared) ==> declared <= max_entries,
        entries.len() <= max_entries,
        total_size(models(entries)) <= budget,
    ensures
        unless_refused(
            refusal(data, cached, max_entries, max_archive_bytes),
            all_outcome(data, 0, Seq::empty(), max_entries, budget),
        ) == Ok::<_, Seq<char>>(models(entries)),
{
    let files = normalized_all(entries, level);
    assert forall|i: int| 0 <= i < entries.len() implies is_canonical((#[trigger] files[i]).name)
        && files[i].name == entries[i].path@ by {
        let name = entries[i].path@;
        law_ordinary_names_are_canonical(name);
        assert(replaced(name, '\\', '/') == name) by {
            assert forall|k: int| 0 <= k < name.len() implies name[k] != '\\' by {
                assert(name.contains(name[k]));
            }
        }
    }
    assert(contents(files) == models(entries));
    law_round_trip_all(data, files, comment, max_entries, budget);
}

/// What handing out the members from `index` on and reading each of them gives,
/// after `done` and with `budget` bytes left: the path and the bytes of each, in
/// order.
pub open spec fn staged_outcome(
    data: Seq<u8>,
    index: nat,
    done: Seq<(PathView, Seq<u8>)>,
    budget: u64,
) -> Result<Seq<(PathView, Seq<u8>)>, Seq<char>>
    decreases zip_names(data)->Ok_0.len() - index,
{
    if index >= zip_names(data)->Ok_0.len() {
        Ok(done)
    } else {
        match target_outcome(data, index) {
            Err(text) => Err(text),
            Ok(None) => staged_outcome(data, index + 1, done, budget),
            Ok(Some(path)) => match read_outcome(data, index, joined(path), budget) {
                Err(text) => Err(text),
                Ok(bytes) => staged_outcome(
                    data,
                    index + 1,
                    done.push((path, bytes)),
                    (budget - bytes.len()) as u64,
                ),
            },
        }
    }
}

/// Files with their paths written out.
pub open spec fn written_out(files: Seq<(PathView, Seq<u8>)>) -> Seq<(Seq<char>, Seq<u8>)> {
    Seq::new(files.len(), |i: int| (joined(files[i].0), files[i].1))
}

/// The paths of files.
pub open spec fn staged_paths(files: Seq<(PathView, Seq<u8>)>) -> Seq<PathView> {
    Seq::new(files.len(), |i: int| files[i].0)
}

/// What is staged goes step by step: the next member that is handed out is read
/// within what is left of the budget and staged under its path, and so on behind
/// it.
pub proof fn law_staging_goes_step_by_step(
    data: Seq<u8>,
    index: nat,
    done: Seq<(PathView, Seq<u8>)>,
    budget: u64,
)
    ensures
        staged_outcome(data, index, done, budget) == match next_outcome(data, index) {
            Err(text) => Err(text),
            Ok(None) => Ok(done),
            Ok(Some(target)) => match read_outcome(
                data,
                target.index,
                joined(target.path),
                budget,
            ) {
                Err(text) => Err(text),
                Ok(bytes) => staged_outcome(
                    data,
                    target.index + 1,
                    done.push((target.path, bytes)),
                    (budget - bytes.len()) as u64,
                ),
            },
        },
    decreases zip_names(data)->Ok_0.len() - index,
{
    if index < zip_names(data)->Ok_0.len() {
        if target_outcome(data, index) matches Ok(None) {
            law_staging_goes_step_by_step(data, index + 1, done, budget);
        }
    }
}

/// What is staged is what extraction into memory gives, with the paths written
/// out.  As many entries as the archive has members are always allowed, once the
/// archive is not refused.
pub proof fn law_staging_agrees_with_extraction(
    data: Seq<u8>,
    index: nat,
    done: Seq<(PathView, Seq<u8>)>,
    max_entries: usize,
    budget: u64,
)
    requires
        zip_names(data)->Ok_0.len() <= max_entries,
        done.len() <= index,
    ensures
        all_outcome(data, index, written_out(done), max_entries, budget) == match staged_outcome(
            data,
            index,
            done,
            budget,
        ) {
            Err(text) => Err(text),
            Ok(files) => Ok(written_out(files)),
        },
    decreases zip_names(data)->Ok_0.len() - index,
{
    if index < zip_names(data)->Ok_0.len() {
        match target_outcome(data, index) {
            Err(_) => {},
            Ok(None) => law_staging_agrees_with_extraction(
                data,
                index + 1,
                done,
                max_entries,
                budget,
            ),
            Ok(Some(path)) => match read_outcome(data, index, joined(path), budget) {
                Err(_) => {},
                Ok(bytes) => {
                    let more = done.push((path, bytes));
                    assert(written_out(more) == written_out(done).push((joined(path), bytes)));
                    law_staging_agrees_with_extraction(
                        data,
                        index + 1,
                        more,
                        max_entries,
                        (budget - bytes.len()) as u64,
                    );
                },
            },
        }
    }
}

/// What is staged stands under the paths of the members, in order.
proof fn lemma_staged_paths(
    data: Seq<u8>,
    index: nat,
    done: Seq<(PathView, Seq<u8>)>,
    budget: u64,
)
    ensures
        staged_outcome(data, index, done, budget) matches Ok(files) ==> {
            let more = file_indices(data, index);
            &&& files.len() == done.len() + more.len()
            &&& files.take(done.len() as int) == done
            &&& forall|k: int|
                0 <= k < more.len() ==> entry_path(zip_names(data)->Ok_0[#[trigger] more[k] as int])
                    == Some(files[done.len() + k].0)
        },
    decreases zip_names(data)->Ok_0.len() - index,
{
    let outcome = staged_outcome(data, index, done, budget);
    let more = file_indices(data, index);
    if outcome is Ok {
        let files = outcome->Ok_0;
        if index >= zip_names(data)->Ok_0.len() {
            assert(files.take(done.len() as int) == done);
        } else {
            match target_outcome(data, index) {
                Err(_) => {},
                Ok(None) => lemma_staged_paths(data, index + 1, done, budget),
                Ok(Some(path)) => {
                    let bytes = read_outcome(data, index, joined(path), budget)->Ok_0;
                    let next = done.push((path, bytes));
                    lemma_staged_paths(data, index + 1, next, (budget - bytes.len()) as u64);
                    let rest = file_indices(data, index + 1);
                    assert(more == seq![index] + rest);
                    assert(files.take(next.len() as int)[done.len() as int] == (path, bytes));
                    assert(files.take(next.len() as int).take(done.len() as int) == files.take(
                        done.len() as int,
                    ));
                    assert(next.take(done.len() as int) == done);
                    assert forall|k: int| 0 <= k < more.len() implies entry_path(
                        zip_names(data)->Ok_0[#[trigger] more[k] as int],
                    ) == Some(files[done.len() + k].0) by {
                        if k > 0 {
                            assert(more[k] == rest[k - 1]);
                            assert(next.len() + (k - 1) == done.len() + k);
                        }
                    }
                },
            }
        }
    }
}

/// Extraction to a directory places what was read, or nothing.
///
/// The members of an archive are staged, each under its path with the bytes that
/// were read of it, and promoted.  Once the promotion has ended, either the file
/// at the path of each member holds the bytes of that member, and no file that
/// was there before has changed, or the tree is as it was.
pub proof fn law_extracted_files_hold_what_was_read(
    data: Seq<u8>,
    budget: u64,
    max_entries: usize,
    files: Seq<(PathView, Seq<u8>)>,
    root: Seq<char>,
    staged: Map<PathView, Seq<u8>>,
    tree: Tree,
    outcomes: Seq<OutcomeView>,
)
    requires
        zip_names(data)->Ok_0.len() <= max_entries,
        staged_outcome(data, 0, Seq::empty(), budget) == Ok::<_, Seq<char>>(files),
        forall|i: int| 0 <= i < files.len() ==> staged[(#[trigger] files[i]).0] == files[i].1,
        conflict(staged_paths(files)) is None,
        can_run(start(root, staged_paths(files)), staged, tree, outcomes),
        promoted(start(root, staged_paths(files)), staged, tree, outcomes).0.phase is Ended,
    ensures
        ({
            let (state, now) = promoted(
                start(root, staged_paths(files)),
                staged,
                tree,
                outcomes,
            );
            let members = file_indices(data, 0);
            &&& members.len() == files.len()
            &&& forall|i: int|
                0 <= i < files.len() ==> entry_path(zip_names(data)->Ok_0[members[i] as int])
                    == Some((#[trigger] files[i]).0)
            &&& forall|i: int|
                0 <= i < files.len() ==> is_member(
                    data,
                    members[i],
                    budget - total_size(written_out(files).take(i)),
                    (joined((#[trigger] files[i]).0), files[i].1),
                )
            &&& if state.failure is Some {
                now == tree
            } else {
                &&& forall|i: int|
                    0 <= i < files.len() ==> now.files.dom().contains((#[trigger] files[i]).0)
                        && now.files[files[i].0] == files[i].1 && !tree.files.dom().contains(
                        files[i].0,
                    )
                &&& forall|p: PathView| #[trigger]
                    tree.files.dom().contains(p) ==> now.files.dom().contains(p) && now.files[p]
                        == tree.files[p]
            }
        }),
{
    let none = Seq::<(PathView, Seq<u8>)>::empty();
    let nothing = Seq::<(Seq<char>, Seq<u8>)>::empty();
    assert(written_out(none) == nothing);
    law_staging_agrees_with_extraction(data, 0, none, max_entries, budget);
    law_extraction_is_complete(data, 0, nothing, max_entries, budget);
    law_entry_count_is_capped(data, 0, nothing, max_entries, budget);
    lemma_staged_paths(data, 0, none, budget);
    let members = file_indices(data, 0);
    assert forall|i: int| 0 <= i < files.len() implies entry_path(
        zip_names(data)->Ok_0[members[i] as int],
    ) == Some((#[trigger] files[i]).0) by {
        assert(members[i] == file_indices(data, 0)[i]);
        assert(files[i] == files[none.len() + i]);
    }
    assert forall|i: int| 0 <= i < files.len() implies is_member(
        data,
        members[i],
        budget - total_size(written_out(files).take(i)),
        (joined((#[trigger] files[i]).0), files[i].1),
    ) by {
        assert(written_out(files)[i] == (joined(files[i].0), files[i].1));
    }
    let entries = staged_paths(files);
    law_promotion_places_all_or_nothing(root, entries, staged, tree, outcomes);
    assert(forall|i: int| 0 <= i < files.len() ==> entries[i] == (#[trigger] files[i]).0);
}

} // verus!
