//! When operations on archives succeed, and what they say when they do not.

use crate::archive::builder::{
    archive_metadata, build_refusal, comment_text, first_refused, normalized_all,
    CompressionLevel,
};
use crate::archive::container::{
    entry_path, has_name, zip_find, zip_names, zip_read, zip_size, Method,
    WrittenEntry,
};
use crate::archive::extractor::{
    all_outcome, answers, file_outcome, indexed, next_outcome, read_outcome, refusal,
    target_outcome, unless_refused, ArchiveEntry, Target, DEFAULT_MAX_ARCHIVE_BYTES,
    DEFAULT_MAX_ENTRIES, DEFAULT_MAX_UNCOMPRESSED_SIZE,
};
use crate::archive::laws::file_indices;
use crate::archive::paths::joined;
use crate::archive::records::{
    classic_declares, classic_record, declared_count, declares, is_declared_count, law_no_record_hides_another, le16,
    le64, record_window, zip64_record,
};
use crate::buffer::content;
use crate::error::{FileError, FileResult};
use crate::text::{debug_str_text, decimal_text, law_replacing_changes_one_character};
use vstd::prelude::*;
use vstd::string::*;
use vstd::utf8::encode_utf8;

verus! {

/// A member is read exactly if it declares no more than the budget and holds no
/// more.  What comes out is what one byte more than the budget would have let
/// out.
pub proof fn law_members_are_read_within_the_budget(
    data: Seq<u8>,
    index: nat,
    name: Seq<char>,
    budget: u64,
    bytes: Seq<u8>,
)
    requires
        zip_size(data, index) is Ok,
        budget < u64::MAX,
    ensures
        read_outcome(data, index, name, budget) == Ok::<Seq<u8>, Seq<char>>(bytes) <==> {
            &&& zip_size(data, index)->Ok_0 <= budget
            &&& zip_read(data, index, (budget + 1) as u64) == Ok::<Seq<u8>, Seq<char>>(bytes)
            &&& bytes.len() <= budget
        },
        zip_size(data, index)->Ok_0 > budget ==> read_outcome(data, index, name, budget) == Err::<
            Seq<u8>,
            Seq<char>,
        >(
            "entry "@ + name + " declares "@ + decimal_text(zip_size(data, index)->Ok_0 as nat)
                + " uncompressed bytes, exceeding the remaining "@ + decimal_text(budget as nat)
                + " byte budget"@,
        ),
        zip_size(data, index)->Ok_0 <= budget && zip_read(data, index, (budget + 1) as u64) is Err
            ==> read_outcome(data, index, name, budget) == Err::<Seq<u8>, Seq<char>>(
            "Failed to read "@ + name + ": "@ + zip_read(
                data,
                index,
                (budget + 1) as u64,
            )->Err_0,
        ),
        zip_size(data, index)->Ok_0 <= budget && (zip_read(
            data,
            index,
            (budget + 1) as u64,
        ) matches Ok(found) && found.len() > budget) ==> read_outcome(data, index, name, budget)
            == Err::<Seq<u8>, Seq<char>>(
            "entry "@ + name + " expands beyond the "@ + decimal_text(budget as nat)
                + " byte budget (zip bomb?)"@,
        ),
{
}

/// A single file is looked up by its name and read under the whole budget.
pub proof fn law_a_single_file_is_looked_up_and_read(
    data: Seq<u8>,
    name: Seq<char>,
    index: nat,
    budget: u64,
)
    ensures
        zip_find(data, name) == Ok::<nat, Seq<char>>(index) ==> file_outcome(data, name, budget)
            == read_outcome(data, index, name, budget),
        zip_find(data, name) matches Err(reason) ==> file_outcome(data, name, budget) == Err::<
            Seq<u8>,
            Seq<char>,
        >("File not found: "@ + name + ": "@ + reason),
{
}

/// A member is passed over exactly if it is a directory, and written to a path
/// exactly if that is the one that its name stands for.
pub proof fn law_where_a_member_is_written(data: Seq<u8>, index: nat, path: Seq<Seq<char>>)
    ensures
        ({
            let name = zip_names(data)->Ok_0[index as int];
            let outcome = target_outcome(data, index);
            let is_dir = name.len() > 0 && (name.last() == '/' || name.last() == '\\');
            &&& outcome == Ok::<Option<Seq<Seq<char>>>, Seq<char>>(None) <==> zip_size(
                data,
                index,
            ) is Ok && is_dir
            &&& outcome == Ok::<Option<Seq<Seq<char>>>, Seq<char>>(Some(path)) <==> zip_size(
                data,
                index,
            ) is Ok && !is_dir && entry_path(name) == Some(path)
            &&& zip_size(data, index) matches Err(reason) ==> outcome == Err::<
                Option<Seq<Seq<char>>>,
                Seq<char>,
            >("Failed to access file "@ + decimal_text(index) + ": "@ + reason)
            &&& zip_size(data, index) is Ok && !is_dir && entry_path(name) is None ==> outcome
                == Err::<Option<Seq<Seq<char>>>, Seq<char>>(
                "refusing to extract entry with unsafe path "@ + debug_str_text(name)
                    + ": it escapes the extraction directory"@,
            )
        }),
{
}

/// Whether the attempt to extract the member at an index fails with a text,
/// after so many files and with so much left of the budget.
pub open spec fn fails_at(
    data: Seq<u8>,
    at: nat,
    extracted: nat,
    max_entries: usize,
    left: u64,
    text: Seq<char>,
) -> bool {
    if extracted >= max_entries {
        text == "archive contains more than "@ + decimal_text(max_entries as nat) + " entries"@
    } else {
        match target_outcome(data, at) {
            Err(why) => text == why,
            Ok(None) => false,
            Ok(Some(path)) => read_outcome(data, at, joined(path), left) == Err::<
                Seq<u8>,
                Seq<char>,
            >(text),
        }
    }
}

/// Extracting everything fails only at a member that cannot be extracted, and
/// says why; all files in front of that member were counted before.
pub proof fn law_extraction_fails_at_a_member(
    data: Seq<u8>,
    index: nat,
    done: Seq<(Seq<char>, Seq<u8>)>,
    max_entries: usize,
    budget: u64,
)
    ensures
        all_outcome(data, index, done, max_entries, budget) matches Err(text) ==> exists|
            at: nat,
            extracted: nat,
            left: u64,
        |
            index <= at < zip_names(data)->Ok_0.len() && left <= budget && extracted + file_indices(
                data,
                at,
            ).len() == done.len() + file_indices(data, index).len() && #[trigger] fails_at(
                data,
                at,
                extracted,
                max_entries,
                left,
                text,
            ),
    decreases zip_names(data)->Ok_0.len() - index,
{
    if let Err(text) = all_outcome(data, index, done, max_entries, budget) {
        if fails_at(data, index, done.len(), max_entries, budget, text) {
        } else {
            assert(done.len() < max_entries);
            match target_outcome(data, index) {
                Err(_) => {},
                Ok(None) => {
                    law_extraction_fails_at_a_member(data, index + 1, done, max_entries, budget);
                },
                Ok(Some(path)) => {
                    let bytes = read_outcome(data, index, joined(path), budget)->Ok_0;
                    let next = done.push((joined(path), bytes));
                    let rest = (budget - bytes.len()) as u64;
                    law_extraction_fails_at_a_member(data, index + 1, next, max_entries, rest);
                },
            }
        }
    }
}

/// The next file to be written is the first member from an index on that is not
/// a directory.
pub proof fn law_the_next_file_comes_first(data: Seq<u8>, index: nat)
    ensures
        next_outcome(data, index) matches Ok(None) ==> file_indices(data, index).len() == 0,
        next_outcome(data, index) matches Ok(Some(target)) ==> {
            &&& file_indices(data, index).len() > 0
            &&& file_indices(data, index)[0] == target.index
            &&& entry_path(zip_names(data)->Ok_0[target.index as int]) == Some(target.path)
        },
        next_outcome(data, index) matches Err(text) ==> exists|at: nat|
            index <= at < zip_names(data)->Ok_0.len() && #[trigger] target_outcome(data, at)
                == Err::<Option<Seq<Seq<char>>>, Seq<char>>(text) && file_indices(data, at).len()
                == file_indices(data, index).len(),
    decreases zip_names(data)->Ok_0.len() - index,
{
    if index < zip_names(data)->Ok_0.len() {
        match target_outcome(data, index) {
            Err(text) => {
                assert(next_outcome(data, index) == Err::<Option<Target>, Seq<char>>(text));
            },
            Ok(None) => {
                law_the_next_file_comes_first(data, index + 1);
            },
            Ok(Some(path)) => {},
        }
    }
}

/// An archive is refused for the first of four reasons that holds: its size, the
/// number of members that it declares, that it cannot be opened, and the number
/// of its members.  The first two are looked at as long as it is not open.
pub proof fn law_why_an_archive_is_refused(
    data: Seq<u8>,
    cached: bool,
    max_entries: usize,
    max_archive_bytes: u64,
)
    ensures
        ({
            let found = refusal(data, cached, max_entries, max_archive_bytes);
            let large = !cached && data.len() > max_archive_bytes;
            let many = !cached && (declared_count(data) matches Some(n) && n > max_entries);
            &&& large ==> found == Some(
                "archive is "@ + decimal_text(data.len()) + " bytes, exceeding the limit of "@
                    + decimal_text(max_archive_bytes as nat),
            )
            &&& !large && many ==> found == Some(
                "archive declares "@ + decimal_text(declared_count(data)->0 as nat)
                    + " entries, exceeding the limit of "@ + decimal_text(max_entries as nat),
            )
            &&& !large && !many && (zip_names(data) is Err) ==> found == Some(
                "Failed to open archive: "@ + zip_names(data)->Err_0,
            )
            &&& !large && !many && (zip_names(data) matches Ok(names) && names.len() > max_entries)
                ==> found == Some(
                "archive contains "@ + decimal_text(zip_names(data)->Ok_0.len())
                    + " entries, exceeding the limit of "@ + decimal_text(max_entries as nat),
            )
            &&& !large && !many && (zip_names(data) matches Ok(names) && names.len() <= max_entries)
                ==> found is None
        }),
{
}

/// An index is left behind exactly if, from then on, nothing but the number of
/// the members can be the reason of a refusal.
pub proof fn law_an_index_settles_the_other_reasons(
    data: Seq<u8>,
    max_entries: usize,
    max_archive_bytes: u64,
)
    ensures
        indexed(data, true, max_entries, max_archive_bytes),
        refusal(data, false, max_entries, max_archive_bytes) is None ==> indexed(
            data,
            false,
            max_entries,
            max_archive_bytes,
        ),
        indexed(data, false, max_entries, max_archive_bytes) ==> refusal(
            data,
            false,
            max_entries,
            max_archive_bytes,
        ) == refusal(data, true, max_entries, max_archive_bytes),
        indexed(data, false, max_entries, max_archive_bytes) ==> zip_names(data) is Ok,
        indexed(data, false, max_entries, max_archive_bytes) <==> data.len() <= max_archive_bytes
            && (declared_count(data) matches Some(n) ==> n <= max_entries) && zip_names(data) is Ok,
{
}

/// A result answers to an outcome exactly if both succeed with the same value, or
/// both fail, the result with an archive error of that text.
pub proof fn law_results_answer_to_outcomes<T, V>(
    r: FileResult<T>,
    refused: Option<Seq<char>>,
    outcome: Result<V, Seq<char>>,
    view: spec_fn(T) -> V,
)
    ensures
        r is Ok && outcome is Ok ==> (answers(r, outcome, view) <==> view(r->Ok_0)
            == outcome->Ok_0),
        r is Err && outcome is Err ==> (answers(r, outcome, view) <==> (r->Err_0 matches
            FileError::Archive(m) && m@ == outcome->Err_0)),
        r is Ok && outcome is Err ==> !answers(r, outcome, view),
        r is Err && outcome is Ok ==> !answers(r, outcome, view),
        refused is None ==> unless_refused(refused, outcome) == outcome,
        refused matches Some(text) ==> unless_refused(refused, outcome) == Err::<V, Seq<char>>(
            text,
        ),
{
}

/// Unless others are set, an archive may be 64 MiB large, have ten thousand members
/// and hold 256 MiB.
pub proof fn law_default_limits_of_extraction()
    ensures
        DEFAULT_MAX_ARCHIVE_BYTES == 64 * 1024 * 1024,
        DEFAULT_MAX_ENTRIES == 10_000,
        DEFAULT_MAX_UNCOMPRESSED_SIZE == 256 * 1024 * 1024,
{
}

/// How the four levels store an entry.
pub proof fn law_levels_of_compression(level: CompressionLevel)
    ensures
        level is Stored <==> level.method() is Stored,
        level is Fast <==> level.method() == Method::Deflated(1),
        level is Default <==> level.method() == Method::Deflated(6),
        level is Best <==> level.method() == Method::Deflated(9),
{
}

/// Entries are written one for one, in order and with their data; of their paths,
/// only the backslashes are changed.
pub proof fn law_entries_are_written_as_they_are(
    entries: Seq<ArchiveEntry>,
    level: CompressionLevel,
    i: int,
    k: int,
)
    requires
        0 <= i < entries.len(),
        0 <= k < entries[i].path@.len(),
    ensures
        ({
            let files = normalized_all(entries, level);
            &&& files.len() == entries.len()
            &&& files[i].data == content(entries[i].data)
            &&& files[i].method == level.method()
            &&& files[i].name.len() == entries[i].path@.len()
            &&& entries[i].path@[k] == '\\' ==> files[i].name[k] == '/'
            &&& entries[i].path@[k] != '\\' ==> files[i].name[k] == entries[i].path@[k]
        }),
{
    law_replacing_changes_one_character(entries[i].path@, '\\', '/');
}

/// Whether an entry can be added to those in front of it: no other has its name,
/// and its name and its data are not too long.
pub open spec fn can_be_added(entries: Seq<WrittenEntry>, at: int) -> bool {
    &&& forall|j: int| 0 <= j < at ==> (#[trigger] entries[j]).name != entries[at].name
    &&& encode_utf8(entries[at].name).len() <= 65535
    &&& entries[at].data.len() < 4_294_967_296
}

proof fn lemma_first_refused(entries: Seq<WrittenEntry>, from: nat, at: int)
    requires
        from <= at <= entries.len(),
        forall|i: int| from <= i < at ==> #[trigger] can_be_added(entries, i),
        at < entries.len() ==> !can_be_added(entries, at),
    ensures
        first_refused(entries, from) == if at < entries.len() {
            Some(at as nat)
        } else {
            None
        },
    decreases entries.len() - from,
{
    if from < entries.len() {
        let n = from as int;
        let front = entries.take(n);
        assert(has_name(front, entries[n].name) <==> !(forall|j: int|
            0 <= j < n ==> (#[trigger] entries[j]).name != entries[n].name)) by {
            assert(forall|j: int| 0 <= j < n ==> #[trigger] front[j] == entries[j]);
            if exists|j: int| 0 <= j < n && (#[trigger] entries[j]).name == entries[n].name {
                let j = choose|j: int|
                    0 <= j < n && (#[trigger] entries[j]).name == entries[n].name;
                assert(front[j].name == entries[n].name);
            }
        }
        if from < at {
            assert(can_be_added(entries, n));
            lemma_first_refused(entries, from + 1, at);
        }
    }
}

/// An archive is built if every entry can be added and the comment is not too
/// long.
pub proof fn law_archives_of_good_entries_are_built(entries: Seq<WrittenEntry>, comment: Seq<char>)
    requires
        forall|i: int| 0 <= i < entries.len() ==> #[trigger] can_be_added(entries, i),
    ensures
        encode_utf8(comment).len() <= 65535 ==> build_refusal(entries, comment) is None,
        encode_utf8(comment).len() > 65535 ==> build_refusal(entries, comment) == Some(
            "Failed to set comment: "@ + ("i/o error: Unexpected data comment - "@ + decimal_text(
                (encode_utf8(comment).len() - 65535) as nat,
            ) + " bytes too long"@),
        ),
{
    lemma_first_refused(entries, 0, entries.len() as int);
}

/// Otherwise it is refused for the first entry that cannot be added, whatever
/// comes behind that: for its name if another has it, or if it is too long, and
/// else for its data.
pub proof fn law_archives_are_refused_for_the_first_bad_entry(
    entries: Seq<WrittenEntry>,
    comment: Seq<char>,
    at: int,
)
    requires
        0 <= at < entries.len(),
        forall|i: int| 0 <= i < at ==> #[trigger] can_be_added(entries, i),
        !can_be_added(entries, at),
    ensures
        ({
            let name = entries[at].name;
            let repeated = exists|j: int| 0 <= j < at && (#[trigger] entries[j]).name == name;
            let found = build_refusal(entries, comment);
            &&& found is Some
            &&& repeated ==> found == Some(
                "Failed to add file "@ + name + ": "@ + (
                "invalid Zip archive: Duplicate filename: "@ + name),
            )
            &&& !repeated && encode_utf8(name).len() > 65535 ==> found->0.take(
                ("Failed to add file "@ + name + ": "@).len() as int,
            ) == "Failed to add file "@ + name + ": "@
            &&& !repeated && encode_utf8(name).len() <= 65535 ==> found == Some(
                "Failed to write "@ + name + ": "@ + "Large file option has not been set"@,
            )
        }),
{
    lemma_first_refused(entries, 0, at);
    let name = entries[at].name;
    let front = entries.take(at);
    assert(forall|j: int| 0 <= j < at ==> #[trigger] front[j] == entries[j]);
    let repeated = exists|j: int| 0 <= j < at && (#[trigger] entries[j]).name == name;
    if repeated {
        let j = choose|j: int| 0 <= j < at && (#[trigger] entries[j]).name == name;
        assert(front[j].name == name);
    }
    assert(has_name(front, name) <==> repeated);
    if !repeated && encode_utf8(name).len() > 65535 {
        let start = "Failed to add file "@ + name + ": "@;
        assert(build_refusal(entries, comment)->0.take(start.len() as int) == start);
    }
}

/// An archive without a comment is one with an empty comment, and it is called
/// `archive.zip` whatever its size.
pub proof fn law_comments_and_metadata_of_archives(comment: Seq<char>, size: nat)
    ensures
        comment_text(Some(comment)) == comment,
        comment_text(None).len() == 0,
        archive_metadata(size).size == size,
        archive_metadata(size).filename == "archive.zip"@,
        archive_metadata(size).mime_type == "application/zip"@,
        archive_metadata(size).extension == Some("zip"@),
        archive_metadata(size).width is None,
        archive_metadata(size).height is None,
        archive_metadata(size).pages is None,
{
}

/// Whether a container has a classic end record at an offset that declares a
/// number of members: its signature, the number in two bytes, and the length of
/// a comment that reaches up to the end.
pub open spec fn classic_at(data: Seq<u8>, at: int, count: int) -> bool {
    &&& 0 <= at <= data.len() - 22
    &&& data.subrange(at, at + 4) == seq![0x50u8, 0x4B, 0x05, 0x06]
    &&& data[at + 20] + data[at + 21] * 256 == data.len() - at - 22
    &&& data[at + 10] + data[at + 11] * 256 == count
}

/// Whether a container has a Zip64 end record at an offset, within the last 65557
/// bytes, that declares a number of members: its signature, its length in eight
/// bytes, of at least 44, and the number in eight bytes.
pub open spec fn zip64_at(data: Seq<u8>, at: int, count: int) -> bool {
    &&& 0 <= at <= data.len() - 56
    &&& data.len() - at <= 65557
    &&& data.subrange(at, at + 4) == seq![0x50u8, 0x4B, 0x06, 0x06]
    &&& eight_bytes(data, at + 4) >= 44
    &&& eight_bytes(data, at + 32) == count
}

/// The number that eight bytes hold, the lowest first.
pub open spec fn eight_bytes(data: Seq<u8>, at: int) -> int {
    data[at] + 256 * (data[at + 1] + 256 * (data[at + 2] + 256 * (data[at + 3] + 256 * (data[at + 4]
        + 256 * (data[at + 5] + 256 * (data[at + 6] + 256 * data[at + 7]))))))
}

proof fn lemma_eight_bytes(data: Seq<u8>, at: int)
    ensures
        le64(data, at) == eight_bytes(data, at),
{
}

proof fn lemma_records(data: Seq<u8>, at: int, count: nat)
    ensures
        classic_at(data, at, count as int) ==> declares(data, count),
        zip64_at(data, at, count as int) ==> declares(data, count),
{
    let tail = record_window(data);
    let there = at - (data.len() - tail.len());
    if classic_at(data, at, count as int) {
        let start = data.subrange(at, at + 4);
        assert(start[0] == data[at] && start[1] == data[at + 1] && start[2] == data[at + 2]
            && start[3] == data[at + 3]);
        assert(data[at + 20] + data[at + 21] * 256 <= 0xFFFF);
        assert(there >= 0);
        assert(classic_record(tail, there));
        assert(le16(tail, there + 10) == count);
    }
    if zip64_at(data, at, count as int) {
        let start = data.subrange(at, at + 4);
        assert(start[0] == data[at] && start[1] == data[at + 1] && start[2] == data[at + 2]
            && start[3] == data[at + 3]);
        assert(there >= 0);
        lemma_eight_bytes(tail, there + 4);
        lemma_eight_bytes(tail, there + 32);
        assert(eight_bytes(tail, there + 4) == eight_bytes(data, at + 4));
        assert(eight_bytes(tail, there + 32) == eight_bytes(data, at + 32));
        assert(zip64_record(tail, there));
        assert(le64(tail, there + 32) == count);
    }
}

/// Every end record counts, of either kind and wherever it stands: what is read
/// from a container is at least what the record declares.
pub proof fn law_every_end_record_counts(data: Seq<u8>, at: int, count: int)
    requires
        classic_at(data, at, count) || zip64_at(data, at, count),
    ensures
        declared_count(data) is Some,
        declared_count(data)->0 >= count,
{
    assert(count >= 0);
    lemma_records(data, at, count as nat);
    law_no_record_hides_another(data, count as nat);
}

/// What stands in the last bytes of a container stands in it.
proof fn lemma_byte_of_the_window(data: Seq<u8>, at: int)
    requires
        0 <= at < record_window(data).len(),
    ensures
        record_window(data)[at] == data[at + data.len() - record_window(data).len()],
{
}

proof fn lemma_classic_in_the_window(data: Seq<u8>, at: int)
    requires
        classic_record(record_window(data), at),
    ensures
        classic_at(
            data,
            at + data.len() - record_window(data).len(),
            le16(record_window(data), at + 10) as int,
        ),
{
    let there = at + data.len() - record_window(data).len();
    lemma_byte_of_the_window(data, at);
    lemma_byte_of_the_window(data, at + 1);
    lemma_byte_of_the_window(data, at + 2);
    lemma_byte_of_the_window(data, at + 3);
    lemma_byte_of_the_window(data, at + 10);
    lemma_byte_of_the_window(data, at + 11);
    lemma_byte_of_the_window(data, at + 20);
    lemma_byte_of_the_window(data, at + 21);
    assert(data.subrange(there, there + 4) =~= seq![0x50u8, 0x4B, 0x05, 0x06]);
}

proof fn lemma_eight_bytes_of_the_window(data: Seq<u8>, at: int)
    requires
        0 <= at <= record_window(data).len() - 8,
    ensures
        le64(record_window(data), at) == eight_bytes(
            data,
            at + data.len() - record_window(data).len(),
        ),
{
    lemma_byte_of_the_window(data, at);
    lemma_byte_of_the_window(data, at + 1);
    lemma_byte_of_the_window(data, at + 2);
    lemma_byte_of_the_window(data, at + 3);
    lemma_byte_of_the_window(data, at + 4);
    lemma_byte_of_the_window(data, at + 5);
    lemma_byte_of_the_window(data, at + 6);
    lemma_byte_of_the_window(data, at + 7);
    lemma_eight_bytes(record_window(data), at);
}

proof fn lemma_zip64_in_the_window(data: Seq<u8>, at: int)
    requires
        zip64_record(record_window(data), at),
    ensures
        zip64_at(
            data,
            at + data.len() - record_window(data).len(),
            le64(record_window(data), at + 32) as int,
        ),
{
    let there = at + data.len() - record_window(data).len();
    lemma_byte_of_the_window(data, at);
    lemma_byte_of_the_window(data, at + 1);
    lemma_byte_of_the_window(data, at + 2);
    lemma_byte_of_the_window(data, at + 3);
    lemma_eight_bytes_of_the_window(data, at + 4);
    lemma_eight_bytes_of_the_window(data, at + 32);
    assert(data.subrange(there, there + 4) =~= seq![0x50u8, 0x4B, 0x06, 0x06]);
}

/// The number that is read from a container stands in one of its end records, and
/// where none is read there is no end record.
pub proof fn law_the_declared_count_stands_in_a_record(data: Seq<u8>, found: Option<u64>)
    requires
        is_declared_count(data, found),
    ensures
        found matches Some(count) ==> (exists|at: int| #[trigger]
            classic_at(data, at, count as int)) || (exists|at: int| #[trigger]
            zip64_at(data, at, count as int)),
        found is None ==> forall|at: int, count: int| !(#[trigger] classic_at(data, at, count)),
        found is None ==> forall|at: int, count: int| !(#[trigger] zip64_at(data, at, count)),
{
    let tail = record_window(data);
    let declared = |n: nat| declares(data, n);
    match found {
        Some(count) => {
            assert(declared(count as nat));
            let n = count as nat;
            if classic_declares(tail, tail.len() as int, n) {
                let at = choose|at: int|
                    at < tail.len() && #[trigger] classic_record(tail, at) && le16(tail, at + 10)
                        == n;
                lemma_classic_in_the_window(data, at);
            } else {
                let at = choose|at: int|
                    at < tail.len() && #[trigger] zip64_record(tail, at) && le64(tail, at + 32)
                        == n;
                lemma_zip64_in_the_window(data, at);
            }
        },
        None => {
            assert forall|at: int, count: int| !(#[trigger] classic_at(data, at, count)) by {
                if classic_at(data, at, count) {
                    lemma_records(data, at, count as nat);
                    assert(declared(count as nat));
                }
            }
            assert forall|at: int, count: int| !(#[trigger] zip64_at(data, at, count)) by {
                if zip64_at(data, at, count) {
                    lemma_records(data, at, count as nat);
                    assert(declared(count as nat));
                }
            }
        },
    }
}

} // verus!
