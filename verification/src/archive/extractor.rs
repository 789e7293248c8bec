//! Extraction of ZIP archives from untrusted bytes.

use crate::archive::container::{
    self, behind_drive, container_bytes, entry_path, has_size, is_absolute, name_pieces, names_drive, plain_name,
    some_drive, walk, zip_find, zip_names, zip_read, zip_size,
};
use crate::archive::laws::{
    law_budget_is_shared, law_entry_count_is_capped, law_entry_path_stays_inside, total_size,
};
use crate::archive::paths::{
    copy_path, is_directory_name, join_path, joined, names_directory, stays_inside,
};
use crate::archive::promotion::paths;
use crate::archive::records::{declared_count, peek_entry_count};
use crate::buffer::{self, content};
use crate::error::{FileError, FileResult};
use crate::text::{
    chars_of, debug_str, debug_str_text, decimal, decimal_text, pieces, replace, texts,
};
use bytes::Bytes;
use std::io::Cursor;
use vstd::pervasive::unreached;
use vstd::prelude::*;
use vstd::string::*;
use zip::ZipArchive;

verus! {

/// Default cap on the total uncompressed bytes a single extraction may
/// produce (256 MiB).
pub const DEFAULT_MAX_UNCOMPRESSED_SIZE: u64 = 268_435_456;

/// Default cap on the number of entries a single archive may contain.
pub const DEFAULT_MAX_ENTRIES: usize = 10_000;

/// Default cap on the size of the archive container itself (64 MiB).
///
/// It bounds the work of merely opening the archive, which reads and indexes
/// the whole central directory.
pub const DEFAULT_MAX_ARCHIVE_BYTES: u64 = 67_108_864;

/// A file of an archive.
#[derive(Debug, Clone)]
pub struct ArchiveEntry {
    /// Path within the archive.
    pub path: String,
    /// File data.
    pub data: Bytes,
}

impl ArchiveEntry {
    /// Creates an archive entry.
    pub fn new(path: String, data: Bytes) -> (r: ArchiveEntry)
        ensures
            r.path == path,
            r.data == data,
    {
        ArchiveEntry { path, data }
    }

    /// The path and the bytes of an entry.
    pub open spec fn model(self) -> (Seq<char>, Seq<u8>) {
        (self.path@, content(self.data))
    }
}

/// The paths and bytes of a sequence of entries.
pub open spec fn models(entries: Seq<ArchiveEntry>) -> Seq<(Seq<char>, Seq<u8>)> {
    Seq::new(entries.len(), |i: int| entries[i].model())
}

/// Why an archive is refused before any member is read, if it is.
///
/// The size of the container and the declared number of members are checked
/// before the archive is opened, and so only when no index is at hand yet; the
/// number of members in the index is checked every time.
pub open spec fn refusal(
    data: Seq<u8>,
    cached: bool,
    max_entries: usize,
    max_archive_bytes: u64,
) -> Option<Seq<char>> {
    if !cached && data.len() > max_archive_bytes {
        Some(
            "archive is "@ + decimal_text(data.len()) + " bytes, exceeding the limit of "@
                + decimal_text(max_archive_bytes as nat),
        )
    } else if !cached && declared_count(data) is Some && declared_count(data)->0 > max_entries {
        Some(
            "archive declares "@ + decimal_text(declared_count(data)->0 as nat)
                + " entries, exceeding the limit of "@ + decimal_text(max_entries as nat),
        )
    } else if zip_names(data) is Err {
        Some("Failed to open archive: "@ + zip_names(data)->Err_0)
    } else if zip_names(data)->Ok_0.len() > max_entries {
        Some(
            "archive contains "@ + decimal_text(zip_names(data)->Ok_0.len())
                + " entries, exceeding the limit of "@ + decimal_text(max_entries as nat),
        )
    } else {
        None
    }
}

/// Whether an attempt to use the archive leaves an index behind.
pub open spec fn indexed(
    data: Seq<u8>,
    cached: bool,
    max_entries: usize,
    max_archive_bytes: u64,
) -> bool {
    cached || (data.len() <= max_archive_bytes && !(declared_count(data) is Some && declared_count(
        data,
    )->0 > max_entries) && zip_names(data) is Ok)
}

/// One more than a budget, as far as the number type goes.
pub open spec fn one_over(budget: u64) -> u64 {
    if budget < u64::MAX {
        (budget + 1) as u64
    } else {
        budget
    }
}

/// What reading a member under a budget gives.
///
/// A member that declares more than the budget is refused before it is read;
/// one that turns out to hold more than it declared, after.
pub open spec fn read_outcome(data: Seq<u8>, index: nat, name: Seq<char>, budget: u64) -> Result<
    Seq<u8>,
    Seq<char>,
> {
    let size = zip_size(data, index)->Ok_0;
    let found = zip_read(data, index, one_over(budget));
    if size > budget {
        Err(
            "entry "@ + name + " declares "@ + decimal_text(size as nat)
                + " uncompressed bytes, exceeding the remaining "@ + decimal_text(budget as nat)
                + " byte budget"@,
        )
    } else if found is Err {
        Err("Failed to read "@ + name + ": "@ + found->Err_0)
    } else if found->Ok_0.len() > budget {
        Err(
            "entry "@ + name + " expands beyond the "@ + decimal_text(budget as nat)
                + " byte budget (zip bomb?)"@,
        )
    } else {
        Ok(found->Ok_0)
    }
}

/// What extracting a single member by name gives.
pub open spec fn file_outcome(data: Seq<u8>, name: Seq<char>, budget: u64) -> Result<
    Seq<u8>,
    Seq<char>,
> {
    if zip_find(data, name) is Err {
        Err("File not found: "@ + name + ": "@ + zip_find(data, name)->Err_0)
    } else {
        read_outcome(data, zip_find(data, name)->Ok_0, name, budget)
    }
}

/// The text of the refusal of a member name that leaves the extraction root.
pub open spec fn unsafe_path_text(name: Seq<char>) -> Seq<char> {
    "refusing to extract entry with unsafe path "@ + debug_str_text(name)
        + ": it escapes the extraction directory"@
}

/// Where a member is to be written: its path, `None` for a directory, or the
/// text of the refusal.
pub open spec fn target_outcome(data: Seq<u8>, index: nat) -> Result<
    Option<Seq<Seq<char>>>,
    Seq<char>,
> {
    let name = zip_names(data)->Ok_0[index as int];
    if zip_size(data, index) is Err {
        Err("Failed to access file "@ + decimal_text(index) + ": "@ + zip_size(data, index)->Err_0)
    } else if names_directory(name) {
        Ok(None)
    } else if entry_path(name) is None {
        Err(unsafe_path_text(name))
    } else {
        Ok(entry_path(name))
    }
}

/// Whether every path is that of something inside the extraction root.
pub open spec fn all_inside(files: Seq<(Seq<char>, Seq<u8>)>) -> bool {
    forall|k: int| 0 <= k < files.len() ==> is_inside((#[trigger] files[k]).0)
}

/// Whether a path, written out, is that of something inside the extraction
/// root.
pub open spec fn is_inside(path: Seq<char>) -> bool {
    exists|parts: Seq<Seq<char>>| path == #[trigger] joined(parts) && stays_inside(parts)
}

/// What extracting the members from `index` on gives, after `done` and with
/// `budget` bytes left.
pub open spec fn all_outcome(
    data: Seq<u8>,
    index: nat,
    done: Seq<(Seq<char>, Seq<u8>)>,
    max_entries: usize,
    budget: u64,
) -> Result<Seq<(Seq<char>, Seq<u8>)>, Seq<char>>
    decreases zip_names(data)->Ok_0.len() - index,
{
    if index >= zip_names(data)->Ok_0.len() {
        Ok(done)
    } else if done.len() >= max_entries {
        Err("archive contains more than "@ + decimal_text(max_entries as nat) + " entries"@)
    } else {
        match target_outcome(data, index) {
            Err(text) => Err(text),
            Ok(None) => all_outcome(data, index + 1, done, max_entries, budget),
            Ok(Some(path)) => match read_outcome(data, index, joined(path), budget) {
                Err(text) => Err(text),
                Ok(bytes) => all_outcome(
                    data,
                    index + 1,
                    done.push((joined(path), bytes)),
                    max_entries,
                    (budget - bytes.len()) as u64,
                ),
            },
        }
    }
}

/// A member to be written and its path.
pub struct Target {
    pub index: nat,
    pub path: Seq<Seq<char>>,
}

/// The first member from `index` on that is to be written, with its path;
/// `None` once there is none.
pub open spec fn next_outcome(data: Seq<u8>, index: nat) -> Result<Option<Target>, Seq<char>>
    decreases zip_names(data)->Ok_0.len() - index,
{
    if index >= zip_names(data)->Ok_0.len() {
        Ok(None)
    } else {
        match target_outcome(data, index) {
            Err(text) => Err(text),
            Ok(None) => next_outcome(data, index + 1),
            Ok(Some(path)) => Ok(Some(Target { index, path })),
        }
    }
}

/// Whether a result is the given outcome of an archive operation.
pub open spec fn answers<T, V>(
    r: FileResult<T>,
    outcome: Result<V, Seq<char>>,
    view: spec_fn(T) -> V,
) -> bool {
    match r {
        Ok(t) => outcome is Ok && outcome->Ok_0 == view(t),
        Err(e) => outcome is Err && e.is_archive_error(outcome->Err_0),
    }
}

/// The outcome of an operation on an archive that may be refused beforehand.
pub open spec fn unless_refused<V>(
    refused: Option<Seq<char>>,
    outcome: Result<V, Seq<char>>,
) -> Result<V, Seq<char>> {
    match refused {
        Some(text) => Err(text),
        None => outcome,
    }
}

fn archive_error<T>(message: String) -> (r: FileResult<T>)
    ensures
        r is Err,
        r->Err_0.is_archive_error(message@),
{
    Err(FileError::Archive(message))
}

/// Reads at most `budget` bytes of a member, and fails if it wants more.
fn read_entry_within_budget(
    archive: &mut ZipArchive<Cursor<Bytes>>,
    index: usize,
    size: u64,
    name: &str,
    budget: u64,
) -> (r: FileResult<Vec<u8>>)
    requires
        zip_size(container_bytes(*old(archive)), index as nat) is Ok,
        size == zip_size(container_bytes(*old(archive)), index as nat)->Ok_0,
    ensures
        container_bytes(*final(archive)) == container_bytes(*old(archive)),
        answers(
            r,
            read_outcome(container_bytes(*old(archive)), index as nat, name@, budget),
            |v: Vec<u8>| v@,
        ),
        r matches Ok(v) ==> v.len() <= budget,
{
    if size > budget {
        let mut text = "entry ".to_owned();
        text.append(name);
        text.append(" declares ");
        text.append(decimal(size).as_str());
        text.append(" uncompressed bytes, exceeding the remaining ");
        text.append(decimal(budget).as_str());
        text.append(" byte budget");
        return archive_error(text);
    }
    // One byte over the budget, so that a stream that goes on is detected
    // rather than cut off.
    let limit: u64 = if budget < u64::MAX {
        budget + 1
    } else {
        budget
    };
    match container::read(archive, index, limit) {
        Err(e) => {
            let mut text = "Failed to read ".to_owned();
            text.append(name);
            text.append(": ");
            text.append(e.as_str());
            archive_error(text)
        },
        Ok(data) => {
            if data.len() as u64 > budget {
                let mut text = "entry ".to_owned();
                text.append(name);
                text.append(" expands beyond the ");
                text.append(decimal(budget).as_str());
                text.append(" byte budget (zip bomb?)");
                archive_error(text)
            } else {
                Ok(data)
            }
        },
    }
}

/// Whether characters begin with a drive.
fn is_drive(chars: &Vec<char>) -> (r: bool)
    ensures
        r == names_drive(chars@),
{
    chars.len() >= 2 && (('a' <= chars[0] && chars[0] <= 'z') || ('A' <= chars[0] && chars[0]
        <= 'Z')) && chars[1] == ':'
}

/// A member name behind the drive that it begins with, if it does.
fn drop_drive(name: &str) -> (r: String)
    ensures
        r@ == behind_drive(name@),
{
    let chars = chars_of(name);
    if !is_drive(&chars) {
        return name.to_owned();
    }
    let mut rest = String::new();
    for i in 2..chars.len()
        invariant
            chars@ == name@,
            chars.len() >= 2,
            rest@ == name@.skip(2).take(i - 2),
    {
        rest.push(chars[i]);
        assert(name@.skip(2).take(i - 1) == name@.skip(2).take(i - 2).push(name@[i as int]));
    }
    assert(name@.skip(2).take(name@.len() - 2) == name@.skip(2));
    rest
}

/// Whether a member name, behind a drive at its front, is absolute or has a
/// piece that begins with a drive.
fn leaves_root(name: &str) -> (r: bool)
    ensures
        r == (is_absolute(behind_drive(name@)) || some_drive(name_pieces(behind_drive(name@)))),
{
    let rest = drop_drive(name);
    let chars = chars_of(rest.as_str());
    if chars.len() > 0 && (chars[0] == '/' || chars[0] == '\\') {
        return true;
    }
    let parts = pieces(replace(rest.as_str(), '\\', '/').as_str(), '/');
    let ghost all = name_pieces(rest@);
    for i in 0..parts.len()
        invariant
            all == name_pieces(behind_drive(name@)),
            texts(parts@) == all,
            forall|j: int| 0 <= j < i ==> !names_drive(#[trigger] all[j]),
    {
        let part = chars_of(parts[i].as_str());
        assert(part@ == all[i as int]);
        if is_drive(&part) {
            assert(names_drive(all[i as int]));
            return true;
        }
    }
    false
}

/// The path below the extraction root that a member is written to, out of the
/// path that its name stands for.
///
/// Member names come straight from the archive: an absolute name, one with a
/// drive in the middle or one with `..` in it can point anywhere.  A name that
/// leaves the root is refused.
fn safe_entry_path(name: &str, path: Option<Vec<String>>) -> (r: FileResult<Vec<String>>)
    requires
        name@.contains('\0') ==> path is None,
        !name@.contains('\0') && plain_name(name@) ==> container::path_texts(path) == walk(
            name_pieces(behind_drive(name@)),
        ),
    ensures
        match r {
            Ok(p) => entry_path(name@) == Some(texts(p@)),
            Err(e) => entry_path(name@) is None && e.is_archive_error(unsafe_path_text(name@)),
        },
{
    if !leaves_root(name) {
        if let Some(p) = path {
            return Ok(p);
        }
    }
    let mut text = "refusing to extract entry with unsafe path ".to_owned();
    text.append(debug_str(name).as_str());
    text.append(": it escapes the extraction directory");
    archive_error(text)
}

/// Looks at a member: its size and where it is to be written, or `None` for a
/// directory.
fn member_target(archive: &mut ZipArchive<Cursor<Bytes>>, index: usize) -> (r: FileResult<
    Option<(u64, Vec<String>)>,
>)
    requires
        zip_names(container_bytes(*old(archive))) is Ok,
        index < zip_names(container_bytes(*old(archive)))->Ok_0.len(),
    ensures
        container_bytes(*final(archive)) == container_bytes(*old(archive)),
        answers(
            r,
            target_outcome(container_bytes(*old(archive)), index as nat),
            |t: Option<(u64, Vec<String>)>|
                match t {
                    Some(p) => Some(texts(p.1@)),
                    None => None,
                },
        ),
        r matches Ok(Some(p)) ==> has_size(container_bytes(*old(archive)), index as nat, p.0),
        r matches Ok(Some(p)) ==> stays_inside(texts(p.1@)),
{
    match container::member(archive, index) {
        Err(e) => {
            let mut text = "Failed to access file ".to_owned();
            text.append(decimal(index as u64).as_str());
            text.append(": ");
            text.append(e.as_str());
            archive_error(text)
        },
        Ok(header) => {
            if is_directory_name(header.name.as_str()) {
                return Ok(None);
            }
            proof {
                law_entry_path_stays_inside(header.name@);
            }
            match safe_entry_path(header.name.as_str(), header.path) {
                Err(e) => Err(e),
                Ok(path) => Ok(Some((header.size, path))),
            }
        },
    }
}

/// Extracts every member of an opened archive into memory.
fn extract_all_from(
    archive: &mut ZipArchive<Cursor<Bytes>>,
    max_entries: usize,
    budget: u64,
) -> (r: FileResult<Vec<ArchiveEntry>>)
    requires
        zip_names(container_bytes(*old(archive))) is Ok,
    ensures
        container_bytes(*final(archive)) == container_bytes(*old(archive)),
        answers(
            r,
            all_outcome(container_bytes(*old(archive)), 0, Seq::empty(), max_entries, budget),
            |v: Vec<ArchiveEntry>| models(v@),
        ),
        r matches Ok(v) ==> all_inside(models(v@)),
        r matches Ok(v) ==> v.len() <= max_entries && total_size(models(v@)) <= budget,
{
    proof {
        let data = container_bytes(*archive);
        law_entry_count_is_capped(data, 0, Seq::empty(), max_entries, budget);
        law_budget_is_shared(data, 0, Seq::empty(), max_entries, budget);
    }
    let ghost data = container_bytes(*archive);
    let ghost outcome = all_outcome(data, 0, Seq::empty(), max_entries, budget);
    let count = container::count(archive);
    let mut left: u64 = budget;
    let mut entries: Vec<ArchiveEntry> = Vec::new();
    assert(models(entries@) == Seq::<(Seq<char>, Seq<u8>)>::empty());
    let mut index: usize = 0;
    while index < count
        invariant
            index <= count,
            data == container_bytes(*old(archive)),
            outcome == all_outcome(data, 0, Seq::empty(), max_entries, budget),
            container_bytes(*archive) == data,
            zip_names(data) is Ok,
            count == zip_names(data)->Ok_0.len(),
            all_outcome(data, index as nat, models(entries@), max_entries, left) == outcome,
            all_inside(models(entries@)),
        decreases count - index,
    {
        if entries.len() >= max_entries {
            let mut text = "archive contains more than ".to_owned();
            text.append(decimal(max_entries as u64).as_str());
            text.append(" entries");
            return archive_error(text);
        }
        match member_target(archive, index) {
            Err(e) => return Err(e),
            Ok(None) => {},
            Ok(Some((size, path))) => {
                let name = join_path(&path);
                match read_entry_within_budget(archive, index, size, name.as_str(), left) {
                    Err(e) => return Err(e),
                    Ok(bytes) => {
                        let ghost before = models(entries@);
                        left = left - bytes.len() as u64;
                        let entry = ArchiveEntry::new(name, buffer::from_vec(bytes));
                        entries.push(entry);
                        assert(models(entries@) == before.push(entry.model()));
                        assert(entry.path@ == joined(texts(path@)));
                    },
                }
            },
        }
        index = index + 1;
    }
    Ok(entries)
}

/// A ZIP archive to extract from.
///
/// Extraction is guarded against names that leave the extraction root and
/// against archives that expand without bounds.
pub struct ZipExtractor {
    data: Bytes,
    max_uncompressed_size: u64,
    max_entries: usize,
    max_archive_bytes: u64,
    archive: Option<ZipArchive<Cursor<Bytes>>>,
}

impl ZipExtractor {
    /// The bytes of the archive.
    pub closed spec fn bytes(&self) -> Seq<u8> {
        content(self.data)
    }

    /// The most uncompressed bytes that an extraction may produce.
    pub closed spec fn size_limit(&self) -> u64 {
        self.max_uncompressed_size
    }

    /// The most members that the archive may have.
    pub closed spec fn entry_limit(&self) -> usize {
        self.max_entries
    }

    /// The most bytes that the archive itself may have.
    pub closed spec fn container_limit(&self) -> u64 {
        self.max_archive_bytes
    }

    /// Whether the archive has been opened and its index is at hand.
    pub closed spec fn cached(&self) -> bool {
        self.archive is Some
    }

    /// An index that is at hand belongs to the bytes of the archive.
    pub closed spec fn well_formed(&self) -> bool {
        self.archive matches Some(a) ==> container_bytes(a) == content(self.data) && zip_names(
            content(self.data),
        ) is Ok
    }

    /// Whether `after` is the same archive under the same limits, with an
    /// index at hand where the guards let it be built.
    pub open spec fn opened_from(&self, before: &ZipExtractor) -> bool {
        &&& self.well_formed()
        &&& self.bytes() == before.bytes()
        &&& self.size_limit() == before.size_limit()
        &&& self.entry_limit() == before.entry_limit()
        &&& self.container_limit() == before.container_limit()
        &&& self.cached() == indexed(
            before.bytes(),
            before.cached(),
            before.entry_limit(),
            before.container_limit(),
        )
    }

    /// Whether this is the same archive under the same limits, with the same
    /// index.
    pub open spec fn same_archive(&self, before: &ZipExtractor) -> bool {
        &&& self.well_formed()
        &&& self.bytes() == before.bytes()
        &&& self.size_limit() == before.size_limit()
        &&& self.entry_limit() == before.entry_limit()
        &&& self.container_limit() == before.container_limit()
        &&& self.cached() == before.cached()
    }

    /// Why this archive is refused, if it is.
    pub open spec fn refused(&self) -> Option<Seq<char>> {
        refusal(self.bytes(), self.cached(), self.entry_limit(), self.container_limit())
    }

    /// Creates an extractor with the default limits.
    pub fn new(data: Bytes) -> (r: ZipExtractor)
        ensures
            r.well_formed(),
            r.bytes() == content(data),
            r.size_limit() == DEFAULT_MAX_UNCOMPRESSED_SIZE,
            r.entry_limit() == DEFAULT_MAX_ENTRIES,
            r.container_limit() == DEFAULT_MAX_ARCHIVE_BYTES,
            !r.cached(),
    {
        ZipExtractor {
            data,
            max_uncompressed_size: DEFAULT_MAX_UNCOMPRESSED_SIZE,
            max_entries: DEFAULT_MAX_ENTRIES,
            max_archive_bytes: DEFAULT_MAX_ARCHIVE_BYTES,
            archive: None,
        }
    }

    /// Sets the most uncompressed bytes that a single extraction may produce.
    pub fn max_uncompressed_size(self, max_bytes: u64) -> (r: ZipExtractor)
        requires
            self.well_formed(),
        ensures
            r.well_formed(),
            r.bytes() == self.bytes(),
            r.size_limit() == max_bytes,
            r.entry_limit() == self.entry_limit(),
            r.container_limit() == self.container_limit(),
            r.cached() == self.cached(),
    {
        ZipExtractor { max_uncompressed_size: max_bytes, ..self }
    }

    /// Sets the most entries that the archive may contain.
    ///
    /// The limit applies to an index that is already at hand, too.
    pub fn max_entries(self, max_entries: usize) -> (r: ZipExtractor)
        requires
            self.well_formed(),
        ensures
            r.well_formed(),
            r.bytes() == self.bytes(),
            r.size_limit() == self.size_limit(),
            r.entry_limit() == max_entries,
            r.container_limit() == self.container_limit(),
            r.cached() == self.cached(),
    {
        ZipExtractor { max_entries, ..self }
    }

    /// Sets the most bytes that the archive itself may have.
    pub fn max_archive_bytes(self, max_bytes: u64) -> (r: ZipExtractor)
        requires
            self.well_formed(),
        ensures
            r.well_formed(),
            r.bytes() == self.bytes(),
            r.size_limit() == self.size_limit(),
            r.entry_limit() == self.entry_limit(),
            r.container_limit() == max_bytes,
            r.cached() == self.cached(),
    {
        ZipExtractor { max_archive_bytes: max_bytes, ..self }
    }

    /// The index of the archive, built on first use.
    ///
    /// The guards on the container are applied before it is opened; the limit
    /// on the number of members is applied to the index on every use, so that
    /// a limit that was tightened later still counts.
    pub fn with_cached_archive(&mut self) -> (r: FileResult<()>)
        requires
            old(self).well_formed(),
        ensures
            final(self).opened_from(old(self)),
            answers(r, unless_refused(old(self).refused(), Ok(())), |u: ()| u),
            r is Ok ==> final(self).cached(),
    {
        if self.archive.is_none() {
            let len = buffer::length(&self.data);
            if len as u64 > self.max_archive_bytes {
                let mut text = "archive is ".to_owned();
                text.append(decimal(len as u64).as_str());
                text.append(" bytes, exceeding the limit of ");
                text.append(decimal(self.max_archive_bytes).as_str());
                return archive_error(text);
            }
            // Opening allocates a record per member, so the limit has to be
            // enforced on what the archive declares, before that.
            if let Some(declared) = peek_entry_count(buffer::as_slice(&self.data)) {
                if declared > self.max_entries as u64 {
                    let mut text = "archive declares ".to_owned();
                    text.append(decimal(declared).as_str());
                    text.append(" entries, exceeding the limit of ");
                    text.append(decimal(self.max_entries as u64).as_str());
                    return archive_error(text);
                }
            }
            match container::open(self.data.clone()) {
                Err(e) => {
                    let mut text = "Failed to open archive: ".to_owned();
                    text.append(e.as_str());
                    return archive_error(text);
                },
                Ok(archive) => {
                    self.archive = Some(archive);
                },
            }
        }
        let count: usize = match &self.archive {
            Some(archive) => container::count(archive),
            None => unreached(),
        };
        if count > self.max_entries {
            let mut text = "archive contains ".to_owned();
            text.append(decimal(count as u64).as_str());
            text.append(" entries, exceeding the limit of ");
            text.append(decimal(self.max_entries as u64).as_str());
            return archive_error(text);
        }
        Ok(())
    }

    /// Lists the files in the archive.
    pub fn list_files(&mut self) -> (r: FileResult<Vec<String>>)
        requires
            old(self).well_formed(),
        ensures
            final(self).opened_from(old(self)),
            answers(
                r,
                unless_refused(old(self).refused(), Ok(zip_names(old(self).bytes())->Ok_0)),
                |v: Vec<String>| texts(v@),
            ),
    {
        match self.with_cached_archive() {
            Err(e) => Err(e),
            Ok(_) => {
                match &self.archive {
                    Some(archive) => Ok(container::names(archive)),
                    None => unreached(),
                }
            },
        }
    }

    /// Extracts a single file by name.
    pub fn extract_file(&mut self, name: &str) -> (r: FileResult<Bytes>)
        requires
            old(self).well_formed(),
        ensures
            final(self).opened_from(old(self)),
            answers(
                r,
                unless_refused(
                    old(self).refused(),
                    file_outcome(old(self).bytes(), name@, old(self).size_limit()),
                ),
                |b: Bytes| content(b),
            ),
    {
        let budget: u64 = self.max_uncompressed_size;
        match self.with_cached_archive() {
            Err(e) => return Err(e),
            Ok(_) => {},
        }
        match &mut self.archive {
            Some(archive) => {
                match container::find(archive, name) {
                    Err(e) => {
                        let mut text = "File not found: ".to_owned();
                        text.append(name);
                        text.append(": ");
                        text.append(e.as_str());
                        archive_error(text)
                    },
                    Ok(index) => {
                        match container::member(archive, index) {
                            Err(_) => unreached(),
                            Ok(header) => {
                                match read_entry_within_budget(
                                    archive,
                                    index,
                                    header.size,
                                    name,
                                    budget,
                                ) {
                                    Err(e) => Err(e),
                                    Ok(data) => Ok(buffer::from_vec(data)),
                                }
                            },
                        }
                    },
                }
            },
            None => unreached(),
        }
    }

    /// Extracts all files into memory.
    ///
    /// Entries whose names leave the archive root are refused, and the
    /// combined uncompressed size is capped.
    pub fn extract_all(&mut self) -> (r: FileResult<Vec<ArchiveEntry>>)
        requires
            old(self).well_formed(),
        ensures
            final(self).opened_from(old(self)),
            answers(
                r,
                unless_refused(
                    old(self).refused(),
                    all_outcome(
                        old(self).bytes(),
                        0,
                        Seq::empty(),
                        old(self).entry_limit(),
                        old(self).size_limit(),
                    ),
                ),
                |v: Vec<ArchiveEntry>| models(v@),
            ),
            r matches Ok(v) ==> all_inside(models(v@)),
            r matches Ok(v) ==> v.len() <= old(self).entry_limit() && total_size(models(v@))
                <= old(self).size_limit(),
    {
        let max_entries: usize = self.max_entries;
        let budget: u64 = self.max_uncompressed_size;
        match self.with_cached_archive() {
            Err(e) => return Err(e),
            Ok(_) => {},
        }
        match &mut self.archive {
            Some(archive) => extract_all_from(archive, max_entries, budget),
            None => unreached(),
        }
    }

    /// Starts an extraction that hands the members out one by one, each with
    /// the path to write it to.
    pub fn begin(&mut self) -> (r: FileResult<Extraction>)
        requires
            old(self).well_formed(),
        ensures
            final(self).opened_from(old(self)),
            match r {
                Ok(x) => old(self).refused() is None && x.runs_on(final(self)) && x.position() == 0
                    && x.budget_left() == old(self).size_limit() && x.pending_path() is None
                    && x.paths() == Seq::<Seq<Seq<char>>>::empty(),
                Err(e) => old(self).refused() is Some && e.is_archive_error(
                    old(self).refused()->0,
                ),
            },
    {
        let budget: u64 = self.max_uncompressed_size;
        match self.with_cached_archive() {
            Err(e) => Err(e),
            Ok(_) => {
                let x = Extraction { next: 0, budget, pending: None, staged: Vec::new() };
                assert(x.paths() == Seq::<Seq<Seq<char>>>::empty());
                Ok(x)
            },
        }
    }

    /// Moves an extraction on to the next member to be written, and gives the
    /// path to write it to.  Directories are passed over; `None` means that
    /// every member has been handed out.
    pub fn next_target(&mut self, x: &mut Extraction) -> (r: FileResult<Option<Vec<String>>>)
        requires
            old(self).well_formed(),
            old(x).runs_on(old(self)),
        ensures
            final(self).same_archive(old(self)),
            final(x).runs_on(final(self)),
            final(x).budget_left() == old(x).budget_left(),
            final(x).paths() == old(x).paths(),
            answers(
                r,
                match next_outcome(old(self).bytes(), old(x).position()) {
                    Ok(Some(found)) => Ok(Some(found.path)),
                    Ok(None) => Ok(None),
                    Err(text) => Err(text),
                },
                |p: Option<Vec<String>>| container::path_texts(p),
            ),
            r matches Ok(Some(path)) ==> final(x).pending_path() == Some(texts(path@))
                && next_outcome(old(self).bytes(), old(x).position()) == Ok::<_, Seq<char>>(
                Some((Target { index: final(x).pending_index(), path: texts(path@) })),
            ) && final(x).position() == final(x).pending_index() + 1,
            !(r matches Ok(Some(_))) ==> final(x).pending_path() is None,
            r matches Ok(Some(path)) ==> stays_inside(texts(path@)),
    {
        x.pending = None;
        match &mut self.archive {
            None => unreached(),
            Some(archive) => {
                match first_target(archive, x.next) {
                    Err(e) => Err(e),
                    Ok(None) => Ok(None),
                    Ok(Some(found)) => {
                        let handed = copy_path(&found.path);
                        x.next = found.index + 1;
                        x.pending = Some(found);
                        Ok(Some(handed))
                    },
                }
            },
        }
    }
}

impl ZipExtractor {
    /// Reads the member that was handed out last, within what is left of the
    /// budget.
    pub fn target_data(&mut self, x: &mut Extraction) -> (r: FileResult<Vec<u8>>)
        requires
            old(self).well_formed(),
            old(x).runs_on(old(self)),
            old(x).pending_path() is Some,
        ensures
            final(self).same_archive(old(self)),
            final(x).runs_on(final(self)),
            final(x).position() == old(x).position(),
            final(x).pending_path() is None,
            answers(
                r,
                read_outcome(
                    old(self).bytes(),
                    old(x).pending_index(),
                    joined(old(x).pending_path()->0),
                    old(x).budget_left(),
                ),
                |v: Vec<u8>| v@,
            ),
            r matches Ok(v) ==> v.len() <= old(x).budget_left() && final(x).budget_left() == old(
                x,
            ).budget_left() - v.len(),
            r is Ok ==> final(x).paths() == old(x).paths().push(old(x).pending_path()->0),
            r is Err ==> final(x).paths() == old(x).paths(),
    {
        let pending = x.pending.take();
        match pending {
            None => unreached(),
            Some(p) => {
                let name = join_path(&p.path);
                match &mut self.archive {
                    None => unreached(),
                    Some(archive) => {
                        match read_entry_within_budget(
                            archive,
                            p.index,
                            p.size,
                            name.as_str(),
                            x.budget,
                        ) {
                            Err(e) => Err(e),
                            Ok(data) => {
                                x.budget = x.budget - data.len() as u64;
                                x.staged.push(p.path);
                                assert(x.paths() == old(x).paths().push(texts(p.path@)));
                                Ok(data)
                            },
                        }
                    },
                }
            },
        }
    }
}

/// Looks for the first member from `from` on that is to be written.
fn first_target(archive: &mut ZipArchive<Cursor<Bytes>>, from: usize) -> (r: FileResult<
    Option<Pending>,
>)
    requires
        zip_names(container_bytes(*old(archive))) is Ok,
    ensures
        container_bytes(*final(archive)) == container_bytes(*old(archive)),
        answers(
            r,
            next_outcome(container_bytes(*old(archive)), from as nat),
            |p: Option<Pending>|
                match p {
                    Some(found) => Some(
                        (Target { index: found.index as nat, path: texts(found.path@) }),
                    ),
                    None => None,
                },
        ),
        r matches Ok(Some(found)) ==> found.index < usize::MAX && found.index < zip_names(
            container_bytes(*old(archive)),
        )->Ok_0.len() && has_size(
            container_bytes(*old(archive)),
            found.index as nat,
            found.size,
        ),
        r matches Ok(Some(found)) ==> stays_inside(texts(found.path@)),
{
    let ghost data = container_bytes(*archive);
    let count = container::count(archive);
    let mut index: usize = from;
    while index < count
        invariant
            data == container_bytes(*old(archive)),
            zip_names(data) is Ok,
            count == zip_names(data)->Ok_0.len(),
            container_bytes(*archive) == data,
            next_outcome(data, index as nat) == next_outcome(data, from as nat),
        decreases count - index,
    {
        match member_target(archive, index) {
            Err(e) => return Err(e),
            Ok(None) => {
                index = index + 1;
            },
            Ok(Some((size, path))) => return Ok(Some(Pending { index, size, path })),
        }
    }
    Ok(None)
}

struct Pending {
    index: usize,
    size: u64,
    path: Vec<String>,
}

/// An extraction that hands members out one by one.
pub struct Extraction {
    next: usize,
    budget: u64,
    pending: Option<Pending>,
    staged: Vec<Vec<String>>,
}

impl Extraction {
    /// The index of the member to look at next.
    pub closed spec fn position(&self) -> nat {
        self.next as nat
    }

    /// The uncompressed bytes that may still be produced.
    pub closed spec fn budget_left(&self) -> u64 {
        self.budget
    }

    /// The path of the member that was handed out and not read yet.
    pub closed spec fn pending_path(&self) -> Option<Seq<Seq<char>>> {
        match self.pending {
            Some(p) => Some(texts(p.path@)),
            None => None,
        }
    }

    /// The index of the member that was handed out and not read yet.
    pub closed spec fn pending_index(&self) -> nat {
        self.pending->0.index as nat
    }

    /// The paths of the members that have been read.
    pub closed spec fn paths(&self) -> Seq<Seq<Seq<char>>> {
        paths(self.staged@)
    }

    /// Gives the paths of the members that have been read, in order.
    pub fn staged_paths(self) -> (r: Vec<Vec<String>>)
        ensures
            paths(r@) == self.paths(),
    {
        self.staged
    }

    /// Whether this is an extraction from the given archive.
    pub closed spec fn runs_on(&self, ex: &ZipExtractor) -> bool {
        &&& ex.cached()
        &&& self.next <= zip_names(ex.bytes())->Ok_0.len()
        &&& self.pending matches Some(p) ==> has_size(ex.bytes(), p.index as nat, p.size)
    }
}

} // verus!
