//! Creation of ZIP archives.

use crate::archive::container::{
    all_moderate, ends_in_record, has_name, is_moderate, is_oversized, long_name_text, reads_back,
    unambiguous, written, written_comment, zip_made_of, ContainerWriter, Method, WrittenEntry,
};
use crate::archive::extractor::ArchiveEntry;
use crate::buffer::{self, content};
use crate::clock;
use crate::error::{FileError, FileResult};
use crate::metadata::{text_of, FileMetadata, MetadataView};
use crate::result::ProcessingResult;
use crate::text::{decimal, decimal_text, replace, replaced, texts};
use bytes::Bytes;
use vstd::prelude::*;
use vstd::string::*;
use vstd::utf8::encode_utf8;

verus! {

/// Compression level for archives.
#[derive(Debug, Clone, Copy, PartialEq, Eq, Structural)]
pub enum CompressionLevel {
    /// No compression (store only).
    Stored,
    /// Fast compression.
    Fast,
    /// Default compression.
    Default,
    /// Best compression (slowest).
    Best,
}

impl CompressionLevel {
    /// How entries are stored at this level.
    pub open spec fn method(self) -> Method {
        match self {
            CompressionLevel::Stored => Method::Stored,
            CompressionLevel::Fast => Method::Deflated(1),
            CompressionLevel::Default => Method::Deflated(6),
            CompressionLevel::Best => Method::Deflated(9),
        }
    }

    /// How entries are stored at this level.
    pub fn to_options(&self) -> (r: Method)
        ensures
            r == self.method(),
    {
        match self {
            CompressionLevel::Stored => Method::Stored,
            CompressionLevel::Fast => Method::Deflated(1),
            CompressionLevel::Default => Method::Deflated(6),
            CompressionLevel::Best => Method::Deflated(9),
        }
    }
}

impl Default for CompressionLevel {
    fn default() -> (r: CompressionLevel)
        ensures
            r == CompressionLevel::Default,
    {
        CompressionLevel::Default
    }
}

/// The entry that is written for an entry of a builder: separators in its path
/// are slashes.
pub open spec fn normalized(entry: ArchiveEntry, level: CompressionLevel) -> WrittenEntry {
    WrittenEntry {
        name: replaced(entry.path@, '\\', '/'),
        data: content(entry.data),
        method: level.method(),
    }
}

/// The entries that are written for the entries of a builder.
pub open spec fn normalized_all(
    entries: Seq<ArchiveEntry>,
    level: CompressionLevel,
) -> Seq<WrittenEntry> {
    Seq::new(entries.len(), |i: int| normalized(entries[i], level))
}

/// Whether it can be told of every entry, without compressing it, if it fits
/// into a container.
pub open spec fn sizes_are_clear(entries: Seq<WrittenEntry>) -> bool {
    forall|i: int|
        0 <= i < entries.len() ==> is_moderate(#[trigger] entries[i]) || is_oversized(entries[i])
}

/// The first entry, from `from` on, whose name occurs before it, or whose name
/// or data do not fit into a container.
pub open spec fn first_refused(entries: Seq<WrittenEntry>, from: nat) -> Option<nat>
    decreases entries.len() - from,
{
    if from >= entries.len() {
        None
    } else if has_name(entries.take(from as int), entries[from as int].name) || encode_utf8(
        entries[from as int].name,
    ).len() > 0xFFFF || is_oversized(entries[from as int]) {
        Some(from)
    } else {
        first_refused(entries, from + 1)
    }
}

/// Why an archive cannot be built of entries with clear sizes, if it cannot.
pub open spec fn build_refusal(entries: Seq<WrittenEntry>, comment: Seq<char>) -> Option<
    Seq<char>,
> {
    match first_refused(entries, 0) {
        Some(i) => {
            let name = entries[i as int].name;
            Some(
                if has_name(entries.take(i as int), name) {
                    "Failed to add file "@ + name + ": "@ + (
                    "invalid Zip archive: Duplicate filename: "@ + name)
                } else if encode_utf8(name).len() > 0xFFFF {
                    "Failed to add file "@ + name + ": "@ + ("i/o error: "@ + long_name_text(name))
                } else {
                    "Failed to write "@ + name + ": "@ + "Large file option has not been set"@
                },
            )
        },
        None => if encode_utf8(comment).len() > 0xFFFF {
            Some(
                "Failed to set comment: "@ + ("i/o error: Unexpected data comment - "@
                    + decimal_text((encode_utf8(comment).len() - 0xFFFF) as nat)
                    + " bytes too long"@),
            )
        } else {
            None
        },
    }
}

/// The comment that is written: none is the same as an empty one.
pub open spec fn comment_text(comment: Option<Seq<char>>) -> Seq<char> {
    match comment {
        Some(c) => c,
        None => Seq::empty(),
    }
}

/// Whether `data` is an archive that was made of these entries and this
/// comment.  It ends in its end records, and reading it gives the entries back,
/// unless something else in it can be taken for an end record.
pub open spec fn archive_of(
    data: Seq<u8>,
    files: Seq<WrittenEntry>,
    comment: Seq<char>,
) -> bool {
    let comment_len = encode_utf8(comment).len();
    &&& zip_made_of(data, files, comment)
    &&& ends_in_record(data, files.len(), comment_len)
    &&& unambiguous(data, files.len(), comment_len) ==> reads_back(data, files)
}

/// The metadata of an archive of the given size.
pub open spec fn archive_metadata(size: nat) -> MetadataView {
    MetadataView {
        filename: "archive.zip"@,
        mime_type: "application/zip"@,
        size,
        extension: Some("zip"@),
        width: None,
        height: None,
        pages: None,
    }
}

/// ZIP archive builder.
pub struct ZipBuilder {
    entries: Vec<ArchiveEntry>,
    compression: CompressionLevel,
    comment: Option<String>,
}

impl ZipBuilder {
    /// The entries added so far, in order.
    pub closed spec fn files(&self) -> Seq<ArchiveEntry> {
        self.entries@
    }

    /// The compression level.
    pub closed spec fn level(&self) -> CompressionLevel {
        self.compression
    }

    /// The comment, if one was set.
    pub closed spec fn note(&self) -> Option<Seq<char>> {
        text_of(self.comment)
    }

    /// The entries as they are written.
    pub open spec fn written_files(&self) -> Seq<WrittenEntry> {
        normalized_all(self.files(), self.level())
    }

    /// Creates a builder.
    pub fn new() -> (r: ZipBuilder)
        ensures
            r.files() == Seq::<ArchiveEntry>::empty(),
            r.level() == CompressionLevel::Default,
            r.note() is None,
    {
        ZipBuilder { entries: Vec::new(), compression: CompressionLevel::Default, comment: None }
    }

    /// Sets the compression level.
    pub fn compression(self, level: CompressionLevel) -> (r: ZipBuilder)
        ensures
            r.files() == self.files(),
            r.level() == level,
            r.note() == self.note(),
    {
        ZipBuilder { compression: level, ..self }
    }

    /// Sets the archive comment.
    pub fn comment(self, comment: String) -> (r: ZipBuilder)
        ensures
            r.files() == self.files(),
            r.level() == self.level(),
            r.note() == Some(comment@),
    {
        ZipBuilder { comment: Some(comment), ..self }
    }

    /// Adds a file to the archive.
    pub fn add_file(self, path: String, data: Bytes) -> (r: ZipBuilder)
        ensures
            r.files() == self.files().push((ArchiveEntry { path, data })),
            r.level() == self.level(),
            r.note() == self.note(),
    {
        let mut entries = self.entries;
        entries.push(ArchiveEntry::new(path, data));
        ZipBuilder { entries, compression: self.compression, comment: self.comment }
    }

    /// Adds multiple files.
    pub fn add_files(self, entries: Vec<ArchiveEntry>) -> (r: ZipBuilder)
        ensures
            r.files() == self.files() + entries@,
            r.level() == self.level(),
            r.note() == self.note(),
    {
        let mut all = self.entries;
        let mut more = entries;
        all.append(&mut more);
        ZipBuilder { entries: all, compression: self.compression, comment: self.comment }
    }

    /// The compression level that was set.
    pub fn compression_level(&self) -> (r: CompressionLevel)
        ensures
            r == self.level(),
    {
        self.compression
    }

    /// The comment that was set.
    pub fn comment_set(&self) -> (r: Option<String>)
        ensures
            text_of(r) == self.note(),
    {
        match &self.comment {
            Some(c) => Some(c.clone()),
            None => None,
        }
    }

    /// Builds the archive.
    ///
    /// Path separators are normalized to slashes.  A path that occurs twice is
    /// an error, and so are a path of more than 65535 bytes and a file of 4 GiB
    /// or more.
    pub fn build(self) -> (r: FileResult<ProcessingResult>)
        ensures
            sizes_are_clear(self.written_files()) ==> match r {
                Ok(_) => build_refusal(self.written_files(), comment_text(self.note())) is None,
                Err(e) => build_refusal(self.written_files(), comment_text(self.note())) matches Some(
                    text,
                ) && e.is_archive_error(text),
            },
            r is Ok ==> build_refusal(self.written_files(), comment_text(self.note())) is None,
            r matches Err(e) ==> e is Archive,
            r matches Ok(result) ==> {
                let data = content(result.data);
                let files = self.written_files();
                &&& archive_of(data, files, comment_text(self.note()))
                &&& result.metadata@ == archive_metadata(data.len())
                &&& texts(result.operations@) == seq![
                    "zip:create("@ + decimal_text(files.len()) + " files)"@,
                ]
            },
    {
        let start = clock::now();
        let mut zip = ContainerWriter::new();
        let method = self.compression.to_options();
        let ghost files = self.written_files();
        let mut i: usize = 0;
        while i < self.entries.len()
            invariant
                i <= self.entries.len(),
                method == self.compression.method(),
                files == self.written_files(),
                files.len() == self.entries.len(),
                written(zip) == files.take(i as int),
                written_comment(zip) == Seq::<char>::empty(),
                first_refused(files, i as nat) == first_refused(files, 0),
                forall|j: int| 0 <= j < i ==> !is_oversized(#[trigger] files[j]),
            decreases self.entries.len() - i,
        {
            let ghost done = files.take(i as int);
            assert(forall|j: int| 0 <= j < i ==> #[trigger] done[j] == files[j]);
            assert(sizes_are_clear(files) ==> all_moderate(done));
            let entry = &self.entries[i];
            let path = replace(entry.path.as_str(), '\\', '/');
            assert(path@ == files[i as int].name);
            match zip.start_file(path.as_str(), method) {
                Err(e) => {
                    let mut text = "Failed to add file ".to_owned();
                    text.append(path.as_str());
                    text.append(": ");
                    text.append(e.as_str());
                    return Err(FileError::Archive(text));
                },
                Ok(_) => {},
            }
            match zip.write_all(buffer::as_slice(&entry.data)) {
                Err(e) => {
                    let mut text = "Failed to write ".to_owned();
                    text.append(path.as_str());
                    text.append(": ");
                    text.append(e.as_str());
                    assert(files[i as int].data == content(entry.data));
                    return Err(FileError::Archive(text));
                },
                Ok(_) => {},
            }
            assert(Seq::<u8>::empty() + content(entry.data) == content(entry.data));
            assert(files.take(i + 1) == done.push(files[i as int]));
            assert(written(zip) == files.take(i + 1));
            i = i + 1;
        }
        assert(files.take(files.len() as int) == files);
        assert(sizes_are_clear(files) ==> all_moderate(files));
        if let Some(comment) = &self.comment {
            match zip.set_comment(comment.as_str()) {
                Err(e) => {
                    let mut text = "Failed to set comment: ".to_owned();
                    text.append(e.as_str());
                    return Err(FileError::Archive(text));
                },
                Ok(_) => {},
            }
        }
        match zip.finish() {
            Err(e) => {
                let mut text = "Failed to finalize archive: ".to_owned();
                text.append(e.as_str());
                Err(FileError::Archive(text))
            },
            Ok(bytes) => {
                let data = buffer::from_vec(bytes);
                let size = buffer::length(&data) as u64;
                let mut operation = "zip:create(".to_owned();
                operation.append(decimal(self.entries.len() as u64).as_str());
                operation.append(" files)");
                let mut operations: Vec<String> = Vec::new();
                operations.push(operation);
                assert(texts(operations@) == seq![operation@]);
                Ok(
                    ProcessingResult {
                        data,
                        metadata: FileMetadata {
                            filename: "archive.zip".to_owned(),
                            mime_type: "application/zip".to_owned(),
                            size,
                            extension: Some("zip".to_owned()),
                            width: None,
                            height: None,
                            pages: None,
                        },
                        operations,
                        processing_time_ms: clock::elapsed_ms(&start),
                    },
                )
            },
        }
    }
}

impl Default for ZipBuilder {
    fn default() -> (r: ZipBuilder)
        ensures
            r.files() == Seq::<ArchiveEntry>::empty(),
            r.level() == CompressionLevel::Default,
            r.note() is None,
    {
        ZipBuilder::new()
    }
}

/// The path within the archive of a file of a directory: its path below the
/// directory, behind the prefix if there is one.
pub open spec fn archive_text(prefix: Seq<char>, relative: Seq<char>) -> Seq<char> {
    if prefix.len() == 0 {
        relative
    } else {
        prefix + "/"@ + relative
    }
}

/// The path within the archive of a file of a directory.
pub fn archive_path(prefix: &str, relative: &str) -> (r: String)
    ensures
        r@ == archive_text(prefix@, relative@),
{
    if prefix.is_empty() {
        return relative.to_owned();
    }
    let mut out = prefix.to_owned();
    out.append("/");
    out.append(relative);
    out
}

} // verus!
