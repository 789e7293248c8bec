//! Reading and writing ZIP containers with the `zip` crate.
//!
//! Everything here that touches the crate is believed, not proved; each item
//! says what it takes from the crate.

use crate::archive::records::{le16, le32, le64, signature_at, EOCD64_LEN, EOCD_LEN, LOCATOR_LEN};
use crate::buffer::content;
use crate::text::{decimal_text, pieces_of, replaced, texts};
use bytes::Bytes;
use std::io::{Cursor, Read, Write};
use vstd::prelude::*;
use vstd::utf8::encode_utf8;
use zip::write::SimpleFileOptions;
use zip::{CompressionMethod, ZipArchive, ZipWriter};

verus! {

/// The in-memory reader of the standard library.
#[verifier::external_type_specification]
#[verifier::external_body]
#[verifier::reject_recursive_types(T)]
pub struct ExCursor<T>(std::io::Cursor<T>);

/// An opened container with its index.
#[verifier::external_type_specification]
#[verifier::external_body]
#[verifier::reject_recursive_types(R)]
pub struct ExZipArchive<R>(zip::ZipArchive<R>);

/// The bytes that an opened container reads from.
pub uninterp spec fn container_bytes(a: ZipArchive<Cursor<Bytes>>) -> Seq<u8>;

/// What opening a container gives: the names of its members in index order,
/// or the text of the error.
pub uninterp spec fn zip_names(data: Seq<u8>) -> Result<Seq<Seq<char>>, Seq<char>>;

/// What looking a member up by name gives: its index, or the text of the
/// error.
pub uninterp spec fn zip_find(data: Seq<u8>, name: Seq<char>) -> Result<nat, Seq<char>>;

/// What accessing a member gives: its declared uncompressed size, or the text
/// of the error.
pub uninterp spec fn zip_size(data: Seq<u8>, index: nat) -> Result<u64, Seq<char>>;

/// What reading at most `limit` uncompressed bytes of a member gives.
pub uninterp spec fn zip_read(data: Seq<u8>, index: nat, limit: u64) -> Result<Seq<u8>, Seq<char>>;

/// Whether `data` is a container that the crate's writer made of these
/// entries and this comment.
pub uninterp spec fn zip_made_of(
    data: Seq<u8>,
    entries: Seq<WrittenEntry>,
    comment: Seq<char>,
) -> bool;

/// Whether looking `name` up finds the member at `index`.
pub open spec fn finds(data: Seq<u8>, name: Seq<char>, index: nat) -> bool {
    zip_find(data, name) is Ok && zip_find(data, name)->Ok_0 == index
}

/// Whether the member at `index` can be accessed and declares `size` bytes.
pub open spec fn has_size(data: Seq<u8>, index: nat, size: u64) -> bool {
    zip_size(data, index) is Ok && zip_size(data, index)->Ok_0 == size
}

/// Whether reading at most `limit` bytes of a member gives `bytes`.
pub open spec fn reads(data: Seq<u8>, index: nat, limit: u64, bytes: Seq<u8>) -> bool {
    zip_read(data, index, limit) is Ok && zip_read(data, index, limit)->Ok_0 == bytes
}

/// Walks the pieces of a path: empty pieces and `.` are skipped, `..` takes
/// back the last component, and `None` comes where there is none to take back.
pub open spec fn walk(pieces: Seq<Seq<char>>) -> Option<Seq<Seq<char>>>
    decreases pieces.len(),
{
    if pieces.len() == 0 {
        Some(Seq::empty())
    } else {
        match walk(pieces.drop_last()) {
            None => None,
            Some(path) => {
                let piece = pieces.last();
                if piece.len() == 0 || piece == seq!['.'] {
                    Some(path)
                } else if piece != seq!['.', '.'] {
                    Some(path.push(piece))
                } else if path.len() == 0 {
                    None
                } else {
                    Some(path.drop_last())
                }
            },
        }
    }
}

/// The pieces of a member name, in which slashes and backslashes separate.
pub open spec fn name_pieces(name: Seq<char>) -> Seq<Seq<char>> {
    pieces_of(replaced(name, '\\', '/'), '/')
}

/// Whether a member name begins with a separator.
pub open spec fn is_absolute(name: Seq<char>) -> bool {
    name.len() > 0 && (name[0] == '/' || name[0] == '\\')
}

/// Whether a piece of a name begins with a drive: an ASCII letter and a colon.
pub open spec fn names_drive(piece: Seq<char>) -> bool {
    piece.len() >= 2 && ('a' <= piece[0] <= 'z' || 'A' <= piece[0] <= 'Z') && piece[1] == ':'
}

/// Whether some piece begins with a drive.
pub open spec fn some_drive(pieces: Seq<Seq<char>>) -> bool {
    exists|i: int| 0 <= i < pieces.len() && names_drive(#[trigger] pieces[i])
}

/// A member name behind the drive that it begins with, if it does.
pub open spec fn behind_drive(name: Seq<char>) -> Seq<char> {
    if names_drive(name) {
        name.skip(2)
    } else {
        name
    }
}

/// Whether a member name is read the same way on every platform: behind a drive
/// at its front, it does not begin with two separators, and no piece of it
/// begins with a drive.
pub open spec fn plain_name(name: Seq<char>) -> bool {
    let rest = behind_drive(name);
    &&& !(is_absolute(rest) && is_absolute(rest.drop_first()))
    &&& !some_drive(name_pieces(rest))
}

/// The path below the extraction root that a member name stands for, in
/// components, or `None` for a name that would leave the root.
///
/// A drive at the front of the name is passed over.  Behind it, a name leaves
/// the root if it is absolute, if a piece of it begins with a drive, or if it
/// climbs out.
pub open spec fn entry_path(name: Seq<char>) -> Option<Seq<Seq<char>>> {
    let rest = behind_drive(name);
    if name.contains('\0') || is_absolute(rest) || some_drive(name_pieces(rest)) {
        None
    } else {
        walk(name_pieces(rest))
    }
}

/// The texts of an optional list of components.
pub open spec fn path_texts(path: Option<Vec<String>>) -> Option<Seq<Seq<char>>> {
    match path {
        Some(p) => Some(texts(p@)),
        None => None,
    }
}

/// What the index says of one member.
pub struct MemberHeader {
    /// The name, as stored.
    pub name: String,
    /// The declared uncompressed size.
    pub size: u64,
    /// The path that the name stands for, if it does not climb out of the
    /// extraction root.
    pub path: Option<Vec<String>>,
}

/// `ZipArchive::new` on an in-memory reader.  The contract claims that the
/// outcome is a function of the bytes, and that the opened container reads
/// from them.
#[verifier::external_body]
pub(crate) fn open(data: Bytes) -> (r: Result<ZipArchive<Cursor<Bytes>>, String>)
    ensures
        match r {
            Ok(a) => zip_names(content(data)) is Ok && container_bytes(a) == content(data),
            Err(text) => zip_names(content(data)) is Err && zip_names(content(data))->Err_0 == text@,
        },
{
    ZipArchive::new(Cursor::new(data)).map_err(|e| e.to_string())
}

/// `ZipArchive::file_names`: the member names, in index order.
#[verifier::external_body]
pub(crate) fn names(a: &ZipArchive<Cursor<Bytes>>) -> (r: Vec<String>)
    requires
        zip_names(container_bytes(*a)) is Ok,
    ensures
        texts(r@) == zip_names(container_bytes(*a))->Ok_0,
{
    a.file_names().map(|s| s.to_string()).collect()
}

/// `ZipArchive::len`: the number of members in the index.
#[verifier::external_body]
pub(crate) fn count(a: &ZipArchive<Cursor<Bytes>>) -> (n: usize)
    requires
        zip_names(container_bytes(*a)) is Ok,
    ensures
        n == zip_names(container_bytes(*a))->Ok_0.len(),
{
    a.len()
}

/// `ZipArchive::by_name`, with the index that `ZipArchive::index_for_name`
/// gives for the name.  The contract claims that the outcome is a function of
/// the container's bytes and the name, and that an index that was found lies
/// within the index and can be accessed.
#[verifier::external_body]
pub(crate) fn find(a: &mut ZipArchive<Cursor<Bytes>>, name: &str) -> (r: Result<usize, String>)
    requires
        zip_names(container_bytes(*old(a))) is Ok,
    ensures
        container_bytes(*final(a)) == container_bytes(*old(a)),
        match r {
            Ok(i) => finds(container_bytes(*old(a)), name@, i as nat) && i < zip_names(
                container_bytes(*old(a)),
            )->Ok_0.len() && zip_size(container_bytes(*old(a)), i as nat) is Ok,
            Err(text) => zip_find(container_bytes(*old(a)), name@) is Err && zip_find(
                container_bytes(*old(a)),
                name@,
            )->Err_0 == text@,
        },
{
    a.by_name(name).map_err(|e| e.to_string())?;
    a.index_for_name(name).ok_or(String::new())
}

/// `ZipArchive::by_index` and, of the member that it gives, `name`, `size` and
/// `enclosed_name`.  The contract claims that the outcome is a function of the
/// container's bytes and the index, and that the name is the one in the index.
/// A name with a NUL in it has no path; that of any other name comes of walking
/// its pieces behind a drive at its front, provided that what stands there does
/// not begin with two separators and that no piece of it begins with a drive.
/// What path the other names have differs between platforms and is left unsaid.
#[verifier::external_body]
pub(crate) fn member(a: &mut ZipArchive<Cursor<Bytes>>, index: usize) -> (r: Result<
    MemberHeader,
    String,
>)
    requires
        zip_names(container_bytes(*old(a))) is Ok,
        index < zip_names(container_bytes(*old(a)))->Ok_0.len(),
    ensures
        container_bytes(*final(a)) == container_bytes(*old(a)),
        match r {
            Ok(m) => has_size(container_bytes(*old(a)), index as nat, m.size) && m.name@
                == zip_names(container_bytes(*old(a)))->Ok_0[index as int],
            Err(text) => zip_size(container_bytes(*old(a)), index as nat) is Err && zip_size(
                container_bytes(*old(a)),
                index as nat,
            )->Err_0 == text@,
        },
        r matches Ok(m) ==> m.name@.contains('\0') ==> m.path is None,
        r matches Ok(m) ==> !m.name@.contains('\0') && plain_name(m.name@) ==> path_texts(m.path)
            == walk(name_pieces(behind_drive(m.name@))),
{
    let file = a.by_index(index).map_err(|e| e.to_string())?;
    Ok(MemberHeader {
        name: file.name().to_string(),
        size: file.size(),
        path: file.enclosed_name().map(
            |p| p.iter().map(|c| c.to_string_lossy().into_owned()).collect(),
        ),
    })
}

/// Reads a member with `std::io::copy` through `Read::take`.  The contract
/// claims that the outcome is a function of the container's bytes, the index
/// and the limit, and that no more than `limit` bytes come out.
#[verifier::external_body]
pub(crate) fn read(a: &mut ZipArchive<Cursor<Bytes>>, index: usize, limit: u64) -> (r: Result<
    Vec<u8>,
    String,
>)
    requires
        zip_size(container_bytes(*old(a)), index as nat) is Ok,
    ensures
        container_bytes(*final(a)) == container_bytes(*old(a)),
        match r {
            Ok(v) => reads(container_bytes(*old(a)), index as nat, limit, v@) && v@.len() <= limit,
            Err(text) => zip_read(container_bytes(*old(a)), index as nat, limit) is Err && zip_read(
                container_bytes(*old(a)),
                index as nat,
                limit,
            )->Err_0 == text@,
        },
{
    let mut file = a.by_index(index).map_err(|e| e.to_string())?;
    let mut data = Vec::new();
    std::io::copy(&mut file.by_ref().take(limit), &mut data).map_err(|e| e.to_string())?;
    Ok(data)
}

/// How an entry is stored.
#[derive(Clone, Copy)]
pub enum Method {
    /// As it is.
    Stored,
    /// Deflated, at a level from 1 to 9.
    Deflated(i64),
}

/// An entry handed to a container writer.
pub struct WrittenEntry {
    pub name: Seq<char>,
    pub data: Seq<u8>,
    pub method: Method,
}

/// A container writer over memory.
#[verifier::external_body]
pub struct ContainerWriter {
    inner: ZipWriter<Cursor<Vec<u8>>>,
}

/// The entries that a writer has been given.
pub uninterp spec fn written(w: ContainerWriter) -> Seq<WrittenEntry>;

/// The comment that a writer has been given.
pub uninterp spec fn written_comment(w: ContainerWriter) -> Seq<char>;

/// Whether an entry of that name is among the entries.
pub open spec fn has_name(entries: Seq<WrittenEntry>, name: Seq<char>) -> bool {
    exists|i: int| 0 <= i < entries.len() && (#[trigger] entries[i]).name == name
}

/// Whether an entry is small enough for the sizes of the classic format: as it
/// is if it is stored that way, and however badly it compresses otherwise.
pub open spec fn is_moderate(entry: WrittenEntry) -> bool {
    match entry.method {
        Method::Stored => entry.data.len() <= 0xFFFF_FFFF,
        Method::Deflated(_) => entry.data.len() <= 0x7FFF_FFFF,
    }
}

/// Whether an entry is too large for the sizes of the classic format, however it
/// is stored.
pub open spec fn is_oversized(entry: WrittenEntry) -> bool {
    entry.data.len() > 0xFFFF_FFFF
}

/// Whether every entry is small enough for the sizes of the classic format.
pub open spec fn all_moderate(entries: Seq<WrittenEntry>) -> bool {
    forall|i: int| 0 <= i < entries.len() ==> is_moderate(#[trigger] entries[i])
}

/// What the standard library says of the length of a name that is too long for
/// the format.
pub uninterp spec fn long_name_text(name: Seq<char>) -> Seq<char>;

/// The member count of the classic end record: more than it can hold is cut
/// off.
pub open spec fn classic_count(count: nat) -> nat {
    if count < 0xFFFF {
        count
    } else {
        0xFFFF
    }
}

/// Where the end record of a container with a comment of `comment_len` bytes
/// stands.
pub open spec fn record_start(data: Seq<u8>, comment_len: nat) -> int {
    data.len() - EOCD_LEN - comment_len
}

/// Whether the container ends in an end record for `count` members that is
/// followed by a comment of `comment_len` bytes.
///
/// Without Zip64 records, the central directory reaches up to the record.  More
/// members than the record can count are declared in a Zip64 record in front of
/// it, with the locator in between.
pub open spec fn ends_in_record(data: Seq<u8>, count: nat, comment_len: nat) -> bool {
    let at = record_start(data, comment_len);
    &&& 0 <= at
    &&& signature_at(data, at, 5, 6)
    &&& le16(data, at + 10) == classic_count(count)
    &&& le16(data, at + 20) == comment_len
    &&& count <= 0xFFFF && data.len() < 0xFFFF_FFFF ==> le32(data, at + 12) + le32(data, at + 16)
        == at
    &&& count > 0xFFFF ==> {
        &&& at >= EOCD64_LEN + LOCATOR_LEN
        &&& signature_at(data, at - LOCATOR_LEN - EOCD64_LEN, 6, 6)
        &&& le64(data, at - LOCATOR_LEN - EOCD64_LEN + 4) == 44
        &&& le64(data, at - LOCATOR_LEN - EOCD64_LEN + 32) == count
    }
}

/// Whether the end record of a container of `count` members makes a reader
/// look for a Zip64 locator in front of it, while the bytes that stand there
/// only look like one: they are the end of a directory that just reaches a
/// limit of the classic format.
pub open spec fn seems_zip64(data: Seq<u8>, count: nat, comment_len: nat) -> bool {
    let at = record_start(data, comment_len);
    &&& count <= 0xFFFF
    &&& at >= LOCATOR_LEN
    &&& signature_at(data, at - LOCATOR_LEN, 6, 7)
    &&& if le32(data, at + 12) < 0xFFFF_FFFF {
        count == 0xFFFF || le32(data, at + 16) == 0xFFFF_FFFF
    } else {
        at == le32(data, at + 16) + 0xFFFF_FFFF
    }
}

/// Whether nothing in a container can be taken for one of its end records: no
/// classic record begins after its own, and the end of its directory does not
/// pass for a Zip64 locator.
pub open spec fn unambiguous(data: Seq<u8>, count: nat, comment_len: nat) -> bool {
    &&& forall|at: int|
        record_start(data, comment_len) < at <= data.len() - EOCD_LEN ==> !signature_at(
            data,
            at,
            5,
            6,
        )
    &&& !seems_zip64(data, count, comment_len)
}

/// At most the first `limit` of the bytes.
pub open spec fn first_bytes(bytes: Seq<u8>, limit: u64) -> Seq<u8> {
    if bytes.len() <= limit {
        bytes
    } else {
        bytes.take(limit as int)
    }
}

/// Whether reading the container gives back exactly these entries.
pub open spec fn reads_back(data: Seq<u8>, entries: Seq<WrittenEntry>) -> bool {
    &&& zip_names(data) is Ok
    &&& zip_names(data)->Ok_0 == Seq::new(entries.len(), |i: int| entries[i].name)
    &&& forall|i: int|
        0 <= i < entries.len() ==> finds(data, (#[trigger] entries[i]).name, i as nat)
    &&& forall|i: int|
        0 <= i < entries.len() ==> has_size(
            data,
            i as nat,
            (#[trigger] entries[i]).data.len() as u64,
        )
    &&& forall|i: nat, limit: u64|
        #![trigger zip_read(data, i, limit)]
        i < entries.len() ==> reads(data, i, limit, first_bytes(entries[i as int].data, limit))
}

impl ContainerWriter {
    /// `ZipWriter::new` over an empty in-memory buffer: no entries yet and no
    /// comment.
    #[verifier::external_body]
    pub(crate) fn new() -> (w: ContainerWriter)
        ensures
            written(w) == Seq::<WrittenEntry>::empty(),
            written_comment(w) == Seq::<char>::empty(),
    {
        ContainerWriter { inner: ZipWriter::new(Cursor::new(Vec::new())) }
    }

    /// `ZipWriter::start_file` with the given method and level.  The contract
    /// claims that a name that was used before is refused, and so is one of
    /// more than 65535 bytes.  Under the condition that the entries so far need
    /// no Zip64 sizes, it gives the texts of the two refusals, the second up to
    /// what the standard library adds, and claims that every other name is
    /// accepted.
    #[verifier::external_body]
    pub(crate) fn start_file(&mut self, name: &str, method: Method) -> (r: Result<(), String>)
        requires
            method matches Method::Deflated(level) ==> 1 <= level <= 9,
        ensures
            r is Ok ==> !has_name(written(*old(self)), name@) && encode_utf8(name@).len()
                <= 0xFFFF,
            r is Ok ==> written(*final(self)) == written(*old(self)).push(
                (WrittenEntry { name: name@, data: Seq::empty(), method }),
            ),
            r is Ok ==> written_comment(*final(self)) == written_comment(*old(self)),
            all_moderate(written(*old(self))) && has_name(written(*old(self)), name@) ==> (
            r matches Err(text) && text@ == "invalid Zip archive: Duplicate filename: "@ + name@),
            all_moderate(written(*old(self))) && !has_name(written(*old(self)), name@)
                && encode_utf8(name@).len() > 0xFFFF ==> (r matches Err(text) && text@
                == "i/o error: "@ + long_name_text(name@)),
            all_moderate(written(*old(self))) && !has_name(written(*old(self)), name@)
                && encode_utf8(name@).len() <= 0xFFFF ==> r is Ok,
    {
        let base = SimpleFileOptions::default();
        let options = match method {
            Method::Stored => base.compression_method(CompressionMethod::Stored),
            Method::Deflated(level) => base.compression_method(
                CompressionMethod::Deflated,
            ).compression_level(Some(level)),
        };
        self.inner.start_file(name, options).map_err(|e| e.to_string())
    }

    /// `Write::write_all` on the open entry.  The contract claims that the
    /// bytes are added to the entry that was started last, and that an entry
    /// is accepted if it is of less than 4 GiB, and refused otherwise.
    #[verifier::external_body]
    pub(crate) fn write_all(&mut self, data: &[u8]) -> (r: Result<(), String>)
        requires
            written(*old(self)).len() > 0,
        ensures
            r is Ok ==> written(*final(self)) == written(*old(self)).drop_last().push(
                (WrittenEntry {
                    name: written(*old(self)).last().name,
                    data: written(*old(self)).last().data + data@,
                    method: written(*old(self)).last().method,
                }),
            ),
            r is Ok ==> written_comment(*final(self)) == written_comment(*old(self)),
            written(*old(self)).last().data.len() + data@.len() <= 0xFFFF_FFFF ==> r is Ok,
            written(*old(self)).last().data.len() + data@.len() > 0xFFFF_FFFF ==> (r matches Err(
                text,
            ) && text@ == "Large file option has not been set"@),
    {
        self.inner.write_all(data).map_err(|e| e.to_string())
    }

    /// `ZipWriter::set_comment`: accepted up to 65535 bytes, and refused with
    /// the number of bytes beyond that otherwise.
    #[verifier::external_body]
    pub(crate) fn set_comment(&mut self, comment: &str) -> (r: Result<(), String>)
        ensures
            match r {
                Ok(_) => encode_utf8(comment@).len() <= 0xFFFF && written_comment(*final(self))
                    == comment@ && written(*final(self)) == written(*old(self)),
                Err(text) => encode_utf8(comment@).len() > 0xFFFF && text@
                    == "i/o error: Unexpected data comment - "@ + decimal_text(
                    (encode_utf8(comment@).len() - 0xFFFF) as nat,
                ) + " bytes too long"@,
            },
    {
        self.inner.set_comment(comment).map_err(|e| e.to_string())
    }

    /// `ZipWriter::finish`.  The contract claims that a container comes out
    /// that was made of the entries and the comment, that it ends in its end
    /// records, and that reading it gives the entries back, unless something
    /// else in it can be taken for an end record.
    #[verifier::external_body]
    pub(crate) fn finish(self) -> (r: Result<Vec<u8>, String>)
        ensures
            all_moderate(written(self)) ==> r is Ok,
            r matches Ok(data) ==> zip_made_of(data@, written(self), written_comment(self)),
            r matches Ok(data) ==> ends_in_record(
                data@,
                written(self).len(),
                encode_utf8(written_comment(self)).len(),
            ),
            r matches Ok(data) ==> unambiguous(
                data@,
                written(self).len(),
                encode_utf8(written_comment(self)).len(),
            ) ==> reads_back(data@, written(self)),
    {
        self.inner.finish().map(|c| c.into_inner()).map_err(|e| e.to_string())
    }
}

} // verus!
