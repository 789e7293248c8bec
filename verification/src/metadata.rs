//! What is known about a file besides its bytes.

use crate::text::{
    equal, has_prefix, interleaved, law_pieces_lose_only_separators, law_pieces_of_both_sides,
    law_text_without_separator_is_one_piece, pieces, pieces_of, starts_with, texts,
};
use std::path::Path;
use vstd::prelude::*;
use vstd::string::*;

verus! {

/// The MIME type that is guessed for a file extension.
pub uninterp spec fn guessed_mime(extension: Seq<char>) -> Seq<char>;

/// `mime_guess::from_ext` and, of the guess, `first_or_octet_stream`.  The
/// contract claims that the type depends on the extension alone, and that it
/// is `application/octet-stream` for the empty extension.
#[verifier::external_body]
fn guess_mime(extension: &str) -> (r: String)
    ensures
        r@ == guessed_mime(extension@),
        extension@.len() == 0 ==> r@ == "application/octet-stream"@,
{
    mime_guess::from_ext(extension).first_or_octet_stream().to_string()
}

/// Whether a path is read the same way on every platform.
pub open spec fn portable_path(path: Seq<char>) -> bool {
    &&& !path.contains('\\')
    &&& !path.contains(':')
    &&& !(path.len() >= 2 && path[0] == '/' && path[1] == '/')
}

/// The last component of a path in pieces, if it is a name.  Empty pieces and
/// `.` do not count; a path that ends in `..` has no file name.
pub open spec fn last_name(pieces: Seq<Seq<char>>) -> Option<Seq<char>>
    decreases pieces.len(),
{
    if pieces.len() == 0 || pieces.last() == seq!['.', '.'] {
        None
    } else if pieces.last().len() == 0 || pieces.last() == seq!['.'] {
        last_name(pieces.drop_last())
    } else {
        Some(pieces.last())
    }
}

/// `Path::file_name`.  The contract claims that the file name of a path that
/// reads the same on every platform is its last component, where that is a
/// name.  Nothing is said of other paths.
#[verifier::external_body]
fn file_name(path: &str) -> (r: Option<String>)
    ensures
        portable_path(path@) ==> text_of(r) == last_name(pieces_of(path@, '/')),
{
    Path::new(path).file_name().map(|s| s.to_string_lossy().into_owned())
}

/// The text, or nothing where there is none.
pub open spec fn or_empty(s: Option<Seq<char>>) -> Seq<char> {
    match s {
        Some(t) => t,
        None => Seq::empty(),
    }
}

/// The extension of a file name: what follows its last dot.  A name without a
/// dot has none, and neither has one whose only dot comes first.
pub open spec fn extension_of(name: Seq<char>) -> Option<Seq<char>> {
    let pieces = pieces_of(name, '.');
    if pieces.len() < 2 || (pieces.len() == 2 && pieces[0].len() == 0) {
        None
    } else {
        Some(pieces.last())
    }
}

/// The text of an optional string.
pub open spec fn text_of(s: Option<String>) -> Option<Seq<char>> {
    match s {
        Some(t) => Some(t@),
        None => None,
    }
}

/// The extension of a file name.
fn extension(name: &str) -> (r: Option<String>)
    ensures
        text_of(r) == extension_of(name@),
{
    let mut parts = pieces(name, '.');
    let ghost views = texts(parts@);
    if parts.len() < 2 || (parts.len() == 2 && parts[0].as_str().is_empty()) {
        return None;
    }
    assert(views.last() == parts@.last()@);
    parts.pop()
}

/// File metadata.
#[derive(Debug, Clone)]
pub struct FileMetadata {
    /// Original filename.
    pub filename: String,
    /// MIME type.
    pub mime_type: String,
    /// File size in bytes.
    pub size: u64,
    /// File extension.
    pub extension: Option<String>,
    /// Width (for images).
    pub width: Option<u32>,
    /// Height (for images).
    pub height: Option<u32>,
    /// Page count (for PDFs).
    pub pages: Option<u32>,
}

/// File metadata, with its texts in characters.
pub struct MetadataView {
    pub filename: Seq<char>,
    pub mime_type: Seq<char>,
    pub size: nat,
    pub extension: Option<Seq<char>>,
    pub width: Option<u32>,
    pub height: Option<u32>,
    pub pages: Option<u32>,
}

/// The metadata of a file of which only a name and a size are known.
///
/// `base` is the file name that the extension is taken from, if there is one.
pub open spec fn named_file(
    filename: Seq<char>,
    base: Option<Seq<char>>,
    size: nat,
) -> MetadataView {
    let extension = match base {
        Some(name) => extension_of(name),
        None => None,
    };
    MetadataView {
        filename,
        mime_type: match extension {
            Some(e) => guessed_mime(e),
            None => "application/octet-stream"@,
        },
        size,
        extension,
        width: None,
        height: None,
        pages: None,
    }
}

impl View for FileMetadata {
    type V = MetadataView;

    open spec fn view(&self) -> MetadataView {
        MetadataView {
            filename: self.filename@,
            mime_type: self.mime_type@,
            size: self.size as nat,
            extension: text_of(self.extension),
            width: self.width,
            height: self.height,
            pages: self.pages,
        }
    }
}

/// The metadata of a file with a name and a size, given the file name at the
/// end of its path.
pub fn describe(filename: String, base: Option<String>, size: u64) -> (r: FileMetadata)
    ensures
        r@ == named_file(filename@, text_of(base), size as nat),
{
    let extension = match &base {
        Some(name) => extension(name.as_str()),
        None => None,
    };
    let mime_type = match &extension {
        Some(e) => guess_mime(e.as_str()),
        None => guess_mime(""),
    };
    proof {
        reveal_strlit("");
    }
    FileMetadata { filename, mime_type, size, extension, width: None, height: None, pages: None }
}

impl FileMetadata {
    /// Creates metadata from a file path.
    pub fn from_path(path: &str) -> (r: FileMetadata)
        ensures
            exists|base: Option<Seq<char>>|
                r@ == #[trigger] named_file(or_empty(base), base, 0),
            portable_path(path@) ==> r@ == named_file(
                or_empty(last_name(pieces_of(path@, '/'))),
                last_name(pieces_of(path@, '/')),
                0,
            ),
    {
        let base = file_name(path);
        let filename = match &base {
            Some(name) => name.clone(),
            None => String::new(),
        };
        let ghost view = text_of(base);
        let r = describe(filename, base, 0);
        assert(r@ == named_file(or_empty(view), view, 0));
        r
    }

    /// Creates metadata from bytes, with a filename as a hint.
    pub fn from_bytes(data: &[u8], filename: String) -> (r: FileMetadata)
        ensures
            exists|base: Option<Seq<char>>|
                r@ == #[trigger] named_file(filename@, base, data@.len()),
            portable_path(filename@) ==> r@ == named_file(
                filename@,
                last_name(pieces_of(filename@, '/')),
                data@.len(),
            ),
    {
        let base = file_name(filename.as_str());
        let ghost view = text_of(base);
        let ghost name = filename@;
        let r = describe(filename, base, data.len() as u64);
        assert(r@ == named_file(name, view, data@.len()));
        r
    }

    /// Checks if this is an image file.
    pub fn is_image(&self) -> (r: bool)
        ensures
            r == has_prefix(self@.mime_type, "image/"@),
    {
        starts_with(self.mime_type.as_str(), "image/")
    }

    /// Checks if this is a PDF file.
    pub fn is_pdf(&self) -> (r: bool)
        ensures
            r == (self@.mime_type == "application/pdf"@),
    {
        equal(self.mime_type.as_str(), "application/pdf")
    }

    /// Checks if this is an archive.
    pub fn is_archive(&self) -> (r: bool)
        ensures
            r == (self@.mime_type == "application/zip"@ || self@.mime_type
                == "application/x-tar"@ || self@.mime_type == "application/gzip"@),
    {
        equal(self.mime_type.as_str(), "application/zip") || equal(
            self.mime_type.as_str(),
            "application/x-tar",
        ) || equal(self.mime_type.as_str(), "application/gzip")
    }

    /// Copies the metadata.
    pub fn duplicate(&self) -> (r: FileMetadata)
        ensures
            r@ == self@,
    {
        FileMetadata {
            filename: self.filename.clone(),
            mime_type: self.mime_type.clone(),
            size: self.size,
            extension: match &self.extension {
                Some(e) => Some(e.clone()),
                None => None,
            },
            width: self.width,
            height: self.height,
            pages: self.pages,
        }
    }
}

/// The extension of a name is what stands behind its last dot, if something
/// stands in front of that.  A name without a dot has none.
pub proof fn law_extensions_stand_behind_the_last_dot(stem: Seq<char>, end: Seq<char>)
    requires
        !end.contains('.'),
    ensures
        stem.len() > 0 ==> extension_of(stem.push('.') + end) == Some(end),
        extension_of(seq!['.'] + end) is None,
        extension_of(end) is None,
{
    law_text_without_separator_is_one_piece(end, '.');
    let none = Seq::<char>::empty();
    law_pieces_of_both_sides(none, end, '.');
    assert(none.push('.') == seq!['.']);
    assert(pieces_of(none, '.') == seq![none]);
    assert(pieces_of(seq!['.'] + end, '.') == seq![none, end]);
    law_pieces_of_both_sides(stem, end, '.');
    law_pieces_lose_only_separators(stem, '.');
    let front = pieces_of(stem, '.');
    let all = pieces_of(stem.push('.') + end, '.');
    assert(all == front.push(end)) by {
        assert(front + seq![end] =~= front.push(end));
    }
    assert(all.last() == end);
    if front.len() == 1 {
        assert(interleaved(front, '.') == front[0]);
    }
}

/// The file name of a path is its last component, whatever directories stand in
/// front of it.  A slash or `/.` at the end changes nothing, and a path that ends
/// in `..` has no file name.
pub proof fn law_file_names_come_last(path: Seq<char>, name: Seq<char>)
    requires
        !name.contains('/'),
        name.len() > 0,
        name != seq!['.'],
        name != seq!['.', '.'],
    ensures
        last_name(pieces_of(name, '/')) == Some(name),
        last_name(pieces_of(path.push('/') + name, '/')) == Some(name),
        last_name(pieces_of(path.push('/'), '/')) == last_name(pieces_of(path, '/')),
        last_name(pieces_of(path.push('/') + seq!['.'], '/')) == last_name(pieces_of(path, '/')),
        last_name(pieces_of(path.push('/') + seq!['.', '.'], '/')) is None,
        last_name(pieces_of(Seq::empty(), '/')) is None,
{
    let none = Seq::<char>::empty();
    let dot = seq!['.'];
    let dots = seq!['.', '.'];
    assert(dot.len() == 1 && dots.len() == 2 && none.len() == 0);
    let front = pieces_of(path, '/');
    law_text_without_separator_is_one_piece(name, '/');
    law_text_without_separator_is_one_piece(none, '/');
    law_text_without_separator_is_one_piece(dot, '/');
    law_text_without_separator_is_one_piece(dots, '/');
    law_pieces_of_both_sides(path, name, '/');
    law_pieces_of_both_sides(path, none, '/');
    law_pieces_of_both_sides(path, dot, '/');
    law_pieces_of_both_sides(path, dots, '/');
    assert(path.push('/') + none == path.push('/'));
    assert(seq![name].last() == name);
    assert((front + seq![name]).last() == name);
    assert((front + seq![none]).last() == none);
    assert((front + seq![none]).drop_last() == front);
    assert((front + seq![dot]).last() == dot);
    assert((front + seq![dot]).drop_last() == front);
    assert((front + seq![dots]).last() == dots);
    assert(seq![none].drop_last() == Seq::<Seq<char>>::empty());
    assert(seq![none].last() == none);
    assert(last_name(seq![none].drop_last()) is None);
}

/// A path without backslashes and colons reads the same everywhere, unless it
/// begins with two slashes.
pub proof fn law_portable_paths(path: Seq<char>)
    requires
        !path.contains('\\'),
        !path.contains(':'),
    ensures
        path.len() < 2 || path[0] != '/' || path[1] != '/' ==> portable_path(path),
{
}

/// What is known of a file by its name: the name and the size as they are, the
/// extension of the name at the end of its path, and the type guessed from that.
pub proof fn law_files_are_known_by_their_names(
    filename: Seq<char>,
    base: Option<Seq<char>>,
    size: nat,
)
    ensures
        ({
            let known = named_file(filename, base, size);
            &&& known.filename == filename
            &&& known.size == size
            &&& known.width is None && known.height is None && known.pages is None
            &&& base matches Some(name) ==> known.extension == extension_of(name)
            &&& base is None ==> known.extension is None
            &&& known.extension matches Some(e) ==> known.mime_type == guessed_mime(e)
            &&& known.extension is None ==> known.mime_type == "application/octet-stream"@
            &&& base matches Some(name) ==> or_empty(base) == name
            &&& base is None ==> or_empty(base).len() == 0
        }),
{
}

/// The view of metadata holds what its fields hold.
pub proof fn law_views_of_metadata(m: FileMetadata)
    ensures
        m@.filename == m.filename@,
        m@.mime_type == m.mime_type@,
        m@.size == m.size,
        m.extension matches Some(e) ==> m@.extension == Some(e@),
        m.extension is None ==> m@.extension is None,
        m@.width == m.width,
        m@.height == m.height,
        m@.pages == m.pages,
{
}

} // verus!
