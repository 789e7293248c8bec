//! Relative paths of archive entries, kept as lists of components.

use crate::archive::container::{names_drive, walk};
use crate::text::{chars_of, texts};
use vstd::prelude::*;
use vstd::string::*;

verus! {

/// A path made of components, written out.
///
/// A slash stands between two components, except after a component that
/// already ends in one.
pub open spec fn joined(parts: Seq<Seq<char>>) -> Seq<char>
    decreases parts.len(),
{
    if parts.len() == 0 {
        Seq::empty()
    } else {
        let front = joined(parts.drop_last());
        if front.len() == 0 || front.last() == '/' {
            front + parts.last()
        } else {
            front.push('/') + parts.last()
        }
    }
}

/// Whether a member name denotes a directory.
pub open spec fn names_directory(name: Seq<char>) -> bool {
    name.len() > 0 && (name.last() == '/' || name.last() == '\\')
}

/// Whether a component is the name of something inside its directory.
pub open spec fn inner_component(part: Seq<char>) -> bool {
    &&& part.len() > 0
    &&& part != seq!['.']
    &&& part != seq!['.', '.']
    &&& !part.contains('/')
    &&& !part.contains('\\')
    &&& !names_drive(part)
}

/// Whether a path consists of names of things inside their directories.
pub open spec fn stays_inside(path: Seq<Seq<char>>) -> bool {
    forall|i: int| 0 <= i < path.len() ==> inner_component(#[trigger] path[i])
}

/// Writes a path made of components out.
pub fn join_path(parts: &Vec<String>) -> (r: String)
    ensures
        r@ == joined(texts(parts@)),
{
    let mut out = String::new();
    let mut slash = false;
    for i in 0..parts.len()
        invariant
            out@ == joined(texts(parts@).take(i as int)),
            slash == (out@.len() > 0 && out@.last() != '/'),
    {
        assert(texts(parts@).take(i + 1).drop_last() == texts(parts@).take(i as int));
        if slash {
            out.push('/');
        }
        out.append(parts[i].as_str());
        slash = needs_slash(out.as_str());
    }
    assert(texts(parts@).take(parts.len() as int) == texts(parts@));
    out
}

/// Copies a path.
pub(crate) fn copy_path(path: &Vec<String>) -> (r: Vec<String>)
    ensures
        texts(r@) == texts(path@),
{
    let mut out: Vec<String> = Vec::new();
    for i in 0..path.len()
        invariant
            texts(out@) == texts(path@).take(i as int),
    {
        let ghost before = out@;
        out.push(path[i].clone());
        assert(texts(out@) == texts(before).push(path[i as int]@));
        assert(texts(path@).take(i + 1) == texts(path@).take(i as int).push(path[i as int]@));
    }
    assert(texts(path@).take(path.len() as int) == texts(path@));
    out
}

/// Whether a slash is needed before something is added to a path.
pub(crate) fn needs_slash(s: &str) -> (r: bool)
    ensures
        r == (s@.len() > 0 && s@.last() != '/'),
{
    let chars = chars_of(s);
    chars.len() > 0 && chars[chars.len() - 1] != '/'
}

/// Whether a member name denotes a directory.
pub fn is_directory_name(name: &str) -> (r: bool)
    ensures
        r == names_directory(name@),
{
    let chars = chars_of(name);
    chars.len() > 0 && (chars[chars.len() - 1] == '/' || chars[chars.len() - 1] == '\\')
}

/// Walking pieces without separators and drives in them gives components that
/// lie inside.
pub proof fn lemma_walk_stays_inside(pieces: Seq<Seq<char>>)
    requires
        forall|i: int| 0 <= i < pieces.len() ==> !(#[trigger] pieces[i]).contains('/'),
        forall|i: int| 0 <= i < pieces.len() ==> !(#[trigger] pieces[i]).contains('\\'),
        forall|i: int| 0 <= i < pieces.len() ==> !names_drive(#[trigger] pieces[i]),
    ensures
        walk(pieces) matches Some(path) ==> stays_inside(path),
    decreases pieces.len(),
{
    if pieces.len() > 0 {
        lemma_walk_stays_inside(pieces.drop_last());
    }
}

} // verus!
