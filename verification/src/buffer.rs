//! The byte buffer that file data is kept in.

use bytes::Bytes;
use vstd::prelude::*;

verus! {

/// The reference-counted byte buffer of the `bytes` crate.
#[verifier::external_type_specification]
#[verifier::external_body]
pub struct ExBytes(bytes::Bytes);

/// The bytes that a buffer holds.
pub uninterp spec fn content(b: Bytes) -> Seq<u8>;

/// `Bytes::from(Vec<u8>)`: the buffer holds the bytes of the vector.
#[verifier::external_body]
pub(crate) fn from_vec(v: Vec<u8>) -> (b: Bytes)
    ensures
        content(b) == v@,
{
    Bytes::from(v)
}

/// `Bytes::len`: the number of bytes in the buffer.
#[verifier::external_body]
pub(crate) fn length(b: &Bytes) -> (n: usize)
    ensures
        n == content(*b).len(),
{
    b.len()
}

/// `Bytes::clone`: another handle on the same bytes.
pub assume_specification[ <Bytes as Clone>::clone ](b: &Bytes) -> (r: Bytes)
    ensures
        content(r) == content(*b),
;

/// `Bytes` as a slice (its `Deref`): the bytes of the buffer.
#[verifier::external_body]
pub(crate) fn as_slice(b: &Bytes) -> (s: &[u8])
    ensures
        s@ == content(*b),
{
    b
}

} // verus!
