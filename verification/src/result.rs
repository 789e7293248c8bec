//! The result of an operation on a file.

use crate::buffer::{self, content};
use crate::metadata::FileMetadata;
use bytes::Bytes;
use vstd::prelude::*;

verus! {

/// Result of a file operation.
#[derive(Debug, Clone)]
pub struct ProcessingResult {
    /// Processed file data.
    pub data: Bytes,
    /// File metadata.
    pub metadata: FileMetadata,
    /// Operations performed.
    pub operations: Vec<String>,
    /// Processing time in milliseconds.
    pub processing_time_ms: u64,
}

impl ProcessingResult {
    /// Gets the data as bytes.
    pub fn bytes(&self) -> (r: &Bytes)
        ensures
            *r == self.data,
    {
        &self.data
    }

    /// Gets the data as a vector of bytes.
    pub fn to_vec(&self) -> (r: Vec<u8>)
        ensures
            r@ == content(self.data),
    {
        vstd::slice::slice_to_vec(buffer::as_slice(&self.data))
    }
}

} // verus!
