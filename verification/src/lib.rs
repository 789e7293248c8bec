//! File processing: ZIP archives from and to untrusted bytes, PDF documents,
//! and pipelines of image operations.
//!
//! Everything that decides or computes is proved against its contract.  What
//! is taken from other crates is declared where it is used, with what is
//! believed of it.

pub mod archive;
pub mod buffer;
mod clock;
mod error;
mod format;
pub mod image;
pub mod metadata;
pub mod multi_size;
pub mod pdf;
pub mod pipeline;
pub mod position;
mod result;
pub mod text;

pub use error::{FileError, FileResult};
pub use format::OutputFormat;
pub use metadata::FileMetadata;
pub use multi_size::MultiSizeBuilder;
pub use pipeline::{Pipeline, PipelineOp};
pub use position::Position;
pub use result::ProcessingResult;
