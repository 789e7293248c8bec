//! ZIP archives.

pub mod builder;
pub mod container;
pub mod directory;
pub mod extractor;
pub mod laws;
pub mod name_laws;
pub mod outcome_laws;
pub mod paths;
pub mod promotion;
pub mod promotion_laws;
pub mod records;

pub use builder::{CompressionLevel, ZipBuilder};
pub use directory::{DirectoryWalk, Found, WalkStep};
pub use extractor::{
    ArchiveEntry, ZipExtractor, DEFAULT_MAX_ARCHIVE_BYTES, DEFAULT_MAX_ENTRIES,
    DEFAULT_MAX_UNCOMPRESSED_SIZE,
};
pub use records::peek_entry_count;
