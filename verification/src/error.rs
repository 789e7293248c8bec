//! Error types for file processing.

use crate::text::{decimal, decimal_text, has_prefix, labelled};
use vstd::prelude::*;
use vstd::string::*;

verus! {

/// The standard library's input/output error.
#[verifier::external_type_specification]
#[verifier::external_body]
pub struct ExIoError(std::io::Error);

/// File processing error types.
#[derive(Debug)]
pub enum FileError {
    /// Input/output error.
    Io(std::io::Error),
    /// Image processing error.
    Image(String),
    /// PDF error.
    Pdf(String),
    /// Archive error.
    Archive(String),
    /// Format not supported.
    UnsupportedFormat(String),
    /// Invalid operation.
    InvalidOperation(String),
    /// File not found.
    NotFound(String),
    /// File too large.
    FileTooLarge { size: u64, max: u64 },
    /// Invalid dimensions.
    InvalidDimensions { width: u32, height: u32 },
    /// Pipeline error.
    Pipeline(String),
    /// Encoding error.
    Encoding(String),
}

/// Result type for file operations.
pub type FileResult<T> = Result<T, FileError>;

/// `Display` of `std::io::Error`.  Nothing is claimed of the text: it can come
/// from the operating system.
#[verifier::external_body]
fn io_message(e: &std::io::Error) -> String {
    e.to_string()
}

impl FileError {
    /// Whether `text` is the message of this error.  The message of an
    /// input/output error is only known up to the text that the operating
    /// system gives it.
    pub open spec fn reads(self, text: Seq<char>) -> bool {
        match self {
            FileError::Io(_) => has_prefix(text, "IO error: "@),
            FileError::Image(m) => text == "Image error: "@ + m@,
            FileError::Pdf(m) => text == "PDF error: "@ + m@,
            FileError::Archive(m) => text == "Archive error: "@ + m@,
            FileError::UnsupportedFormat(m) => text == "Unsupported format: "@ + m@,
            FileError::InvalidOperation(m) => text == "Invalid operation: "@ + m@,
            FileError::NotFound(m) => text == "File not found: "@ + m@,
            FileError::FileTooLarge { size, max } => text == "File too large: "@
                + decimal_text(size as nat) + " bytes (max: "@
                + decimal_text(max as nat) + " bytes)"@,
            FileError::InvalidDimensions { width, height } => text == "Invalid dimensions: "@
                + decimal_text(width as nat) + "x"@ + decimal_text(
                height as nat,
            ),
            FileError::Pipeline(m) => text == "Pipeline error: "@ + m@,
            FileError::Encoding(m) => text == "Encoding error: "@ + m@,
        }
    }

    /// The message of this error.
    pub fn to_string(&self) -> (r: String)
        ensures
            self.reads(r@),
    {
        match self {
            FileError::Io(e) => {
                let message = io_message(e);
                let out = labelled("IO error: ", message.as_str());
                assert(out@.take("IO error: "@.len() as int) == "IO error: "@);
                out
            },
            FileError::Image(m) => labelled("Image error: ", m.as_str()),
            FileError::Pdf(m) => labelled("PDF error: ", m.as_str()),
            FileError::Archive(m) => labelled("Archive error: ", m.as_str()),
            FileError::UnsupportedFormat(m) => labelled("Unsupported format: ", m.as_str()),
            FileError::InvalidOperation(m) => labelled("Invalid operation: ", m.as_str()),
            FileError::NotFound(m) => labelled("File not found: ", m.as_str()),
            FileError::FileTooLarge { size, max } => {
                let mut out = labelled("File too large: ", decimal(*size).as_str());
                out.append(" bytes (max: ");
                out.append(decimal(*max).as_str());
                out.append(" bytes)");
                out
            },
            FileError::InvalidDimensions { width, height } => {
                let mut out = labelled("Invalid dimensions: ", decimal(*width as u64).as_str());
                out.append("x");
                out.append(decimal(*height as u64).as_str());
                out
            },
            FileError::Pipeline(m) => labelled("Pipeline error: ", m.as_str()),
            FileError::Encoding(m) => labelled("Encoding error: ", m.as_str()),
        }
    }

    /// Whether this is an archive error with the given text.
    pub open spec fn is_archive_error(self, text: Seq<char>) -> bool {
        self matches FileError::Archive(m) && m@ == text
    }

    /// Whether this is a PDF error with the given text.
    pub open spec fn is_pdf_error(self, text: Seq<char>) -> bool {
        self matches FileError::Pdf(m) && m@ == text
    }

    /// Whether this is a pipeline error with the given text.
    pub open spec fn is_pipeline_error(self, text: Seq<char>) -> bool {
        self matches FileError::Pipeline(m) && m@ == text
    }
}

impl From<std::io::Error> for FileError {
    fn from(err: std::io::Error) -> (r: Self) {
        FileError::Io(err)
    }
}

impl vstd::std_specs::convert::FromSpecImpl<std::io::Error> for FileError {
    open spec fn obeys_from_spec() -> bool {
        true
    }

    open spec fn from_spec(err: std::io::Error) -> Self {
        FileError::Io(err)
    }
}

/// What errors read: the kind of the error, and behind a colon what it is about.
pub proof fn law_what_errors_read(e: FileError, text: Seq<char>)
    requires
        e.reads(text),
    ensures
        e is Io ==> has_prefix(text, "IO error: "@),
        e matches FileError::Image(m) ==> text == "Image error: "@ + m@,
        e matches FileError::Pdf(m) ==> text == "PDF error: "@ + m@,
        e matches FileError::Archive(m) ==> text == "Archive error: "@ + m@,
        e matches FileError::UnsupportedFormat(m) ==> text == "Unsupported format: "@ + m@,
        e matches FileError::InvalidOperation(m) ==> text == "Invalid operation: "@ + m@,
        e matches FileError::NotFound(m) ==> text == "File not found: "@ + m@,
        e matches FileError::FileTooLarge { size, max } ==> text == "File too large: "@
            + decimal_text(size as nat) + " bytes (max: "@ + decimal_text(max as nat) + " bytes)"@,
        e matches FileError::InvalidDimensions { width, height } ==> text
            == "Invalid dimensions: "@ + decimal_text(width as nat) + "x"@ + decimal_text(
            height as nat,
        ),
        e matches FileError::Pipeline(m) ==> text == "Pipeline error: "@ + m@,
        e matches FileError::Encoding(m) ==> text == "Encoding error: "@ + m@,
{
}

/// An error is of at most one of the kinds archive, PDF and pipeline, and has one
/// text.
pub proof fn law_kinds_of_errors(e: FileError, text: Seq<char>)
    ensures
        e.is_archive_error(text) <==> (e matches FileError::Archive(m) && m@ == text),
        e.is_pdf_error(text) <==> (e matches FileError::Pdf(m) && m@ == text),
        e.is_pipeline_error(text) <==> (e matches FileError::Pipeline(m) && m@ == text),
{
}

} // verus!
