//! Output formats.

use crate::text::{decimal, decimal_text};
use vstd::prelude::*;
use vstd::string::*;

verus! {

/// Supported output formats.
#[derive(Debug, Clone, Copy, PartialEq, Eq, Structural)]
pub enum OutputFormat {
    Jpeg { quality: u8 },
    Png,
    /// Lossless WebP.
    WebP,
    Gif,
    Bmp,
    Ico,
    Tiff,
    Pdf,
    Zip,
    /// Keep the source format.
    Original,
}

impl OutputFormat {
    /// The file extension of this format.
    pub open spec fn extension_text(self) -> Seq<char> {
        match self {
            OutputFormat::Jpeg { .. } => "jpg"@,
            OutputFormat::Png => "png"@,
            OutputFormat::WebP => "webp"@,
            OutputFormat::Gif => "gif"@,
            OutputFormat::Bmp => "bmp"@,
            OutputFormat::Ico => "ico"@,
            OutputFormat::Tiff => "tiff"@,
            OutputFormat::Pdf => "pdf"@,
            OutputFormat::Zip => "zip"@,
            OutputFormat::Original => ""@,
        }
    }

    /// The MIME type of this format.
    pub open spec fn mime_text(self) -> Seq<char> {
        match self {
            OutputFormat::Jpeg { .. } => "image/jpeg"@,
            OutputFormat::Png => "image/png"@,
            OutputFormat::WebP => "image/webp"@,
            OutputFormat::Gif => "image/gif"@,
            OutputFormat::Bmp => "image/bmp"@,
            OutputFormat::Ico => "image/x-icon"@,
            OutputFormat::Tiff => "image/tiff"@,
            OutputFormat::Pdf => "application/pdf"@,
            OutputFormat::Zip => "application/zip"@,
            OutputFormat::Original => "application/octet-stream"@,
        }
    }

    /// The name of this format in messages.
    pub open spec fn debug_text(self) -> Seq<char> {
        match self {
            OutputFormat::Jpeg { quality } => "Jpeg { quality: "@ + decimal_text(quality as nat)
                + " }"@,
            OutputFormat::Png => "Png"@,
            OutputFormat::WebP => "WebP"@,
            OutputFormat::Gif => "Gif"@,
            OutputFormat::Bmp => "Bmp"@,
            OutputFormat::Ico => "Ico"@,
            OutputFormat::Tiff => "Tiff"@,
            OutputFormat::Pdf => "Pdf"@,
            OutputFormat::Zip => "Zip"@,
            OutputFormat::Original => "Original"@,
        }
    }

    /// Gets the name of this format in messages.
    pub fn message_name(&self) -> (r: String)
        ensures
            r@ == self.debug_text(),
    {
        match self {
            OutputFormat::Jpeg { quality } => {
                let mut out = "Jpeg { quality: ".to_owned();
                out.append(decimal(*quality as u64).as_str());
                out.append(" }");
                out
            },
            OutputFormat::Png => "Png".to_owned(),
            OutputFormat::WebP => "WebP".to_owned(),
            OutputFormat::Gif => "Gif".to_owned(),
            OutputFormat::Bmp => "Bmp".to_owned(),
            OutputFormat::Ico => "Ico".to_owned(),
            OutputFormat::Tiff => "Tiff".to_owned(),
            OutputFormat::Pdf => "Pdf".to_owned(),
            OutputFormat::Zip => "Zip".to_owned(),
            OutputFormat::Original => "Original".to_owned(),
        }
    }

    /// Gets the file extension of this format.
    pub fn extension(&self) -> (r: &'static str)
        ensures
            r@ == self.extension_text(),
    {
        match self {
            OutputFormat::Jpeg { .. } => "jpg",
            OutputFormat::Png => "png",
            OutputFormat::WebP => "webp",
            OutputFormat::Gif => "gif",
            OutputFormat::Bmp => "bmp",
            OutputFormat::Ico => "ico",
            OutputFormat::Tiff => "tiff",
            OutputFormat::Pdf => "pdf",
            OutputFormat::Zip => "zip",
            OutputFormat::Original => "",
        }
    }

    /// Gets the MIME type of this format.
    pub fn mime_type(&self) -> (r: &'static str)
        ensures
            r@ == self.mime_text(),
    {
        match self {
            OutputFormat::Jpeg { .. } => "image/jpeg",
            OutputFormat::Png => "image/png",
            OutputFormat::WebP => "image/webp",
            OutputFormat::Gif => "image/gif",
            OutputFormat::Bmp => "image/bmp",
            OutputFormat::Ico => "image/x-icon",
            OutputFormat::Tiff => "image/tiff",
            OutputFormat::Pdf => "application/pdf",
            OutputFormat::Zip => "application/zip",
            OutputFormat::Original => "application/octet-stream",
        }
    }
}

/// The extension, the MIME type and the name of every format.  Neither extension
/// nor type depends on the quality of a JPEG, and its name holds the quality.
pub proof fn law_what_formats_are_called(quality: u8)
    ensures
        (OutputFormat::Jpeg { quality }).extension_text() == "jpg"@,
        OutputFormat::Png.extension_text() == "png"@,
        OutputFormat::WebP.extension_text() == "webp"@,
        OutputFormat::Gif.extension_text() == "gif"@,
        OutputFormat::Bmp.extension_text() == "bmp"@,
        OutputFormat::Ico.extension_text() == "ico"@,
        OutputFormat::Tiff.extension_text() == "tiff"@,
        OutputFormat::Pdf.extension_text() == "pdf"@,
        OutputFormat::Zip.extension_text() == "zip"@,
        OutputFormat::Original.extension_text() == ""@,
        (OutputFormat::Jpeg { quality }).mime_text() == "image/jpeg"@,
        OutputFormat::Png.mime_text() == "image/png"@,
        OutputFormat::WebP.mime_text() == "image/webp"@,
        OutputFormat::Gif.mime_text() == "image/gif"@,
        OutputFormat::Bmp.mime_text() == "image/bmp"@,
        OutputFormat::Ico.mime_text() == "image/x-icon"@,
        OutputFormat::Tiff.mime_text() == "image/tiff"@,
        OutputFormat::Pdf.mime_text() == "application/pdf"@,
        OutputFormat::Zip.mime_text() == "application/zip"@,
        OutputFormat::Original.mime_text() == "application/octet-stream"@,
        (OutputFormat::Jpeg { quality }).debug_text() == "Jpeg { quality: "@ + decimal_text(
            quality as nat,
        ) + " }"@,
        OutputFormat::Png.debug_text() == "Png"@,
        OutputFormat::WebP.debug_text() == "WebP"@,
        OutputFormat::Gif.debug_text() == "Gif"@,
        OutputFormat::Bmp.debug_text() == "Bmp"@,
        OutputFormat::Ico.debug_text() == "Ico"@,
        OutputFormat::Tiff.debug_text() == "Tiff"@,
        OutputFormat::Pdf.debug_text() == "Pdf"@,
        OutputFormat::Zip.debug_text() == "Zip"@,
        OutputFormat::Original.debug_text() == "Original"@,
{
}

} // verus!
