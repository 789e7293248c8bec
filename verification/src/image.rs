//! Image operations, as data.

use crate::buffer::content;
use crate::position::Position;
use bytes::Bytes;
use vstd::prelude::*;
use vstd::string::*;

verus! {

/// Filter used for resizing.
#[derive(Debug, Clone, Copy, PartialEq, Eq, Structural)]
pub enum ResizeFilter {
    /// Lanczos with window 3.
    Lanczos3,
}

/// Resource limits applied when decoding untrusted image bytes.
#[derive(Debug, Clone, Copy, PartialEq, Eq, Structural)]
pub struct DecodeLimits {
    /// Maximum width in pixels.
    pub max_width: u32,
    /// Maximum height in pixels.
    pub max_height: u32,
    /// Maximum number of bytes the decoder may allocate.
    pub max_alloc: u64,
}

/// The limits that apply unless others are set.
pub open spec fn default_limits() -> DecodeLimits {
    DecodeLimits { max_width: 16384, max_height: 16384, max_alloc: 268_435_456 }
}

impl Default for DecodeLimits {
    fn default() -> (r: DecodeLimits)
        ensures
            r == default_limits(),
    {
        DecodeLimits { max_width: 16384, max_height: 16384, max_alloc: 268_435_456 }
    }
}

/// An image operation.  Fractional quantities are of a number type of the
/// caller's choice.
#[derive(Debug, Clone)]
pub enum ImageOp<N> {
    /// Resize to exact dimensions.
    Resize { width: u32, height: u32, filter: ResizeFilter },
    /// Resize to fit within bounds, keeping the aspect ratio.
    ResizeFit { max_width: u32, max_height: u32, filter: ResizeFilter },
    /// Cut out a rectangle.
    Crop { x: u32, y: u32, width: u32, height: u32 },
    /// Rotate clockwise.
    Rotate { degrees: N },
    /// Draw a text.
    TextWatermark {
        text: String,
        position: Position,
        font_size: N,
        color: [u8; 4],
        font: Option<Bytes>,
    },
    /// Draw another image.
    ImageWatermark { overlay: Bytes, position: Position, opacity: N },
    /// Convert to grayscale.
    Grayscale,
    /// Apply the orientation that the metadata of the image asks for.
    AutoOrient,
    /// Remove embedded metadata.
    StripMetadata,
}

/// An image operation, with its texts and buffers written out.
pub enum ImageOpView<N> {
    Resize { width: u32, height: u32, filter: ResizeFilter },
    ResizeFit { max_width: u32, max_height: u32, filter: ResizeFilter },
    Crop { x: u32, y: u32, width: u32, height: u32 },
    Rotate { degrees: N },
    TextWatermark {
        text: Seq<char>,
        position: Position,
        font_size: N,
        color: [u8; 4],
        font: Option<Seq<u8>>,
    },
    ImageWatermark { overlay: Seq<u8>, position: Position, opacity: N },
    Grayscale,
    AutoOrient,
    StripMetadata,
}

/// The bytes of an optional buffer.
pub open spec fn font_bytes(font: Option<Bytes>) -> Option<Seq<u8>> {
    match font {
        Some(b) => Some(content(b)),
        None => None,
    }
}

impl<N> View for ImageOp<N> {
    type V = ImageOpView<N>;

    open spec fn view(&self) -> ImageOpView<N> {
        match *self {
            ImageOp::Resize { width, height, filter } => ImageOpView::Resize {
                width,
                height,
                filter,
            },
            ImageOp::ResizeFit { max_width, max_height, filter } => ImageOpView::ResizeFit {
                max_width,
                max_height,
                filter,
            },
            ImageOp::Crop { x, y, width, height } => ImageOpView::Crop { x, y, width, height },
            ImageOp::Rotate { degrees } => ImageOpView::Rotate { degrees },
            ImageOp::TextWatermark { text, position, font_size, color, font } =>
            ImageOpView::TextWatermark {
                text: text@,
                position,
                font_size,
                color,
                font: font_bytes(font),
            },
            ImageOp::ImageWatermark { overlay, position, opacity } =>
            ImageOpView::ImageWatermark { overlay: content(overlay), position, opacity },
            ImageOp::Grayscale => ImageOpView::Grayscale,
            ImageOp::AutoOrient => ImageOpView::AutoOrient,
            ImageOp::StripMetadata => ImageOpView::StripMetadata,
        }
    }
}

impl<N> ImageOpView<N> {
    /// The short name of an operation.
    pub open spec fn name_text(self) -> Seq<char> {
        match self {
            ImageOpView::Resize { .. } => "resize"@,
            ImageOpView::ResizeFit { .. } => "resize_fit"@,
            ImageOpView::Crop { .. } => "crop"@,
            ImageOpView::Rotate { .. } => "rotate"@,
            ImageOpView::TextWatermark { .. } => "text_watermark"@,
            ImageOpView::ImageWatermark { .. } => "image_watermark"@,
            ImageOpView::Grayscale => "grayscale"@,
            ImageOpView::AutoOrient => "auto_orient"@,
            ImageOpView::StripMetadata => "strip_metadata"@,
        }
    }

    /// The operation with a font filled in where it needs one and has none.
    pub open spec fn with_default_font(self, default_font: Option<Seq<u8>>) -> ImageOpView<N> {
        match self {
            ImageOpView::TextWatermark { text, position, font_size, color, font } =>
            ImageOpView::TextWatermark {
                text,
                position,
                font_size,
                color,
                font: if font is Some {
                    font
                } else {
                    default_font
                },
            },
            other => other,
        }
    }
}

impl<N> ImageOp<N> {
    /// The short name of an operation.  It holds none of the operation's data.
    pub fn name(&self) -> (r: &'static str)
        ensures
            r@ == self@.name_text(),
    {
        match self {
            ImageOp::Resize { .. } => "resize",
            ImageOp::ResizeFit { .. } => "resize_fit",
            ImageOp::Crop { .. } => "crop",
            ImageOp::Rotate { .. } => "rotate",
            ImageOp::TextWatermark { .. } => "text_watermark",
            ImageOp::ImageWatermark { .. } => "image_watermark",
            ImageOp::Grayscale => "grayscale",
            ImageOp::AutoOrient => "auto_orient",
            ImageOp::StripMetadata => "strip_metadata",
        }
    }
}

/// Fills a font into a text watermark that has none.  Every other operation
/// stays as it is.
pub fn apply_default_font<N>(op: ImageOp<N>, default_font: &Option<Bytes>) -> (r: ImageOp<N>)
    ensures
        r@ == op@.with_default_font(font_bytes(*default_font)),
{
    match op {
        ImageOp::TextWatermark { text, position, font_size, color, font } => {
            let font = match font {
                Some(f) => Some(f),
                None => match default_font {
                    Some(f) => Some(f.clone()),
                    None => None,
                },
            };
            ImageOp::TextWatermark { text, position, font_size, color, font }
        },
        other => other,
    }
}

/// A font is filled into a text watermark that has none, and nothing else of it
/// changes; one that has a font keeps it, and every other operation stays as it
/// is.
pub proof fn law_only_a_missing_font_is_filled_in<N>(
    op: ImageOpView<N>,
    default_font: Option<Seq<u8>>,
)
    ensures
        ({
            let filled = op.with_default_font(default_font);
            &&& op !is TextWatermark ==> filled == op
            &&& op is TextWatermark && op->font is Some ==> filled == op
            &&& default_font is None ==> filled == op
            &&& op is TextWatermark && op->font is None ==> {
                &&& filled is TextWatermark
                &&& filled->font == default_font
                &&& filled->text == op->text
                &&& filled->TextWatermark_position == op->TextWatermark_position
                &&& filled->font_size == op->font_size
                &&& filled->color == op->color
            }
            &&& filled.with_default_font(default_font) == filled
        }),
{
}

/// The short names of the operations; they hold none of the operations' data.
pub proof fn law_what_operations_are_called<N>(op: ImageOpView<N>)
    ensures
        op is Resize ==> op.name_text() == "resize"@,
        op is ResizeFit ==> op.name_text() == "resize_fit"@,
        op is Crop ==> op.name_text() == "crop"@,
        op is Rotate ==> op.name_text() == "rotate"@,
        op is TextWatermark ==> op.name_text() == "text_watermark"@,
        op is ImageWatermark ==> op.name_text() == "image_watermark"@,
        op is Grayscale ==> op.name_text() == "grayscale"@,
        op is AutoOrient ==> op.name_text() == "auto_orient"@,
        op is StripMetadata ==> op.name_text() == "strip_metadata"@,
{
}

/// The view of an operation is the same operation on the same data.
pub proof fn law_views_of_operations<N>(op: ImageOp<N>)
    ensures
        match op {
            ImageOp::Resize { width: w, height: h, filter: f } => op@ == (ImageOpView::<N>::Resize {
                width: w,
                height: h,
                filter: f,
            }),
            ImageOp::ResizeFit { max_width: w, max_height: h, filter: f } => op@ == (ImageOpView::<
                N,
            >::ResizeFit { max_width: w, max_height: h, filter: f }),
            ImageOp::Crop { x, y, width: w, height: h } => op@ == (ImageOpView::<N>::Crop {
                x,
                y,
                width: w,
                height: h,
            }),
            ImageOp::Rotate { degrees: d } => op@ == (ImageOpView::<N>::Rotate { degrees: d }),
            ImageOp::TextWatermark { text: t, position: p, font_size: s, color: c, font: f } => {
                &&& op@ is TextWatermark
                &&& op@->text == t@
                &&& op@->TextWatermark_position == p
                &&& op@->font_size == s
                &&& op@->color == c
                &&& f matches Some(bytes) ==> op@->font == Some(content(bytes))
                &&& f is None ==> op@->font is None
            },
            ImageOp::ImageWatermark { overlay: o, position: p, opacity: a } => op@ == (
            ImageOpView::<N>::ImageWatermark { overlay: content(o), position: p, opacity: a }),
            ImageOp::Grayscale => op@ is Grayscale,
            ImageOp::AutoOrient => op@ is AutoOrient,
            ImageOp::StripMetadata => op@ is StripMetadata,
        },
{
}

/// Unless others are set, an image may be 16384 pixels wide and high, and its
/// decoder may allocate 256 MiB.
pub proof fn law_default_limits()
    ensures
        default_limits().max_width == 16_384,
        default_limits().max_height == 16_384,
        default_limits().max_alloc == 256 * 1024 * 1024,
{
}

} // verus!
