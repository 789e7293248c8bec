//! Creating several sizes of one image.

use crate::buffer::{self, content};
use crate::clock;
use crate::format::OutputFormat;
use crate::image::{default_limits, DecodeLimits};
use crate::metadata::{last_name, named_file, portable_path, FileMetadata, MetadataView};
use crate::pipeline::carries;
use crate::result::ProcessingResult;
use crate::text::{decimal, decimal_text, pieces_of, texts};
use bytes::Bytes;
use std::time::Instant;
use vstd::prelude::*;
use vstd::string::*;

verus! {

/// A size variant: a name and the bounds to fit the image into.
pub struct SizeView {
    pub name: Seq<char>,
    pub width: u32,
    pub height: u32,
}

/// The variant that a triple stands for.
pub open spec fn size_view(size: (String, u32, u32)) -> SizeView {
    SizeView { name: size.0@, width: size.1, height: size.2 }
}

/// The variants that triples stand for.
pub open spec fn size_views(sizes: Seq<(String, u32, u32)>) -> Seq<SizeView> {
    Seq::new(sizes.len(), |i: int| size_view(sizes[i]))
}

/// The labels of the operations that make a variant.
pub open spec fn variant_labels(width: u32, height: u32, format: OutputFormat) -> Seq<Seq<char>> {
    seq![
        "resize_fit:"@ + decimal_text(width as nat) + "x"@ + decimal_text(height as nat),
        "convert:"@ + format.extension_text(),
    ]
}

/// What the image codec has to do for one variant: fit the decoded source into
/// the bounds, and encode it.
#[derive(Debug)]
pub struct VariantJob {
    /// The name of the variant.
    pub name: String,
    /// The width to fit into.
    pub width: u32,
    /// The height to fit into.
    pub height: u32,
    /// The format to encode in.
    pub format: OutputFormat,
    /// The metadata of the source.
    pub metadata: FileMetadata,
    /// When the work on the variant was started.
    pub start: Instant,
}

impl VariantJob {
    /// Makes the variant of what the codec returned.
    pub fn finish(self, encoded: Bytes, metadata: FileMetadata) -> (r: (String, ProcessingResult))
        ensures
            r.0 == self.name,
            carries(
                r.1,
                content(encoded),
                metadata@,
                variant_labels(self.width, self.height, self.format),
            ),
    {
        let mut metadata = metadata;
        metadata.size = buffer::length(&encoded) as u64;
        let mut resized = "resize_fit:".to_owned();
        resized.append(decimal(self.width as u64).as_str());
        resized.append("x");
        resized.append(decimal(self.height as u64).as_str());
        let mut converted = "convert:".to_owned();
        converted.append(self.format.extension());
        let mut operations: Vec<String> = Vec::new();
        operations.push(resized);
        operations.push(converted);
        assert(texts(operations@) =~= variant_labels(self.width, self.height, self.format));
        (
            self.name,
            ProcessingResult {
                data: encoded,
                metadata,
                operations,
                processing_time_ms: clock::elapsed_ms(&self.start),
            },
        )
    }
}

/// Builder for creating multiple output sizes.
#[derive(Debug, Clone)]
pub struct MultiSizeBuilder {
    data: Bytes,
    metadata: FileMetadata,
    sizes: Vec<(String, u32, u32)>,
    output_format: OutputFormat,
    decode_limits: DecodeLimits,
}

impl MultiSizeBuilder {
    /// The bytes of the source image.
    pub closed spec fn input(&self) -> Seq<u8> {
        content(self.data)
    }

    /// The metadata of the source image.
    pub closed spec fn described(&self) -> MetadataView {
        self.metadata@
    }

    /// The variants, in order.
    pub closed spec fn variants(&self) -> Seq<SizeView> {
        size_views(self.sizes@)
    }

    /// The format of the variants.
    pub closed spec fn output(&self) -> OutputFormat {
        self.output_format
    }

    /// The limits to decode under.
    pub closed spec fn limits(&self) -> DecodeLimits {
        self.decode_limits
    }

    /// Whether two builders work on the same source.
    pub open spec fn same_source(&self, other: &MultiSizeBuilder) -> bool {
        self.input() == other.input() && self.described() == other.described()
    }

    /// Creates a builder that keeps the source format.
    pub fn new(data: Bytes, filename: String) -> (r: MultiSizeBuilder)
        ensures
            r.input() == content(data),
            exists|base: Option<Seq<char>>|
                r.described() == #[trigger] named_file(filename@, base, content(data).len()),
            portable_path(filename@) ==> r.described() == named_file(
                filename@,
                last_name(pieces_of(filename@, '/')),
                content(data).len(),
            ),
            r.variants() == Seq::<SizeView>::empty(),
            r.output() == OutputFormat::Original,
            r.limits() == default_limits(),
    {
        let metadata = FileMetadata::from_bytes(buffer::as_slice(&data), filename);
        let r = MultiSizeBuilder {
            data,
            metadata,
            sizes: Vec::new(),
            output_format: OutputFormat::Original,
            decode_limits: DecodeLimits::default(),
        };
        assert(size_views(r.sizes@) =~= Seq::<SizeView>::empty());
        r
    }

    /// Overrides the resource limits applied when decoding the source image.
    pub fn decode_limits(self, limits: DecodeLimits) -> (r: MultiSizeBuilder)
        ensures
            r.same_source(&self),
            r.variants() == self.variants(),
            r.output() == self.output(),
            r.limits() == limits,
    {
        MultiSizeBuilder { decode_limits: limits, ..self }
    }

    /// Adds a size variant.
    pub fn add_size(self, name: String, width: u32, height: u32) -> (r: MultiSizeBuilder)
        ensures
            r.same_source(&self),
            r.variants() == self.variants().push((SizeView { name: name@, width, height })),
            r.output() == self.output(),
            r.limits() == self.limits(),
    {
        let mut sizes = self.sizes;
        let ghost before = sizes@;
        sizes.push((name, width, height));
        assert(size_views(sizes@) =~= size_views(before).push(
            (SizeView { name: name@, width, height }),
        ));
        MultiSizeBuilder {
            data: self.data,
            metadata: self.metadata,
            sizes,
            output_format: self.output_format,
            decode_limits: self.decode_limits,
        }
    }

    /// Adds common thumbnail sizes.
    pub fn with_thumbnails(self) -> (r: MultiSizeBuilder)
        ensures
            r.same_source(&self),
            r.variants() == self.variants() + seq![
                (SizeView { name: "thumb_small"@, width: 64, height: 64 }),
                (SizeView { name: "thumb_medium"@, width: 128, height: 128 }),
                (SizeView { name: "thumb_large"@, width: 256, height: 256 }),
            ],
            r.output() == self.output(),
            r.limits() == self.limits(),
    {
        self.add_size("thumb_small".to_owned(), 64, 64).add_size(
            "thumb_medium".to_owned(),
            128,
            128,
        ).add_size("thumb_large".to_owned(), 256, 256)
    }

    /// Adds common responsive sizes.
    pub fn with_responsive(self) -> (r: MultiSizeBuilder)
        ensures
            r.same_source(&self),
            r.variants() == self.variants() + seq![
                (SizeView { name: "xs"@, width: 320, height: 240 }),
                (SizeView { name: "sm"@, width: 640, height: 480 }),
                (SizeView { name: "md"@, width: 1024, height: 768 }),
                (SizeView { name: "lg"@, width: 1920, height: 1080 }),
            ],
            r.output() == self.output(),
            r.limits() == self.limits(),
    {
        self.add_size("xs".to_owned(), 320, 240).add_size("sm".to_owned(), 640, 480).add_size(
            "md".to_owned(),
            1024,
            768,
        ).add_size("lg".to_owned(), 1920, 1080)
    }

    /// Sets the output format.
    pub fn format(self, format: OutputFormat) -> (r: MultiSizeBuilder)
        ensures
            r.same_source(&self),
            r.variants() == self.variants(),
            r.output() == format,
            r.limits() == self.limits(),
    {
        MultiSizeBuilder { output_format: format, ..self }
    }

    /// What to decode, and under which limits.
    pub fn source(&self) -> (r: (&Bytes, DecodeLimits))
        ensures
            content(*r.0) == self.input(),
            r.1 == self.limits(),
    {
        (&self.data, self.decode_limits)
    }

    /// The number of variants.
    pub fn count(&self) -> (r: usize)
        ensures
            r == self.variants().len(),
    {
        self.sizes.len()
    }

    /// What the image codec has to do for a variant.
    pub fn job(&self, index: usize) -> (r: VariantJob)
        requires
            index < self.variants().len(),
        ensures
            (SizeView { name: r.name@, width: r.width, height: r.height })
                == self.variants()[index as int],
            r.format == self.output(),
            r.metadata@ == self.described(),
    {
        let start = clock::now();
        let size = &self.sizes[index];
        VariantJob {
            name: size.0.clone(),
            width: size.1,
            height: size.2,
            format: self.output_format,
            metadata: self.metadata.duplicate(),
            start,
        }
    }
}

/// A variant is labelled with the bounds that it was fitted into, and behind that
/// with the extension of its format.
pub proof fn law_labels_of_variants(width: u32, height: u32, format: OutputFormat)
    ensures
        variant_labels(width, height, format).len() == 2,
        variant_labels(width, height, format)[0] == "resize_fit:"@ + decimal_text(width as nat)
            + "x"@ + decimal_text(height as nat),
        variant_labels(width, height, format)[1] == "convert:"@ + format.extension_text(),
{
}

/// Every triple stands for one variant, in order.
pub proof fn law_variants_stand_in_order(sizes: Seq<(String, u32, u32)>, i: int)
    requires
        0 <= i < sizes.len(),
    ensures
        size_views(sizes).len() == sizes.len(),
        size_views(sizes)[i].name == sizes[i].0@,
        size_views(sizes)[i].width == sizes[i].1,
        size_views(sizes)[i].height == sizes[i].2,
{
}

} // verus!
