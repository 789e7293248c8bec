//! Processing pipelines: a chain of operations on a file.
//!
//! A pipeline is run in two steps.  [`Pipeline::prepare`] checks the input,
//! collects the labels of the operations and works out what the image codec
//! has to do, so that everything happens between a single decoding and a
//! single encoding; [`ImageJob::finish`] makes the result of what the codec
//! returned.  Input that no codec has to touch comes out of the first step
//! unchanged.

use crate::buffer::{self, content};
use crate::clock;
use crate::error::{FileError, FileResult};
use crate::format::OutputFormat;
use crate::image::{
    apply_default_font, default_limits, font_bytes, DecodeLimits, ImageOp, ImageOpView,
    ResizeFilter,
};
use crate::metadata::{
    last_name, named_file, or_empty, portable_path, FileMetadata, MetadataView,
};
use crate::pdf::points::Points;
use crate::position::Position;
use crate::result::ProcessingResult;
use crate::text::{has_prefix, labelled, law_a_prefix_comes_first, pieces_of, texts};
use bytes::Bytes;
use std::time::Instant;
use vstd::prelude::*;
use vstd::string::*;

verus! {

/// Pipeline operations.
#[derive(Debug, Clone)]
pub enum PipelineOp<N> {
    /// Image operation.
    Image(ImageOp<N>),
    /// Convert to format.
    Convert(OutputFormat),
    /// Custom operation (name for logging).
    Custom(String),
}

/// The label of an operation in the result.
pub open spec fn label_text<N>(op: PipelineOp<N>) -> Seq<char> {
    match op {
        PipelineOp::Image(image_op) => "image:"@ + image_op@.name_text(),
        PipelineOp::Convert(format) => "convert:"@ + format.extension_text(),
        PipelineOp::Custom(name) => "custom:"@ + name@,
    }
}

/// The labels of operations.
pub open spec fn label_texts<N>(ops: Seq<PipelineOp<N>>) -> Seq<Seq<char>> {
    Seq::new(ops.len(), |i: int| label_text(ops[i]))
}

/// Whether an operation asks for another format than the source has.
pub open spec fn converts<N>(op: PipelineOp<N>) -> bool {
    op matches PipelineOp::Convert(format) && format != OutputFormat::Original
}

/// The format asked for last; none if the source format is kept.
pub open spec fn target_format<N>(ops: Seq<PipelineOp<N>>) -> Option<OutputFormat>
    decreases ops.len(),
{
    if ops.len() == 0 {
        None
    } else if converts(ops.last()) {
        Some(ops.last()->Convert_0)
    } else {
        target_format(ops.drop_last())
    }
}

/// The format asked for first; none if the source format is kept.
pub open spec fn first_format<N>(ops: Seq<PipelineOp<N>>) -> Option<OutputFormat>
    decreases ops.len(),
{
    if ops.len() == 0 {
        None
    } else if converts(ops[0]) {
        Some(ops[0]->Convert_0)
    } else {
        first_format(ops.drop_first())
    }
}

/// The image operations, in order.
pub open spec fn image_ops<N>(ops: Seq<PipelineOp<N>>) -> Seq<ImageOpView<N>>
    decreases ops.len(),
{
    if ops.len() == 0 {
        Seq::empty()
    } else {
        match ops.last() {
            PipelineOp::Image(op) => image_ops(ops.drop_last()).push(op@),
            _ => image_ops(ops.drop_last()),
        }
    }
}

/// The operations with a font filled in where one is missing.
pub open spec fn with_fonts<N>(
    ops: Seq<ImageOpView<N>>,
    default_font: Option<Seq<u8>>,
) -> Seq<ImageOpView<N>> {
    Seq::new(ops.len(), |i: int| ops[i].with_default_font(default_font))
}

/// The operations, written out.
pub open spec fn op_views<N>(ops: Seq<ImageOp<N>>) -> Seq<ImageOpView<N>> {
    Seq::new(ops.len(), |i: int| ops[i]@)
}

/// Whether the orientation in the metadata of the image has to be applied.
pub open spec fn wants_orientation<N>(ops: Seq<ImageOpView<N>>) -> bool {
    exists|i: int| 0 <= i < ops.len() && #[trigger] ops[i] == ImageOpView::<N>::AutoOrient
}

/// The operations that are left to apply once the image has been decoded: the
/// orientation is applied while decoding.
pub open spec fn after_decoding<N>(ops: Seq<ImageOpView<N>>) -> Seq<ImageOpView<N>>
    decreases ops.len(),
{
    if ops.len() == 0 {
        Seq::empty()
    } else if ops.last() == ImageOpView::<N>::AutoOrient {
        after_decoding(ops.drop_last())
    } else {
        after_decoding(ops.drop_last()).push(ops.last())
    }
}

/// The message about a conversion that there is no encoder for.
pub open spec fn no_conversion_text(mime: Seq<char>, format: OutputFormat) -> Seq<char> {
    "cannot convert non-image input (mime: "@ + mime + ") to "@ + format.debug_text()
}

/// The error that a pipeline fails with before any codec is called.
pub enum Refusal {
    NoData,
    NoMetadata,
    TooLarge { size: nat, max: u64 },
    NoConversion(Seq<char>),
}

/// Whether an error tells of a refusal.
pub open spec fn tells(e: FileError, refusal: Refusal) -> bool {
    match refusal {
        Refusal::NoData => e.is_pipeline_error("No input data loaded"@),
        Refusal::NoMetadata => e.is_pipeline_error("No metadata available"@),
        Refusal::TooLarge { size, max } => e matches FileError::FileTooLarge {
            size: s,
            max: m,
        } && s == size && m == max,
        Refusal::NoConversion(text) => e matches FileError::UnsupportedFormat(m) && m@ == text,
    }
}

/// Why a pipeline fails before any codec is called, if it does.
pub open spec fn refusal<N>(
    data: Option<Seq<u8>>,
    metadata: Option<MetadataView>,
    ops: Seq<PipelineOp<N>>,
    max_size: Option<u64>,
) -> Option<Refusal> {
    if data is None {
        Some(Refusal::NoData)
    } else if metadata is None {
        Some(Refusal::NoMetadata)
    } else if max_size is Some && data->0.len() > max_size->0 {
        Some(Refusal::TooLarge { size: data->0.len(), max: max_size->0 })
    } else if first_format(ops) is Some && !has_prefix(metadata->0.mime_type, "image/"@) {
        Some(Refusal::NoConversion(no_conversion_text(metadata->0.mime_type, first_format(ops)->0)))
    } else {
        None
    }
}

/// Whether the codec has to be called.
pub open spec fn needs_codec<N>(ops: Seq<PipelineOp<N>>) -> bool {
    image_ops(ops).len() > 0 || target_format(ops) is Some
}

/// What the image codec has to do: decode the source, apply the operations in
/// order, and encode the outcome.
#[derive(Debug)]
pub struct ImageJob<N> {
    /// The bytes to decode.
    pub source: Bytes,
    /// The metadata of the source.
    pub metadata: FileMetadata,
    /// The limits to decode under.
    pub limits: DecodeLimits,
    /// Whether to apply the orientation in the image's metadata when decoding.
    pub oriented: bool,
    /// The operations to apply after that.
    pub operations: Vec<ImageOp<N>>,
    /// The format to encode in.
    pub format: OutputFormat,
    /// The labels of all operations of the pipeline.
    pub labels: Vec<String>,
    /// When the pipeline was started.
    pub start: Instant,
}

/// A pipeline that has been checked.
#[derive(Debug)]
pub enum Prepared<N> {
    /// Nothing is left to do.
    Finished(ProcessingResult),
    /// The image codec has to be called.
    Image(ImageJob<N>),
}

/// Whether a result carries these bytes, this metadata with the size brought
/// up to date, and these labels.
pub open spec fn carries(
    result: ProcessingResult,
    data: Seq<u8>,
    metadata: MetadataView,
    labels: Seq<Seq<char>>,
) -> bool {
    &&& content(result.data) == data
    &&& result.metadata@ == (MetadataView { size: data.len(), ..metadata })
    &&& texts(result.operations@) == labels
}

/// A file processing pipeline.
#[derive(Debug, Clone)]
pub struct Pipeline<N> {
    data: Option<Bytes>,
    metadata: Option<FileMetadata>,
    operations: Vec<PipelineOp<N>>,
    max_size: Option<u64>,
    decode_limits: DecodeLimits,
    font: Option<Bytes>,
}

impl<N: Points> Pipeline<N> {
    /// The bytes that were loaded.
    pub closed spec fn input(&self) -> Option<Seq<u8>> {
        font_bytes(self.data)
    }

    /// The metadata of what was loaded.
    pub closed spec fn described(&self) -> Option<MetadataView> {
        match self.metadata {
            Some(m) => Some(m@),
            None => None,
        }
    }

    /// The operations, in order.
    pub closed spec fn steps(&self) -> Seq<PipelineOp<N>> {
        self.operations@
    }

    /// The largest input that is accepted.
    pub closed spec fn size_cap(&self) -> Option<u64> {
        self.max_size
    }

    /// The limits to decode under.
    pub closed spec fn limits(&self) -> DecodeLimits {
        self.decode_limits
    }

    /// The font for text watermarks that have none.
    pub closed spec fn default_font(&self) -> Option<Seq<u8>> {
        font_bytes(self.font)
    }

    /// Whether two pipelines differ in their operations at most.
    pub open spec fn same_setup(&self, other: &Pipeline<N>) -> bool {
        &&& self.input() == other.input()
        &&& self.described() == other.described()
        &&& self.size_cap() == other.size_cap()
        &&& self.limits() == other.limits()
        &&& self.default_font() == other.default_font()
    }

    /// Creates an empty pipeline.
    pub fn new() -> (r: Pipeline<N>)
        ensures
            r.input() is None,
            r.described() is None,
            r.steps() == Seq::<PipelineOp<N>>::empty(),
            r.size_cap() is None,
            r.limits() == default_limits(),
            r.default_font() is None,
    {
        Pipeline {
            data: None,
            metadata: None,
            operations: Vec::new(),
            max_size: None,
            decode_limits: DecodeLimits::default(),
            font: None,
        }
    }

    /// Overrides the resource limits applied when decoding image input.
    pub fn decode_limits(self, limits: DecodeLimits) -> (r: Pipeline<N>)
        ensures
            r.input() == self.input(),
            r.described() == self.described(),
            r.steps() == self.steps(),
            r.size_cap() == self.size_cap(),
            r.limits() == limits,
            r.default_font() == self.default_font(),
    {
        Pipeline { decode_limits: limits, ..self }
    }

    /// Supplies the font for text watermarks that do not carry their own.
    pub fn with_font(self, font: Bytes) -> (r: Pipeline<N>)
        ensures
            r.input() == self.input(),
            r.described() == self.described(),
            r.steps() == self.steps(),
            r.size_cap() == self.size_cap(),
            r.limits() == self.limits(),
            r.default_font() == Some(content(font)),
    {
        Pipeline { font: Some(font), ..self }
    }

    /// Takes bytes that were read from a file.
    pub fn loaded_from(self, path: &str, data: Bytes) -> (r: Pipeline<N>)
        ensures
            r.input() == Some(content(data)),
            exists|base: Option<Seq<char>>|
                r.described() == Some(
                    #[trigger] named_file(or_empty(base), base, content(data).len()),
                ),
            portable_path(path@) ==> r.described() == Some(
                named_file(
                    or_empty(last_name(pieces_of(path@, '/'))),
                    last_name(pieces_of(path@, '/')),
                    content(data).len(),
                ),
            ),
            r.steps() == self.steps(),
            r.size_cap() == self.size_cap(),
            r.limits() == self.limits(),
            r.default_font() == self.default_font(),
    {
        let mut metadata = FileMetadata::from_path(path);
        let ghost base = choose|base: Option<Seq<char>>|
            metadata@ == #[trigger] named_file(or_empty(base), base, 0);
        metadata.size = buffer::length(&data) as u64;
        assert(metadata@ == named_file(or_empty(base), base, content(data).len()));
        Pipeline { data: Some(data), metadata: Some(metadata), ..self }
    }

    /// Loads data from bytes with a filename hint.
    pub fn load_bytes(self, data: Bytes, filename: String) -> (r: Pipeline<N>)
        ensures
            r.input() == Some(content(data)),
            exists|base: Option<Seq<char>>|
                r.described() == Some(
                    #[trigger] named_file(filename@, base, content(data).len()),
                ),
            portable_path(filename@) ==> r.described() == Some(
                named_file(
                    filename@,
                    last_name(pieces_of(filename@, '/')),
                    content(data).len(),
                ),
            ),
            r.steps() == self.steps(),
            r.size_cap() == self.size_cap(),
            r.limits() == self.limits(),
            r.default_font() == self.default_font(),
    {
        let ghost name = filename@;
        let metadata = FileMetadata::from_bytes(buffer::as_slice(&data), filename);
        let ghost base = choose|base: Option<Seq<char>>|
            metadata@ == #[trigger] named_file(name, base, content(data).len());
        assert(metadata@ == named_file(name, base, content(data).len()));
        Pipeline { data: Some(data), metadata: Some(metadata), ..self }
    }

    /// Sets the maximum allowed file size.
    pub fn max_size(self, max_bytes: u64) -> (r: Pipeline<N>)
        ensures
            r.input() == self.input(),
            r.described() == self.described(),
            r.steps() == self.steps(),
            r.size_cap() == Some(max_bytes),
            r.limits() == self.limits(),
            r.default_font() == self.default_font(),
    {
        Pipeline { max_size: Some(max_bytes), ..self }
    }

    /// The bytes that were loaded, if any.
    pub fn data(&self) -> (r: Option<&Bytes>)
        ensures
            match r {
                Some(b) => self.input() == Some(content(*b)),
                None => self.input() is None,
            },
    {
        match &self.data {
            Some(b) => Some(b),
            None => None,
        }
    }

    /// The metadata of what was loaded, if anything.
    pub fn metadata(&self) -> (r: Option<&FileMetadata>)
        ensures
            match r {
                Some(m) => self.described() == Some(m@),
                None => self.described() is None,
            },
    {
        match &self.metadata {
            Some(m) => Some(m),
            None => None,
        }
    }

    /// The largest input that is accepted, if there is a limit.
    pub fn size_limit(&self) -> (r: Option<u64>)
        ensures
            r == self.size_cap(),
    {
        self.max_size
    }

    fn push(self, op: PipelineOp<N>) -> (r: Pipeline<N>)
        ensures
            r.same_setup(&self),
            r.steps() == self.steps().push(op),
    {
        let mut operations = self.operations;
        operations.push(op);
        Pipeline {
            data: self.data,
            metadata: self.metadata,
            operations,
            max_size: self.max_size,
            decode_limits: self.decode_limits,
            font: self.font,
        }
    }

    /// Adds an image operation.
    pub fn image(self, op: ImageOp<N>) -> (r: Pipeline<N>)
        ensures
            r.same_setup(&self),
            r.steps() == self.steps().push(PipelineOp::Image(op)),
    {
        self.push(PipelineOp::Image(op))
    }

    /// Resizes the image.
    pub fn resize(self, width: u32, height: u32) -> (r: Pipeline<N>)
        ensures
            r.same_setup(&self),
            r.steps() == self.steps().push(
                PipelineOp::Image(
                    ImageOp::Resize { width, height, filter: ResizeFilter::Lanczos3 },
                ),
            ),
    {
        self.image(ImageOp::Resize { width, height, filter: ResizeFilter::Lanczos3 })
    }

    /// Resizes the image to fit within bounds.
    pub fn resize_fit(self, max_width: u32, max_height: u32) -> (r: Pipeline<N>)
        ensures
            r.same_setup(&self),
            r.steps() == self.steps().push(
                PipelineOp::Image(
                    ImageOp::ResizeFit { max_width, max_height, filter: ResizeFilter::Lanczos3 },
                ),
            ),
    {
        self.image(ImageOp::ResizeFit { max_width, max_height, filter: ResizeFilter::Lanczos3 })
    }

    /// Crops the image.
    pub fn crop(self, x: u32, y: u32, width: u32, height: u32) -> (r: Pipeline<N>)
        ensures
            r.same_setup(&self),
            r.steps() == self.steps().push(
                PipelineOp::Image(ImageOp::Crop { x, y, width, height }),
            ),
    {
        self.image(ImageOp::Crop { x, y, width, height })
    }

    /// Rotates the image.
    pub fn rotate(self, degrees: N) -> (r: Pipeline<N>)
        ensures
            r.same_setup(&self),
            r.steps() == self.steps().push(PipelineOp::Image(ImageOp::Rotate { degrees })),
    {
        self.image(ImageOp::Rotate { degrees })
    }

    /// Adds a watermark.
    pub fn watermark(self, text: String, position: Position) -> (r: Pipeline<N>)
        ensures
            r.same_setup(&self),
            r.steps().len() == self.steps().len() + 1,
            r.steps().drop_last() == self.steps(),
            r.steps().last() matches PipelineOp::Image(op) && (op@ matches
                ImageOpView::TextWatermark { text: t, position: p, font_size, color, font }
                && t == text@ && p == position && font_size == N::spec_of(24) && color@
                == seq![255u8, 255u8, 255u8, 180u8] && font is None),
    {
        self.image(
            ImageOp::TextWatermark {
                text,
                position,
                font_size: N::of(24),
                color: [255, 255, 255, 180],
                font: None,
            },
        )
    }

    /// Converts to a specific format.
    pub fn convert(self, format: OutputFormat) -> (r: Pipeline<N>)
        ensures
            r.same_setup(&self),
            r.steps() == self.steps().push(PipelineOp::Convert(format)),
    {
        self.push(PipelineOp::Convert(format))
    }

    /// Converts to JPEG.
    pub fn to_jpeg(self, quality: u8) -> (r: Pipeline<N>)
        ensures
            r.same_setup(&self),
            r.steps() == self.steps().push(PipelineOp::Convert(OutputFormat::Jpeg { quality })),
    {
        self.convert(OutputFormat::Jpeg { quality })
    }

    /// Converts to PNG.
    pub fn to_png(self) -> (r: Pipeline<N>)
        ensures
            r.same_setup(&self),
            r.steps() == self.steps().push(PipelineOp::Convert(OutputFormat::Png)),
    {
        self.convert(OutputFormat::Png)
    }

    /// Converts to WebP.
    pub fn to_webp(self) -> (r: Pipeline<N>)
        ensures
            r.same_setup(&self),
            r.steps() == self.steps().push(PipelineOp::Convert(OutputFormat::WebP)),
    {
        self.convert(OutputFormat::WebP)
    }
}

impl<N: Points> Default for Pipeline<N> {
    fn default() -> (r: Pipeline<N>)
        ensures
            r.input() is None,
            r.described() is None,
            r.steps() == Seq::<PipelineOp<N>>::empty(),
            r.size_cap() is None,
            r.limits() == default_limits(),
            r.default_font() is None,
    {
        Pipeline::new()
    }
}

/// What a walk over the operations collects.
struct Collected<N> {
    labels: Vec<String>,
    image_ops: Vec<ImageOp<N>>,
    target: Option<OutputFormat>,
    oriented: bool,
}

/// Walks over the operations, and stops at the first conversion of input that
/// is not an image.
fn collect<N>(operations: Vec<PipelineOp<N>>, is_image: bool, mime: &str, font: &Option<Bytes>) -> (r:
    FileResult<Collected<N>>)
    ensures
        match r {
            Ok(c) => {
                &&& is_image || first_format(operations@) is None
                &&& texts(c.labels@) == label_texts(operations@)
                &&& op_views(c.image_ops@) == with_fonts(
                    after_decoding(image_ops(operations@)),
                    font_bytes(*font),
                )
                &&& c.target == target_format(operations@)
                &&& c.oriented == wants_orientation(image_ops(operations@))
                &&& image_ops(operations@).len() == 0 <==> c.image_ops.len() == 0 && !c.oriented
            },
            Err(e) => !is_image && first_format(operations@) is Some && tells(
                e,
                Refusal::NoConversion(no_conversion_text(mime@, first_format(operations@)->0)),
            ),
        },
{
    let ghost all = operations@;
    let ghost default_font = font_bytes(*font);
    let mut labels: Vec<String> = Vec::new();
    let mut ops: Vec<ImageOp<N>> = Vec::new();
    let mut target: Option<OutputFormat> = None;
    let mut oriented = false;
    assert(all.skip(0) == all);
    assert(texts(labels@) == label_texts(all.take(0)));
    assert(op_views(ops@) == with_fonts(after_decoding(image_ops(all.take(0))), default_font));
    for op in it: operations
        invariant
            it.seq() == all,
            all == operations@,
            default_font == font_bytes(*font),
            texts(labels@) == label_texts(all.take(it.index())),
            op_views(ops@) == with_fonts(
                after_decoding(image_ops(all.take(it.index()))),
                default_font,
            ),
            image_ops(all.take(it.index())).len() == 0 <==> ops.len() == 0 && !oriented,
            target == target_format(all.take(it.index())),
            oriented == wants_orientation(image_ops(all.take(it.index()))),
            is_image || first_format(all.skip(it.index())) == first_format(all),
    {
        let ghost done = it.index();
        let ghost before = all.take(done);
        let ghost after = all.take(done + 1);
        let ghost had_labels = labels@;
        let ghost had_ops = ops@;
        assert(op == all[done]);
        assert(after.drop_last() == before);
        assert(after.last() == op);
        assert(all.skip(done)[0] == op);
        assert(all.skip(done).drop_first() == all.skip(done + 1));
        match op {
            PipelineOp::Image(image_op) => {
                labels.push(labelled("image:", image_op.name()));
                let orients = is_auto_orient(&image_op);
                let ghost was = image_ops(before);
                let ghost is = image_ops(after);
                assert(is == was.push(image_op@));
                assert(is.drop_last() == was);
                if !orients {
                    let with_font = apply_default_font(image_op, font);
                    ops.push(with_font);
                    proof {
                        let left = after_decoding(was);
                        assert(op_views(ops@) =~= op_views(had_ops).push(with_font@));
                        assert(with_fonts(left.push(image_op@), default_font) =~= with_fonts(
                            left,
                            default_font,
                        ).push(with_font@));
                    }
                }
                proof {
                    if oriented {
                        let k = choose|k: int|
                            0 <= k < was.len() && #[trigger] was[k] == ImageOpView::<N>::AutoOrient;
                        assert(is[k] == ImageOpView::<N>::AutoOrient);
                    }
                    if orients {
                        assert(is[was.len() as int] == ImageOpView::<N>::AutoOrient);
                    }
                    if wants_orientation(is) {
                        let k = choose|k: int|
                            0 <= k < is.len() && #[trigger] is[k] == ImageOpView::<N>::AutoOrient;
                        assert(k < was.len() ==> was[k] == ImageOpView::<N>::AutoOrient);
                    }
                }
                oriented = oriented || orients;
            },
            PipelineOp::Convert(format) => {
                labels.push(labelled("convert:", format.extension()));
                if format != OutputFormat::Original {
                    if !is_image {
                        let mut text = "cannot convert non-image input (mime: ".to_owned();
                        text.append(mime);
                        text.append(") to ");
                        text.append(format.message_name().as_str());
                        return Err(FileError::UnsupportedFormat(text));
                    }
                    target = Some(format);
                }
            },
            PipelineOp::Custom(name) => {
                labels.push(labelled("custom:", name.as_str()));
            },
        }
        assert(texts(labels@) =~= texts(had_labels).push(label_text(op)));
        assert(label_texts(after) =~= label_texts(before).push(label_text(op)));
    }
    assert(all.take(all.len() as int) == all);
    assert(all.skip(all.len() as int) == Seq::<PipelineOp<N>>::empty());
    Ok(Collected { labels, image_ops: ops, target, oriented })
}

fn is_auto_orient<N>(op: &ImageOp<N>) -> (r: bool)
    ensures
        r == (op@ == ImageOpView::<N>::AutoOrient),
{
    match op {
        ImageOp::AutoOrient => true,
        _ => false,
    }
}

impl<N: Points> Pipeline<N> {
    /// Why this pipeline fails before any codec is called, if it does.
    pub open spec fn refused(&self) -> Option<Refusal> {
        refusal(self.input(), self.described(), self.steps(), self.size_cap())
    }

    /// Whether a job is the one that this pipeline asks of the image codec.
    pub open spec fn asks_for(&self, job: ImageJob<N>) -> bool {
        &&& self.input() == Some(content(job.source))
        &&& self.described() == Some(job.metadata@)
        &&& job.limits == self.limits()
        &&& job.oriented == wants_orientation(image_ops(self.steps()))
        &&& op_views(job.operations@) == with_fonts(
            after_decoding(image_ops(self.steps())),
            self.default_font(),
        )
        &&& job.format == match target_format(self.steps()) {
            Some(format) => format,
            None => OutputFormat::Original,
        }
        &&& texts(job.labels@) == label_texts(self.steps())
    }

    /// Checks the pipeline and works out what is to be done.
    pub fn prepare(self) -> (r: FileResult<Prepared<N>>)
        ensures
            match r {
                Ok(Prepared::Finished(result)) => self.refused() is None && !needs_codec(
                    self.steps(),
                ) && carries(
                    result,
                    self.input()->0,
                    self.described()->0,
                    label_texts(self.steps()),
                ),
                Ok(Prepared::Image(job)) => self.refused() is None && needs_codec(self.steps())
                    && self.asks_for(job),
                Err(e) => self.refused() is Some && tells(e, self.refused()->0),
            },
    {
        let start = clock::now();
        let data = match self.data {
            Some(data) => data,
            None => return Err(FileError::Pipeline("No input data loaded".to_owned())),
        };
        let mut metadata = match self.metadata {
            Some(metadata) => metadata,
            None => return Err(FileError::Pipeline("No metadata available".to_owned())),
        };
        let size = buffer::length(&data) as u64;
        if let Some(max) = self.max_size {
            if size > max {
                return Err(FileError::FileTooLarge { size, max });
            }
        }
        let is_image = metadata.is_image();
        let collected = match collect(
            self.operations,
            is_image,
            metadata.mime_type.as_str(),
            &self.font,
        ) {
            Err(e) => return Err(e),
            Ok(c) => c,
        };
        if collected.image_ops.len() == 0 && !collected.oriented && collected.target.is_none() {
            metadata.size = size;
            return Ok(
                Prepared::Finished(
                    ProcessingResult {
                        data,
                        metadata,
                        operations: collected.labels,
                        processing_time_ms: clock::elapsed_ms(&start),
                    },
                ),
            );
        }
        let format = match collected.target {
            Some(format) => format,
            None => OutputFormat::Original,
        };
        Ok(
            Prepared::Image(
                ImageJob {
                    source: data,
                    metadata,
                    limits: self.decode_limits,
                    oriented: collected.oriented,
                    operations: collected.image_ops,
                    format,
                    labels: collected.labels,
                    start,
                },
            ),
        )
    }
}

impl<N> ImageJob<N> {
    /// Makes the result of what the codec returned.
    pub fn finish(self, encoded: Bytes, metadata: FileMetadata) -> (r: ProcessingResult)
        ensures
            carries(r, content(encoded), metadata@, texts(self.labels@)),
    {
        let mut metadata = metadata;
        metadata.size = buffer::length(&encoded) as u64;
        ProcessingResult {
            data: encoded,
            metadata,
            operations: self.labels,
            processing_time_ms: clock::elapsed_ms(&self.start),
        }
    }
}

/// Keeping the source format, and nothing else, changes nothing: the codec is
/// not called, and the bytes come out as they went in.
pub proof fn law_keeping_the_format_is_a_passthrough<N>(ops: Seq<PipelineOp<N>>)
    requires
        forall|i: int|
            0 <= i < ops.len() ==> (#[trigger] ops[i] is Custom || ops[i]
                == PipelineOp::<N>::Convert(OutputFormat::Original)),
    ensures
        !needs_codec(ops),
        first_format(ops) is None,
    decreases ops.len(),
{
    if ops.len() > 0 {
        let init = ops.drop_last();
        assert forall|i: int| 0 <= i < init.len() implies (#[trigger] init[i] is Custom || init[i]
            == PipelineOp::<N>::Convert(OutputFormat::Original)) by {
            assert(init[i] == ops[i]);
        }
        law_keeping_the_format_is_a_passthrough(init);
        let last = ops[ops.len() - 1];
        assert(last is Custom || last == PipelineOp::<N>::Convert(OutputFormat::Original));
        lemma_no_first_format(ops);
    }
}

proof fn lemma_no_first_format<N>(ops: Seq<PipelineOp<N>>)
    requires
        forall|i: int| 0 <= i < ops.len() ==> !converts(#[trigger] ops[i]),
    ensures
        first_format(ops) is None,
    decreases ops.len(),
{
    if ops.len() > 0 {
        let rest = ops.drop_first();
        assert forall|i: int| 0 <= i < rest.len() implies !converts(#[trigger] rest[i]) by {
            assert(rest[i] == ops[i + 1]);
        }
        lemma_no_first_format(rest);
    }
}

/// Input that is not an image is never passed off as converted: a pipeline
/// with a conversion in it is refused, wherever the conversion stands.
pub proof fn law_only_images_are_converted<N>(
    data: Seq<u8>,
    metadata: MetadataView,
    ops: Seq<PipelineOp<N>>,
    max_size: Option<u64>,
    i: int,
)
    requires
        !has_prefix(metadata.mime_type, "image/"@),
        0 <= i < ops.len(),
        converts(ops[i]),
    ensures
        refusal(Some(data), Some(metadata), ops, max_size) is Some,
{
    lemma_first_format(ops, i);
}

proof fn lemma_first_format<N>(ops: Seq<PipelineOp<N>>, i: int)
    requires
        0 <= i < ops.len(),
        converts(ops[i]),
    ensures
        first_format(ops) is Some,
    decreases ops.len(),
{
    if !converts(ops[0]) {
        assert(ops.drop_first()[i - 1] == ops[i]);
        lemma_first_format(ops.drop_first(), i - 1);
    }
}

/// The operation that applies the orientation in the metadata of the image.
pub open spec fn orient<N>() -> PipelineOp<N> {
    PipelineOp::Image(ImageOp::AutoOrient)
}

/// Asking for the orientation at any place adds nothing else.
proof fn lemma_orientation_added<N>(ops: Seq<PipelineOp<N>>, i: int)
    requires
        0 <= i <= ops.len(),
    ensures
        ({
            let with = ops.insert(i, orient());
            &&& wants_orientation(image_ops(with))
            &&& after_decoding(image_ops(with)) == after_decoding(image_ops(ops))
            &&& target_format(with) == target_format(ops)
            &&& image_ops(with).len() > 0
        }),
    decreases ops.len(),
{
    let with = ops.insert(i, orient());
    if i == ops.len() {
        assert(with.drop_last() == ops);
        let had = image_ops(ops);
        let has = image_ops(with);
        assert(has == had.push(ImageOpView::<N>::AutoOrient));
        assert(has.drop_last() == had);
        assert(has[had.len() as int] == ImageOpView::<N>::AutoOrient);
    } else {
        let init = ops.drop_last();
        lemma_orientation_added(init, i);
        let before = init.insert(i, orient());
        assert(with.drop_last() == before);
        assert(with.last() == ops.last());
        if let PipelineOp::Image(op) = ops.last() {
            let had = image_ops(init);
            let has = image_ops(before);
            assert(image_ops(ops) == had.push(op@));
            assert(image_ops(with) == has.push(op@));
            assert(had.push(op@).drop_last() == had);
            assert(has.push(op@).drop_last() == has);
            let k = choose|k: int|
                0 <= k < has.len() && #[trigger] has[k] == ImageOpView::<N>::AutoOrient;
            assert(image_ops(with)[k] == ImageOpView::<N>::AutoOrient);
        }
    }
}

proof fn lemma_orientation_keeps_first_format<N>(ops: Seq<PipelineOp<N>>, i: int)
    requires
        0 <= i <= ops.len(),
    ensures
        first_format(ops.insert(i, orient())) == first_format(ops),
    decreases ops.len(),
{
    let with = ops.insert(i, orient());
    if i == 0 {
        assert(with.drop_first() == ops);
    } else {
        lemma_orientation_keeps_first_format(ops.drop_first(), i - 1);
        assert(with.drop_first() == ops.drop_first().insert(i - 1, orient()));
    }
}

/// It does not matter where among the operations the orientation is asked for:
/// the pipeline is refused or not in the same way, and the codec is asked to
/// decode upright, to apply the same operations and to encode in the same
/// format.
pub proof fn law_orientation_ignores_position<N>(
    data: Option<Seq<u8>>,
    metadata: Option<MetadataView>,
    ops: Seq<PipelineOp<N>>,
    max_size: Option<u64>,
    i: int,
    j: int,
)
    requires
        0 <= i <= ops.len(),
        0 <= j <= ops.len(),
    ensures
        ({
            let a = ops.insert(i, orient());
            let b = ops.insert(j, orient());
            &&& refusal(data, metadata, a, max_size) == refusal(data, metadata, b, max_size)
            &&& needs_codec(a) && needs_codec(b)
            &&& wants_orientation(image_ops(a)) && wants_orientation(image_ops(b))
            &&& after_decoding(image_ops(a)) == after_decoding(image_ops(b))
            &&& target_format(a) == target_format(b)
        }),
{
    lemma_orientation_added(ops, i);
    lemma_orientation_added(ops, j);
    lemma_orientation_keeps_first_format(ops, i);
    lemma_orientation_keeps_first_format(ops, j);
}

/// The label of an image operation is short, however much data the operation
/// carries.
pub proof fn law_image_labels_are_short<N>(op: ImageOp<N>)
    ensures
        label_text(PipelineOp::Image(op)).len() < 64,
{
    reveal_strlit("image:");
    reveal_strlit("resize");
    reveal_strlit("resize_fit");
    reveal_strlit("crop");
    reveal_strlit("rotate");
    reveal_strlit("text_watermark");
    reveal_strlit("image_watermark");
    reveal_strlit("grayscale");
    reveal_strlit("auto_orient");
    reveal_strlit("strip_metadata");
}

/// Every image operation of a pipeline is gathered, in order, wherever it
/// stands: conversions and custom operations take nothing away and add nothing.
pub proof fn law_every_image_operation_is_gathered<N>(ops: Seq<PipelineOp<N>>)
    ensures
        image_ops(ops) == ops.filter_map(
            |op: PipelineOp<N>|
                match op {
                    PipelineOp::Image(image_op) => Some(image_op@),
                    _ => None,
                },
        ),
        image_ops(ops).len() == ops.filter(|op: PipelineOp<N>| op is Image).len(),
        image_ops(ops) == image_ops(ops.filter(|op: PipelineOp<N>| op is Image)),
        forall|i: int|
            0 <= i < ops.len() ==> (#[trigger] ops[i] matches PipelineOp::Image(op) ==> image_ops(
                ops,
            ).contains(op@)),
    decreases ops.len(),
{
    reveal(Seq::filter);
    if ops.len() > 0 {
        let init = ops.drop_last();
        law_every_image_operation_is_gathered(init);
        let image = |op: PipelineOp<N>| op is Image;
        let had = image_ops(init);
        let has = image_ops(ops);
        if let PipelineOp::Image(op) = ops.last() {
            assert(has == had + seq![op@]);
            assert(has[had.len() as int] == op@);
            let kept = ops.filter(image);
            assert(kept.drop_last() == init.filter(image));
            assert(kept.last() == ops.last());
        }
        assert forall|i: int| 0 <= i < ops.len() implies (#[trigger] ops[i] matches
            PipelineOp::Image(op) ==> has.contains(op@)) by {
            if i < init.len() {
                assert(init[i] == ops[i]);
                if let PipelineOp::Image(op) = ops[i] {
                    let k = had.index_of(op@);
                    assert(has[k] == op@);
                }
            }
        }
    }
}

/// Only the orientation is taken out of what is applied after decoding.
pub proof fn law_only_the_orientation_is_applied_while_decoding<N>(ops: Seq<ImageOpView<N>>)
    ensures
        after_decoding(ops) == ops.filter(
            |op: ImageOpView<N>| op != ImageOpView::<N>::AutoOrient,
        ),
    decreases ops.len(),
{
    reveal(Seq::filter);
    if ops.len() > 0 {
        law_only_the_orientation_is_applied_while_decoding(ops.drop_last());
    }
}

/// The codec is called exactly if there is an image operation or a conversion to
/// another format.
pub proof fn law_the_codec_is_called_when_there_is_work<N>(ops: Seq<PipelineOp<N>>)
    ensures
        needs_codec(ops) <==> exists|i: int|
            0 <= i < ops.len() && (#[trigger] ops[i] is Image || (ops[i] is Convert && ops[i]
                != PipelineOp::<N>::Convert(OutputFormat::Original))),
    decreases ops.len(),
{
    if ops.len() > 0 {
        let init = ops.drop_last();
        law_the_codec_is_called_when_there_is_work(init);
        if exists|i: int|
            0 <= i < init.len() && (#[trigger] init[i] is Image || (init[i] is Convert && init[i]
                != PipelineOp::<N>::Convert(OutputFormat::Original))) {
            let i = choose|i: int|
                0 <= i < init.len() && (#[trigger] init[i] is Image || (init[i] is Convert
                    && init[i] != PipelineOp::<N>::Convert(OutputFormat::Original)));
            assert(ops[i] == init[i]);
        }
        if exists|i: int|
            0 <= i < ops.len() && (#[trigger] ops[i] is Image || (ops[i] is Convert && ops[i]
                != PipelineOp::<N>::Convert(OutputFormat::Original))) {
            let i = choose|i: int|
                0 <= i < ops.len() && (#[trigger] ops[i] is Image || (ops[i] is Convert && ops[i]
                    != PipelineOp::<N>::Convert(OutputFormat::Original)));
            if i < init.len() {
                assert(init[i] == ops[i]);
            }
        }
        assert(ops[ops.len() - 1] == ops.last());
    }
}

/// The conversion that comes last gives the format, and the one that comes first
/// is named when the input is no image.  Keeping the format is no conversion.
pub proof fn law_the_last_conversion_gives_the_format<N>(
    before: Seq<PipelineOp<N>>,
    format: OutputFormat,
    after: Seq<PipelineOp<N>>,
)
    requires
        format != OutputFormat::Original,
    ensures
        (forall|i: int|
            0 <= i < after.len() ==> (#[trigger] after[i] is Convert ==> after[i]
                == PipelineOp::<N>::Convert(OutputFormat::Original))) ==> target_format(
            before.push(PipelineOp::Convert(format)) + after,
        ) == Some(format) && target_format(after) is None,
        (forall|i: int|
            0 <= i < before.len() ==> (#[trigger] before[i] is Convert ==> before[i]
                == PipelineOp::<N>::Convert(OutputFormat::Original))) ==> first_format(
            before.push(PipelineOp::Convert(format)) + after,
        ) == Some(format) && first_format(before) is None,
{
    if forall|i: int|
        0 <= i < after.len() ==> (#[trigger] after[i] is Convert ==> after[i]
            == PipelineOp::<N>::Convert(OutputFormat::Original)) {
        lemma_target_behind(before, format, after);
    }
    if forall|i: int|
        0 <= i < before.len() ==> (#[trigger] before[i] is Convert ==> before[i]
            == PipelineOp::<N>::Convert(OutputFormat::Original)) {
        lemma_first_before(before, format, after);
        lemma_no_first_format(before);
    }
}

proof fn lemma_target_behind<N>(
    before: Seq<PipelineOp<N>>,
    format: OutputFormat,
    after: Seq<PipelineOp<N>>,
)
    requires
        format != OutputFormat::Original,
        forall|i: int|
            0 <= i < after.len() ==> (#[trigger] after[i] is Convert ==> after[i]
                == PipelineOp::<N>::Convert(OutputFormat::Original)),
    ensures
        target_format(before.push(PipelineOp::Convert(format)) + after) == Some(format),
        target_format(after) is None,
    decreases after.len(),
{
    let all = before.push(PipelineOp::Convert(format)) + after;
    if after.len() == 0 {
        assert(all.last() == PipelineOp::<N>::Convert(format));
    } else {
        let init = after.drop_last();
        assert forall|i: int| 0 <= i < init.len() && #[trigger] init[i] is Convert implies init[i]
            == PipelineOp::<N>::Convert(OutputFormat::Original) by {
            assert(init[i] == after[i]);
        }
        lemma_target_behind(before, format, init);
        assert(after[after.len() - 1] == after.last());
        assert(all.last() == after.last());
        assert(all.drop_last() == before.push(PipelineOp::Convert(format)) + init);
    }
}

proof fn lemma_first_before<N>(
    before: Seq<PipelineOp<N>>,
    format: OutputFormat,
    after: Seq<PipelineOp<N>>,
)
    requires
        format != OutputFormat::Original,
        forall|i: int|
            0 <= i < before.len() ==> (#[trigger] before[i] is Convert ==> before[i]
                == PipelineOp::<N>::Convert(OutputFormat::Original)),
    ensures
        first_format(before.push(PipelineOp::Convert(format)) + after) == Some(format),
    decreases before.len(),
{
    let all = before.push(PipelineOp::Convert(format)) + after;
    if before.len() == 0 {
        assert(all[0] == PipelineOp::<N>::Convert(format));
    } else {
        let rest = before.drop_first();
        assert forall|i: int| 0 <= i < rest.len() && #[trigger] rest[i] is Convert implies rest[i]
            == PipelineOp::<N>::Convert(OutputFormat::Original) by {
            assert(rest[i] == before[i + 1]);
        }
        lemma_first_before(rest, format, after);
        assert(all[0] == before[0]);
        assert(all.drop_first() == rest.push(PipelineOp::Convert(format)) + after);
    }
}

/// A pipeline is refused exactly if nothing was loaded, if the input is larger
/// than allowed, or if input that is no image is to be converted.
pub proof fn law_when_a_pipeline_is_refused<N>(
    data: Option<Seq<u8>>,
    metadata: Option<MetadataView>,
    ops: Seq<PipelineOp<N>>,
    max_size: Option<u64>,
)
    ensures
        refusal(data, metadata, ops, max_size) is None <==> {
            &&& data is Some
            &&& metadata is Some
            &&& max_size matches Some(max) ==> data->0.len() <= max
            &&& (exists|rest: Seq<char>| metadata->0.mime_type == "image/"@ + rest) || forall|i:
                int|
                0 <= i < ops.len() ==> (#[trigger] ops[i] is Convert ==> ops[i]
                    == PipelineOp::<N>::Convert(OutputFormat::Original))
        },
        data is Some && metadata is Some ==> (refusal(data, metadata, ops, max_size) matches Some(
            Refusal::TooLarge { size, max },
        ) ==> size == data->0.len() && max_size == Some(max) && size > max),
{
    if forall|i: int|
        0 <= i < ops.len() ==> (#[trigger] ops[i] is Convert ==> ops[i]
            == PipelineOp::<N>::Convert(OutputFormat::Original)) {
        lemma_no_first_format(ops);
    } else {
        let i = choose|i: int|
            0 <= i < ops.len() && !(#[trigger] ops[i] is Convert ==> ops[i]
                == PipelineOp::<N>::Convert(OutputFormat::Original));
        lemma_first_format(ops, i);
    }
    if metadata is Some {
        let mime = metadata->0.mime_type;
        law_a_prefix_comes_first("image/"@, Seq::empty(), mime);
        if exists|rest: Seq<char>| mime == "image/"@ + rest {
            let rest = choose|rest: Seq<char>| mime == "image/"@ + rest;
            law_a_prefix_comes_first("image/"@, rest, mime);
        }
        if has_prefix(mime, "image/"@) {
            assert(mime == "image/"@ + mime.skip("image/"@.len() as int));
        }
    }
}

proof fn lemma_asked_operations<N>(ops: Seq<PipelineOp<N>>)
    ensures
        after_decoding(image_ops(ops)) == ops.filter_map(
            |op: PipelineOp<N>|
                match op {
                    PipelineOp::Image(image_op) => if image_op is AutoOrient {
                        None
                    } else {
                        Some(image_op@)
                    },
                    _ => None,
                },
        ),
    decreases ops.len(),
{
    if ops.len() > 0 {
        let init = ops.drop_last();
        lemma_asked_operations(init);
        let had = image_ops(init);
        if let PipelineOp::Image(op) = ops.last() {
            assert(had.push(op@).drop_last() == had);
            assert(after_decoding(had).push(op@) == after_decoding(had) + seq![op@]);
        }
    }
}

/// What the codec is asked for: to decode what was loaded within the limits,
/// upright if the orientation is asked for anywhere, to apply every other image
/// operation of the pipeline, in order and as it is but for the font that a text
/// lacks, and to encode in the format asked for last.
pub proof fn law_what_the_codec_is_asked_for<N: Points>(p: Pipeline<N>, job: ImageJob<N>)
    requires
        p.asks_for(job),
    ensures
        p.input() == Some(content(job.source)),
        p.described() == Some(job.metadata@),
        job.limits == p.limits(),
        job.oriented <==> exists|i: int|
            0 <= i < p.steps().len() && (#[trigger] p.steps()[i] matches PipelineOp::Image(op)
                && op is AutoOrient),
        target_format(p.steps()) is None ==> job.format == OutputFormat::Original,
        target_format(p.steps()) matches Some(format) ==> job.format == format,
        ({
            let asked = p.steps().filter_map(
                |op: PipelineOp<N>|
                    match op {
                        PipelineOp::Image(image_op) => if image_op is AutoOrient {
                            None
                        } else {
                            Some(image_op@)
                        },
                        _ => None,
                    },
            );
            &&& job.operations.len() == asked.len()
            &&& forall|k: int|
                0 <= k < asked.len() ==> ((#[trigger] asked[k]) matches ImageOpView::TextWatermark {
                    text,
                    position,
                    font_size,
                    color,
                    font,
                } ==> job.operations[k]@ == (ImageOpView::TextWatermark {
                    text,
                    position,
                    font_size,
                    color,
                    font: if font is Some {
                        font
                    } else {
                        p.default_font()
                    },
                }))
            &&& forall|k: int|
                0 <= k < asked.len() && !((#[trigger] asked[k]) is TextWatermark)
                    ==> job.operations[k]@ == asked[k]
        }),
        job.labels.len() == p.steps().len(),
        forall|i: int|
            0 <= i < p.steps().len() ==> (match p.steps()[i] {
                PipelineOp::Image(op) => (#[trigger] job.labels[i])@ == "image:"@
                    + op@.name_text(),
                PipelineOp::Convert(format) => job.labels[i]@ == "convert:"@
                    + format.extension_text(),
                PipelineOp::Custom(name) => job.labels[i]@ == "custom:"@ + name@,
            }),
{
    let steps = p.steps();
    lemma_asked_operations(steps);
    lemma_orientation_is_asked_for(steps);
    let asked = after_decoding(image_ops(steps));
    let views = op_views(job.operations@);
    assert(views.len() == job.operations.len());
    assert forall|k: int| 0 <= k < asked.len() implies job.operations[k]@ == (
    #[trigger] asked[k]).with_default_font(p.default_font()) by {
        assert(views[k] == job.operations[k]@);
    }
    let labels = texts(job.labels@);
    assert(labels.len() == job.labels.len());
    assert forall|i: int| 0 <= i < steps.len() implies (#[trigger] job.labels[i])@ == label_text(
        steps[i],
    ) by {
        assert(labels[i] == label_texts(steps)[i]);
    }
}

proof fn lemma_orientation_is_asked_for<N>(ops: Seq<PipelineOp<N>>)
    ensures
        wants_orientation(image_ops(ops)) <==> exists|i: int|
            0 <= i < ops.len() && (#[trigger] ops[i] matches PipelineOp::Image(op)
                && op is AutoOrient),
    decreases ops.len(),
{
    let orient = ImageOpView::<N>::AutoOrient;
    assert(wants_orientation(image_ops(ops)) == image_ops(ops).contains(orient));
    if ops.len() > 0 {
        let init = ops.drop_last();
        lemma_orientation_is_asked_for(init);
        let had = image_ops(init);
        let has = image_ops(ops);
        assert(wants_orientation(had) == had.contains(orient));
        if wants_orientation(had) {
            let i = choose|i: int|
                0 <= i < init.len() && (#[trigger] init[i] matches PipelineOp::Image(op)
                    && op is AutoOrient);
            assert(ops[i] == init[i]);
            let k = had.index_of(orient);
            assert(has[k] == orient);
        }
        if ops.last() matches PipelineOp::Image(op) && op is AutoOrient {
            assert(ops[ops.len() - 1] == ops.last());
            assert(has[had.len() as int] == orient);
        }
        if exists|i: int|
            0 <= i < ops.len() && (#[trigger] ops[i] matches PipelineOp::Image(op)
                && op is AutoOrient) {
            let i = choose|i: int|
                0 <= i < ops.len() && (#[trigger] ops[i] matches PipelineOp::Image(op)
                    && op is AutoOrient);
            if i < init.len() {
                assert(init[i] == ops[i]);
            }
        }
        if has.contains(orient) {
            let k = has.index_of(orient);
            if k < had.len() {
                assert(had[k] == orient);
            }
        }
    }
}

/// A result carries the bytes that came out, with their number as the size, and
/// everything else of the metadata as it was.
pub proof fn law_a_result_carries_what_came_out(
    result: ProcessingResult,
    data: Seq<u8>,
    metadata: MetadataView,
    labels: Seq<Seq<char>>,
)
    requires
        carries(result, data, metadata, labels),
    ensures
        content(result.data) == data,
        result.metadata.size == data.len(),
        result.metadata.filename@ == metadata.filename,
        result.metadata.mime_type@ == metadata.mime_type,
        result.metadata@.extension == metadata.extension,
        result.metadata.width == metadata.width,
        result.metadata.height == metadata.height,
        result.metadata.pages == metadata.pages,
        result.operations.len() == labels.len(),
        forall|i: int| 0 <= i < labels.len() ==> (#[trigger] result.operations[i])@ == labels[i],
{
    let all = texts(result.operations@);
    assert(all.len() == result.operations.len());
    assert forall|i: int| 0 <= i < labels.len() implies (#[trigger] result.operations[i])@
        == labels[i] by {
        assert(all[i] == labels[i]);
    }
}

/// Every step has its label, in order, by its kind and what it is called.
pub proof fn law_every_step_has_its_label<N>(ops: Seq<PipelineOp<N>>)
    ensures
        label_texts(ops).len() == ops.len(),
        forall|i: int|
            0 <= i < ops.len() ==> (match ops[i] {
                PipelineOp::Image(op) => (#[trigger] label_texts(ops)[i]) == "image:"@
                    + op@.name_text(),
                PipelineOp::Convert(format) => label_texts(ops)[i] == "convert:"@
                    + format.extension_text(),
                PipelineOp::Custom(name) => label_texts(ops)[i] == "custom:"@ + name@,
            }),
{
}

/// What a pipeline is refused for comes first in this order: no data, no
/// metadata, too much data, and a conversion of what is no image, of which the
/// first conversion is named.
pub proof fn law_what_a_refused_pipeline_says<N>(
    data: Option<Seq<u8>>,
    metadata: Option<MetadataView>,
    ops: Seq<PipelineOp<N>>,
    max_size: Option<u64>,
    e: FileError,
)
    requires
        refusal(data, metadata, ops, max_size) is Some,
        tells(e, refusal(data, metadata, ops, max_size)->0),
    ensures
        data is None ==> e.is_pipeline_error("No input data loaded"@),
        data is Some && metadata is None ==> e.is_pipeline_error("No metadata available"@),
        data is Some && metadata is Some && (max_size matches Some(max) && data->0.len() > max)
            ==> {
            &&& e is FileTooLarge
            &&& e->size == data->0.len()
            &&& Some(e->max) == max_size
        },
        data is Some && metadata is Some && !(max_size matches Some(max) && data->0.len() > max)
            ==> {
            &&& first_format(ops) is Some
            &&& e is UnsupportedFormat
            &&& e->UnsupportedFormat_0@ == "cannot convert non-image input (mime: "@
                + metadata->0.mime_type + ") to "@ + first_format(ops)->0.debug_text()
        },
{
}

} // verus!
