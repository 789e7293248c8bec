use armature_files::image::{DecodeLimits, ImageOp, ResizeFilter};
use armature_files::pdf::points::Milli;
use armature_files::pipeline::Prepared;
use armature_files::{FileError, FileMetadata, MultiSizeBuilder, OutputFormat, Pipeline, Position};
use bytes::Bytes;

fn pipeline() -> Pipeline<Milli> {
    Pipeline::new()
}

#[test]
fn test_pipeline_creation() {
    let pipeline = pipeline().max_size(1024 * 1024);

    assert!(pipeline.data().is_none());
    assert_eq!(pipeline.size_limit(), Some(1024 * 1024));
}

#[test]
fn test_pipeline_load_bytes() {
    let data = vec![0u8; 100];
    let pipeline = pipeline().load_bytes(Bytes::from(data), "test.jpg".to_string());

    assert!(pipeline.data().is_some());
    assert!(pipeline.metadata().is_some());
    assert_eq!(pipeline.metadata().unwrap().filename, "test.jpg");
}

/// Converting to the source format is a byte-identical no-op.
#[test]
fn keeping_the_format_leaves_the_bytes_alone() {
    let data = Bytes::from(vec![1u8, 2, 3, 4, 5]);
    let prepared = pipeline()
        .load_bytes(data.clone(), "photo.jpg".to_string())
        .convert(OutputFormat::Original)
        .prepare()
        .unwrap();
    match prepared {
        Prepared::Finished(result) => {
            assert_eq!(result.data, data);
            assert_eq!(result.metadata.size, 5);
            assert_eq!(result.metadata.extension, Some("jpg".to_string()));
            assert_eq!(result.operations, vec!["convert:".to_string()]);
        }
        Prepared::Image(_) => panic!("the codec must not be asked"),
    }
}

/// A non-image input with a real target format is an error.
#[test]
fn convert_non_image_input_errors() {
    let err = pipeline()
        .load_bytes(
            Bytes::from_static(b"this is not an image, it's plain text data"),
            "notes.txt".to_string(),
        )
        .convert(OutputFormat::Zip)
        .prepare()
        .expect_err("converting a non-image input to Zip must fail, not pass through");
    let msg = err.to_string().to_lowercase();
    assert!(
        msg.contains("unsupported") || msg.contains("cannot"),
        "unexpected error message: {msg}"
    );
    assert_eq!(
        err.to_string(),
        "Unsupported format: cannot convert non-image input (mime: text/plain) to Zip"
    );
}

#[test]
fn missing_and_oversized_input_are_refused() {
    let err = pipeline().to_png().prepare().unwrap_err();
    assert_eq!(err.to_string(), "Pipeline error: No input data loaded");

    let err = pipeline()
        .max_size(4)
        .load_bytes(Bytes::from(vec![0u8; 5]), "a.png".to_string())
        .prepare()
        .unwrap_err();
    assert!(matches!(err, FileError::FileTooLarge { size: 5, max: 4 }));

    let fits = pipeline()
        .max_size(5)
        .load_bytes(Bytes::from(vec![0u8; 5]), "a.png".to_string())
        .prepare();
    assert!(matches!(fits, Ok(Prepared::Finished(_))));
}

#[test]
fn the_job_holds_what_the_codec_has_to_do() {
    let limits = DecodeLimits { max_width: 32, ..DecodeLimits::default() };
    let prepared = pipeline()
        .load_bytes(Bytes::from(vec![9u8; 3]), "photo.png".to_string())
        .decode_limits(limits)
        .with_font(Bytes::from_static(b"font"))
        .resize(800, 600)
        .resize_fit(20, 10)
        .crop(1, 2, 3, 4)
        .rotate(Milli(90_500))
        .watermark("hello".to_string(), Position::Center)
        .image(ImageOp::AutoOrient)
        .image(ImageOp::Grayscale)
        .image(ImageOp::StripMetadata)
        .image(ImageOp::ImageWatermark {
            overlay: Bytes::from_static(b"overlay"),
            position: Position::TopLeft,
            opacity: Milli(500),
        })
        .to_jpeg(85)
        .to_png()
        .convert(OutputFormat::Original)
        .prepare()
        .unwrap();
    let job = match prepared {
        Prepared::Image(job) => job,
        Prepared::Finished(_) => panic!("the codec has work to do"),
    };
    assert_eq!(
        job.labels,
        vec![
            "image:resize",
            "image:resize_fit",
            "image:crop",
            "image:rotate",
            "image:text_watermark",
            "image:auto_orient",
            "image:grayscale",
            "image:strip_metadata",
            "image:image_watermark",
            "convert:jpg",
            "convert:png",
            "convert:",
        ]
    );
    // The last conversion that names a format wins.
    assert_eq!(job.format, OutputFormat::Png);
    assert!(job.oriented);
    assert_eq!(job.limits, limits);
    // The orientation is applied while decoding, not as an operation after it.
    assert_eq!(job.operations.len(), 8);
    assert!(!job.operations.iter().any(|op| matches!(op, ImageOp::AutoOrient)));
    match &job.operations[0] {
        ImageOp::Resize { width, height, filter } => {
            assert_eq!((*width, *height, *filter), (800, 600, ResizeFilter::Lanczos3));
        }
        other => panic!("unexpected operation {other:?}"),
    }
    match &job.operations[4] {
        ImageOp::TextWatermark { text, position, font_size, color, font } => {
            assert_eq!(text, "hello");
            assert_eq!(*position, Position::Center);
            assert_eq!(*font_size, Milli(24_000));
            assert_eq!(*color, [255, 255, 255, 180]);
            assert_eq!(font.as_deref(), Some(&b"font"[..]));
        }
        other => panic!("unexpected operation {other:?}"),
    }

    let metadata = FileMetadata {
        mime_type: "image/png".to_string(),
        width: Some(7),
        ..job.metadata.duplicate()
    };
    let result = job.finish(Bytes::from_static(b"encoded"), metadata);
    assert_eq!(&*result.data, b"encoded");
    assert_eq!(result.metadata.size, 7);
    assert_eq!(result.metadata.width, Some(7));
    assert_eq!(result.operations.len(), 12);
}

/// A text watermark keeps a font of its own.
#[test]
fn an_explicit_font_is_kept() {
    let prepared = pipeline()
        .load_bytes(Bytes::from(vec![9u8; 3]), "photo.png".to_string())
        .with_font(Bytes::from_static(b"default"))
        .image(ImageOp::TextWatermark {
            text: "t".to_string(),
            position: Position::Center,
            font_size: Milli(1),
            color: [0, 0, 0, 0],
            font: Some(Bytes::from_static(b"own")),
        })
        .prepare()
        .unwrap();
    match prepared {
        Prepared::Image(job) => {
            assert_eq!(job.format, OutputFormat::Original);
            assert!(!job.oriented);
            match &job.operations[0] {
                ImageOp::TextWatermark { font, .. } => {
                    assert_eq!(font.as_deref(), Some(&b"own"[..]));
                }
                other => panic!("unexpected operation {other:?}"),
            }
        }
        Prepared::Finished(_) => panic!("the codec has work to do"),
    }
}

#[test]
fn files_are_described_by_their_path() {
    let p = pipeline().loaded_from("dir/photo.gif", Bytes::from(vec![0u8; 12]));
    let metadata = p.metadata().unwrap();
    assert_eq!(metadata.filename, "photo.gif");
    assert_eq!(metadata.mime_type, "image/gif");
    assert_eq!(metadata.size, 12);
}

#[test]
fn variants_are_labelled_by_size_and_format() {
    let builder = MultiSizeBuilder::new(Bytes::from(vec![1u8; 4]), "photo.png".to_string())
        .with_thumbnails()
        .with_responsive()
        .add_size("own".to_string(), 1, 2)
        .format(OutputFormat::WebP);
    assert_eq!(builder.count(), 8);
    assert_eq!(builder.source().0.len(), 4);
    assert_eq!(builder.source().1, DecodeLimits::default());
    let names: Vec<(String, u32, u32)> = (0..8)
        .map(|i| {
            let job = builder.job(i);
            (job.name, job.width, job.height)
        })
        .collect();
    assert_eq!(names[0], ("thumb_small".to_string(), 64, 64));
    assert_eq!(names[1], ("thumb_medium".to_string(), 128, 128));
    assert_eq!(names[2], ("thumb_large".to_string(), 256, 256));
    assert_eq!(names[3], ("xs".to_string(), 320, 240));
    assert_eq!(names[4], ("sm".to_string(), 640, 480));
    assert_eq!(names[5], ("md".to_string(), 1024, 768));
    assert_eq!(names[6], ("lg".to_string(), 1920, 1080));
    assert_eq!(names[7], ("own".to_string(), 1, 2));

    let job = builder.job(0);
    let metadata = job.metadata.duplicate();
    let (name, result) = job.finish(Bytes::from_static(b"abc"), metadata);
    assert_eq!(name, "thumb_small");
    assert_eq!(
        result.operations,
        vec!["resize_fit:64x64".to_string(), "convert:webp".to_string()]
    );
    assert_eq!(result.metadata.size, 3);
    assert_eq!(result.metadata.filename, "photo.png");
}

/// Where the orientation is asked for does not matter.
#[test]
fn orientation_is_applied_wherever_it_is_asked_for() {
    for first in [true, false] {
        let p = pipeline().load_bytes(Bytes::from(vec![1u8]), "photo.jpg".to_string());
        let p = if first {
            p.image(ImageOp::AutoOrient).rotate(Milli(90_000))
        } else {
            p.rotate(Milli(90_000)).image(ImageOp::AutoOrient)
        };
        match p.to_webp().prepare().unwrap() {
            Prepared::Image(job) => {
                assert!(job.oriented);
                assert_eq!(job.format, OutputFormat::WebP);
                assert_eq!(job.operations.len(), 1);
                assert!(matches!(&job.operations[0], ImageOp::Rotate { degrees } if *degrees
                    == Milli(90_000)));
            }
            Prepared::Finished(_) => panic!("the codec has work to do"),
        }
    }
}

/// Asking for the orientation alone is work for the codec.
#[test]
fn orientation_alone_needs_the_codec() {
    let p = pipeline()
        .load_bytes(Bytes::from(vec![1u8]), "photo.jpg".to_string())
        .image(ImageOp::AutoOrient);
    match p.prepare().unwrap() {
        Prepared::Image(job) => {
            assert!(job.oriented);
            assert!(job.operations.is_empty());
            assert_eq!(job.labels, vec!["image:auto_orient"]);
        }
        Prepared::Finished(_) => panic!("the codec has work to do"),
    }
}

/// A label holds nothing of what an operation carries.
#[test]
fn labels_of_image_operations_are_short() {
    let prepared = pipeline()
        .load_bytes(Bytes::from(vec![1u8]), "photo.png".to_string())
        .image(ImageOp::ImageWatermark {
            overlay: Bytes::from(vec![7u8; 100_000]),
            position: Position::Center,
            opacity: Milli(500),
        })
        .watermark("w".repeat(5_000), Position::TopLeft)
        .prepare()
        .unwrap();
    match prepared {
        Prepared::Image(job) => {
            assert_eq!(job.labels, vec!["image:image_watermark", "image:text_watermark"]);
            assert!(job.labels.iter().all(|l| l.len() < 64));
        }
        Prepared::Finished(_) => panic!("the codec has work to do"),
    }
}

/// A conversion behind other operations is still refused for plain text.
#[test]
fn only_images_are_converted() {
    let err = pipeline()
        .load_bytes(Bytes::from_static(b"text"), "notes.txt".to_string())
        .convert(OutputFormat::Original)
        .image(ImageOp::Grayscale)
        .to_jpeg(85)
        .to_png()
        .prepare()
        .unwrap_err();
    assert_eq!(
        err.to_string(),
        "Unsupported format: cannot convert non-image input (mime: text/plain) \
         to Jpeg { quality: 85 }"
    );
}
