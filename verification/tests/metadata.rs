use armature_files::{FileError, FileMetadata, OutputFormat, Position};

#[test]
fn test_file_metadata_from_path() {
    let meta = FileMetadata::from_path("test.jpg");
    assert_eq!(meta.filename, "test.jpg");
    assert_eq!(meta.extension, Some("jpg".to_string()));
    assert!(meta.is_image());
}

#[test]
fn test_output_format_extension() {
    assert_eq!(OutputFormat::Jpeg { quality: 85 }.extension(), "jpg");
    assert_eq!(OutputFormat::Png.extension(), "png");
    assert_eq!(OutputFormat::Pdf.extension(), "pdf");
}

#[test]
fn test_position_calculate() {
    let (x, y) = Position::TopLeft.calculate(100, 100, 20, 20, 5);
    assert_eq!((x, y), (5, 5));

    let (x, y) = Position::Center.calculate(100, 100, 20, 20, 5);
    assert_eq!((x, y), (40, 40));

    let (x, y) = Position::BottomRight.calculate(100, 100, 20, 20, 5);
    assert_eq!((x, y), (75, 75));
}

/// An element larger than its container must clamp to the origin instead of
/// underflowing.
#[test]
fn position_calculate_saturates_on_oversized_element() {
    // 430px of rendered watermark text on a 200x100 thumbnail.
    let all = [
        Position::TopLeft,
        Position::TopCenter,
        Position::TopRight,
        Position::CenterLeft,
        Position::Center,
        Position::CenterRight,
        Position::BottomLeft,
        Position::BottomCenter,
        Position::BottomRight,
        Position::Custom(3, 7),
    ];

    for position in all {
        let (x, y) = position.calculate(200, 100, 430, 150, 10);
        if let Position::Custom(cx, cy) = position {
            assert_eq!((x, y), (cx, cy));
        } else {
            assert_eq!(
                (x, y),
                (0, 0),
                "{position:?} should clamp an oversized element to the origin"
            );
        }
    }
}

/// A container only slightly larger than the element must not let the padding
/// push the leading edge past the available space.
#[test]
fn position_calculate_clamps_padding_to_free_space() {
    let (x, y) = Position::TopLeft.calculate(100, 100, 98, 98, 10);
    assert_eq!((x, y), (2, 2));

    let (x, y) = Position::BottomRight.calculate(100, 100, 98, 98, 10);
    assert_eq!((x, y), (0, 0));
}

#[test]
fn every_anchor_has_its_own_place() {
    let at = |p: Position| p.calculate(100, 60, 20, 10, 5);
    assert_eq!(at(Position::TopCenter), (40, 5));
    assert_eq!(at(Position::TopRight), (75, 5));
    assert_eq!(at(Position::CenterLeft), (5, 25));
    assert_eq!(at(Position::CenterRight), (75, 25));
    assert_eq!(at(Position::BottomLeft), (5, 45));
    assert_eq!(at(Position::BottomCenter), (40, 45));
}

#[test]
fn mime_types_follow_the_extension() {
    let pdf = FileMetadata::from_path("docs/report.pdf");
    assert_eq!(pdf.filename, "report.pdf");
    assert_eq!(pdf.mime_type, "application/pdf");
    assert_eq!(pdf.size, 0);
    assert!(pdf.is_pdf());
    assert!(!pdf.is_image());

    let zip = FileMetadata::from_bytes(b"12345", "a.zip".to_string());
    assert_eq!(zip.size, 5);
    assert_eq!(zip.mime_type, "application/zip");
    assert!(zip.is_archive());

    let tar = FileMetadata::from_path("a.tar");
    assert_eq!(tar.mime_type, "application/x-tar");
    assert!(tar.is_archive());
}

#[test]
fn names_without_an_extension_are_octet_streams() {
    for name in ["README", ".bashrc", "dir.d/plain"] {
        let meta = FileMetadata::from_path(name);
        assert_eq!(meta.extension, None, "{name}");
        assert_eq!(meta.mime_type, "application/octet-stream", "{name}");
    }
    assert_eq!(FileMetadata::from_path("a/..").filename, "");
    assert_eq!(FileMetadata::from_path("a/b.txt/").filename, "b.txt");
    assert_eq!(FileMetadata::from_path("name.").extension, Some(String::new()));
    assert_eq!(
        FileMetadata::from_path("archive.tar.gz").extension,
        Some("gz".to_string())
    );
    assert_eq!(
        FileMetadata::from_path(".config.toml").extension,
        Some("toml".to_string())
    );
}

#[test]
fn from_bytes_keeps_the_whole_name() {
    let meta = FileMetadata::from_bytes(&[0u8; 7], "photos/cat.PNG".to_string());
    assert_eq!(meta.filename, "photos/cat.PNG");
    assert_eq!(meta.extension, Some("PNG".to_string()));
    assert_eq!(meta.mime_type, "image/png");
    assert_eq!(meta.size, 7);
    assert_eq!(meta.width, None);
    assert_eq!(meta.height, None);
    assert_eq!(meta.pages, None);
}

#[test]
fn output_formats_have_mime_types() {
    let all = [
        (OutputFormat::Jpeg { quality: 1 }, "jpg", "image/jpeg", "Jpeg { quality: 1 }"),
        (OutputFormat::Png, "png", "image/png", "Png"),
        (OutputFormat::WebP, "webp", "image/webp", "WebP"),
        (OutputFormat::Gif, "gif", "image/gif", "Gif"),
        (OutputFormat::Bmp, "bmp", "image/bmp", "Bmp"),
        (OutputFormat::Ico, "ico", "image/x-icon", "Ico"),
        (OutputFormat::Tiff, "tiff", "image/tiff", "Tiff"),
        (OutputFormat::Pdf, "pdf", "application/pdf", "Pdf"),
        (OutputFormat::Zip, "zip", "application/zip", "Zip"),
        (OutputFormat::Original, "", "application/octet-stream", "Original"),
    ];
    for (format, extension, mime, name) in all {
        assert_eq!(format.extension(), extension);
        assert_eq!(format.mime_type(), mime);
        assert_eq!(format.message_name(), name);
        assert_eq!(format!("{format:?}"), name);
    }
}

#[test]
fn every_error_has_its_message() {
    let text = |e: FileError| e.to_string();
    let m = || "why".to_string();
    assert_eq!(text(FileError::Image(m())), "Image error: why");
    assert_eq!(text(FileError::Pdf(m())), "PDF error: why");
    assert_eq!(text(FileError::Archive(m())), "Archive error: why");
    assert_eq!(text(FileError::UnsupportedFormat(m())), "Unsupported format: why");
    assert_eq!(text(FileError::InvalidOperation(m())), "Invalid operation: why");
    assert_eq!(text(FileError::NotFound(m())), "File not found: why");
    assert_eq!(text(FileError::Pipeline(m())), "Pipeline error: why");
    assert_eq!(text(FileError::Encoding(m())), "Encoding error: why");
    assert_eq!(
        text(FileError::FileTooLarge { size: 120, max: 7 }),
        "File too large: 120 bytes (max: 7 bytes)"
    );
    assert_eq!(
        text(FileError::InvalidDimensions { width: 0, height: 4294967295 }),
        "Invalid dimensions: 0x4294967295"
    );
    let io = std::io::Error::new(std::io::ErrorKind::Other, "disk on fire");
    assert_eq!(text(FileError::from(io)), "IO error: disk on fire");
}
