//! The two standard archive attacks: path traversal and decompression bombs.
//! Fixtures are built in memory.

use armature_files::archive::{CompressionLevel, ZipBuilder, ZipExtractor};
use bytes::Bytes;
use std::io::Write;

/// Build a ZIP containing the given (name, contents) pairs *verbatim* — the
/// `zip` crate happily writes traversal and absolute member names, which is
/// exactly what a malicious archive looks like on the wire.
fn raw_zip(entries: &[(&str, &[u8])]) -> Bytes {
    let mut buffer = std::io::Cursor::new(Vec::new());
    {
        let mut writer = zip::ZipWriter::new(&mut buffer);
        let options = zip::write::SimpleFileOptions::default();
        for (name, data) in entries {
            writer
                .start_file(*name, options)
                .expect("zip writer should accept the raw member name");
            writer.write_all(data).unwrap();
        }
        writer.finish().unwrap();
    }
    Bytes::from(buffer.into_inner())
}

fn add(builder: ZipBuilder, path: &str, data: Vec<u8>) -> ZipBuilder {
    builder.add_file(path.to_string(), Bytes::from(data))
}

/// An archive larger than the container cap is refused before it is ever
/// opened.
#[test]
fn oversized_archive_container_is_rejected_before_parsing() {
    let archive = add(ZipBuilder::new(), "a.txt", b"x".to_vec()).build().unwrap();

    let err = ZipExtractor::new(archive.data)
        .max_archive_bytes(16)
        .list_files()
        .expect_err("an archive over the container cap must not be opened");

    assert!(
        err.to_string().contains("exceeding the limit"),
        "unexpected error: {}",
        err.to_string()
    );
}

/// The entry-count limit is enforced from the End Of Central Directory record,
/// before the central directory itself is indexed.
#[test]
fn entry_count_is_checked_before_the_central_directory_is_indexed() {
    let mut builder = ZipBuilder::new();
    for i in 0..20 {
        builder = add(builder, &format!("f{i}.txt"), b"x".to_vec());
    }
    let archive = builder.build().unwrap();

    let err = ZipExtractor::new(archive.data)
        .max_entries(5)
        .list_files()
        .expect_err("20 entries must not pass a limit of 5");

    assert!(
        err.to_string().contains("declares 20 entries"),
        "the limit should have been caught from the EOCD record, got: {}",
        err.to_string()
    );
}

/// The in-memory extraction path refuses traversal.
#[test]
fn extract_all_rejects_traversal_entries() {
    let archive = raw_zip(&[("a/../../b.txt", b"pwned")]);

    let err = ZipExtractor::new(archive)
        .extract_all()
        .expect_err("a traversal member must not be returned");

    assert!(
        err.to_string().contains("escapes the extraction directory"),
        "unexpected error: {}",
        err.to_string()
    );
}

/// A high-ratio archive must be refused rather than decompressed into RAM: a
/// few KB of deflate stream expands to 4 MiB here.
#[test]
fn extract_all_enforces_the_uncompressed_size_budget() {
    let bomb = add(
        ZipBuilder::new().compression(CompressionLevel::Best),
        "bomb.bin",
        vec![0u8; 4 * 1024 * 1024],
    )
    .build()
    .unwrap();

    // Sanity check: the *compressed* archive is tiny, so a size check on the
    // input bytes would not catch this.
    assert!(
        bomb.data.len() < 64 * 1024,
        "fixture should be highly compressible, got {} bytes",
        bomb.data.len()
    );

    let err = ZipExtractor::new(bomb.data)
        .max_uncompressed_size(1024)
        .extract_all()
        .expect_err("a 4 MiB expansion must not fit in a 1 KiB budget");

    assert!(
        err.to_string().contains("budget"),
        "unexpected error: {}",
        err.to_string()
    );
}

/// The budget is cumulative across entries, not per entry: each entry alone
/// fits, but together they blow the cap.
#[test]
fn uncompressed_size_budget_is_cumulative_across_entries() {
    let builder = add(
        ZipBuilder::new().compression(CompressionLevel::Best),
        "one.bin",
        vec![7u8; 1024 * 1024],
    );
    let archive = add(builder, "two.bin", vec![9u8; 1024 * 1024]).build().unwrap();

    // 1.5 MiB: the first entry fits, the second must not.
    let err = ZipExtractor::new(archive.data.clone())
        .max_uncompressed_size(3 * 1024 * 1024 / 2)
        .extract_all()
        .expect_err("the second entry should exhaust the shared budget");
    assert!(
        err.to_string().contains("budget"),
        "unexpected error: {}",
        err.to_string()
    );

    // With headroom for both, extraction succeeds.
    let entries = ZipExtractor::new(archive.data)
        .max_uncompressed_size(4 * 1024 * 1024)
        .extract_all()
        .expect("both entries fit within a 4 MiB budget");
    assert_eq!(entries.len(), 2);
}

/// Entry-count is capped independently of total size.
#[test]
fn entry_count_is_capped() {
    let mut builder = ZipBuilder::new();
    for i in 0..20 {
        builder = add(builder, &format!("f{i}.txt"), b"x".to_vec());
    }
    let archive = builder.build().unwrap();

    let err = ZipExtractor::new(archive.data)
        .max_entries(5)
        .list_files()
        .expect_err("20 entries must not pass a limit of 5");

    assert!(
        err.to_string().contains("exceeding the limit"),
        "unexpected error: {}",
        err.to_string()
    );
}

/// A 22-byte End Of Central Directory record declaring `count` members and no
/// comment. Every byte is below 0x80, so the record doubles as a valid UTF-8
/// string and can be planted verbatim in an archive comment.
fn fake_eocd(count: u16) -> Vec<u8> {
    let mut record = vec![b'P', b'K', 0x05, 0x06];
    record.extend_from_slice(&0u16.to_le_bytes()); // this disk
    record.extend_from_slice(&0u16.to_le_bytes()); // disk with the CD start
    record.extend_from_slice(&count.to_le_bytes()); // entries on this disk
    record.extend_from_slice(&count.to_le_bytes()); // total entries
    record.extend_from_slice(&0u32.to_le_bytes()); // CD size
    record.extend_from_slice(&0u32.to_le_bytes()); // CD offset
    record.extend_from_slice(&0u16.to_le_bytes()); // comment length
    assert_eq!(record.len(), 22);
    record
}

/// A second EOCD planted *inside* the real one's comment.
///
/// Both records are individually self-consistent (each one's comment length
/// reaches the end of the file), so the guard has to take the *largest*
/// declared count rather than trusting whichever it finds first.
#[test]
fn planted_eocd_in_the_comment_cannot_understate_the_entry_count() {
    let planted = String::from_utf8(fake_eocd(1)).expect("the fixture record is ASCII-safe");

    let mut builder = ZipBuilder::new().comment(planted);
    for i in 0..20 {
        builder = add(builder, &format!("f{i}.txt"), b"x".to_vec());
    }
    let archive = builder.build().unwrap();

    let err = ZipExtractor::new(archive.data)
        .max_entries(5)
        .list_files()
        .expect_err("a planted EOCD must not launder 20 entries past a limit of 5");

    assert!(
        err.to_string().contains("declares 20 entries"),
        "the real EOCD should have won the scan, got: {}",
        err.to_string()
    );
}

/// A small classic count paired with a huge Zip64 count.
#[test]
fn zip64_entry_count_is_consulted_even_when_the_classic_count_is_small() {
    let mut data = Vec::new();

    let zip64_offset = data.len() as u64;
    let mut zip64 = Vec::from(b"PK\x06\x06".as_slice());
    zip64.extend_from_slice(&44u64.to_le_bytes()); // size of this record
    zip64.extend_from_slice(&45u16.to_le_bytes()); // version made by
    zip64.extend_from_slice(&45u16.to_le_bytes()); // version needed
    zip64.extend_from_slice(&0u32.to_le_bytes()); // this disk
    zip64.extend_from_slice(&0u32.to_le_bytes()); // disk with the CD start
    zip64.extend_from_slice(&1_000_000u64.to_le_bytes()); // entries on this disk
    zip64.extend_from_slice(&1_000_000u64.to_le_bytes()); // total entries
    zip64.extend_from_slice(&0u64.to_le_bytes()); // CD size
    zip64.extend_from_slice(&0u64.to_le_bytes()); // CD offset
    assert_eq!(zip64.len(), 56);
    data.extend_from_slice(&zip64);

    data.extend_from_slice(b"PK\x06\x07"); // Zip64 EOCD locator
    data.extend_from_slice(&0u32.to_le_bytes()); // disk with the Zip64 EOCD
    data.extend_from_slice(&zip64_offset.to_le_bytes());
    data.extend_from_slice(&1u32.to_le_bytes()); // total disks

    // The classic record declares a harmless five.
    data.extend_from_slice(&fake_eocd(5));

    let err = ZipExtractor::new(Bytes::from(data))
        .max_entries(10)
        .list_files()
        .expect_err("the Zip64 count must be enforced even though the classic one fits");

    assert!(
        err.to_string().contains("declares 1000000 entries"),
        "the Zip64 record should have been consulted unconditionally, got: {}",
        err.to_string()
    );
}

/// The entry limit is re-applied on every call, not frozen at the parse that
/// populated the index cache.
#[test]
fn a_tightened_entry_limit_applies_to_an_already_cached_index() {
    let mut builder = ZipBuilder::new();
    for i in 0..20 {
        builder = add(builder, &format!("f{i}.txt"), b"x".to_vec());
    }
    let archive = builder.build().unwrap();

    let mut extractor = ZipExtractor::new(archive.data);
    assert_eq!(
        extractor.list_files().unwrap().len(),
        20,
        "the default limit admits 20 entries and warms the index cache"
    );

    let err = extractor
        .max_entries(5)
        .list_files()
        .expect_err("the tightened limit must apply to the cached index too");

    assert!(
        err.to_string().contains("exceeding the limit of 5"),
        "unexpected error: {}",
        err.to_string()
    );
}

/// A NUL in a name, an absolute name, one with a drive in the middle and one that
/// climbs out are refused; the message quotes the name.
#[test]
fn unsafe_names_are_quoted_in_the_message() {
    for name in [
        "../up.txt",
        "a/../../up.txt",
        "..\\x",
        "nul\0name",
        "/etc/passwd",
        "\\windows",
        "//host/share/x",
        "\\\\?\\C:\\x",
        "c:/x",
        "C:\\x",
        "C:../x",
        "C:C:x",
        "a/C:b",
        "a\\z:",
    ] {
        let err = ZipExtractor::new(raw_zip(&[(name, b"x")])).extract_all().unwrap_err();
        assert_eq!(
            err.to_string(),
            format!(
                "Archive error: refusing to extract entry with unsafe path {name:?}: \
                 it escapes the extraction directory"
            )
        );
    }
}

/// A drive at the front of a name is passed over.
#[test]
fn a_drive_at_the_front_is_passed_over() {
    for (name, path) in [("C:x", "x"), ("c:a\\b", "a/b"), ("Z:./a/../b", "b"), ("C:12:30", "12:30")] {
        let mut extractor = ZipExtractor::new(raw_zip(&[(name, b"x")]));
        assert_eq!(extractor.list_files().unwrap(), vec![name.to_string()]);
        assert_eq!(&*extractor.extract_file(name).unwrap(), b"x");
        let all = extractor.extract_all().unwrap();
        assert_eq!(all.len(), 1);
        assert_eq!(all[0].path, path);
        assert_eq!(&*all[0].data, b"x");
    }
}

/// Backslashes separate the pieces of a name, too.
#[test]
fn backslashes_separate_components_too() {
    let archive = raw_zip(&[("a\\b.txt", b"x")]);
    let all = ZipExtractor::new(archive).extract_all().unwrap();
    assert_eq!(all[0].path, "a/b.txt");
    let archive = raw_zip(&[("a\\..\\..\\b.txt", b"x")]);
    assert!(ZipExtractor::new(archive).extract_all().is_err());
}

/// A member that is not readable is reported by its name.
#[test]
fn a_corrupt_member_is_reported() {
    let archive = add(
        ZipBuilder::new().compression(CompressionLevel::Stored),
        "a.txt",
        b"payload".to_vec(),
    )
    .build()
    .unwrap();
    let mut data = archive.to_vec();
    let at = data.windows(7).position(|w| w == b"payload").unwrap();
    data[at] = b'P';
    let err = ZipExtractor::new(Bytes::from(data)).extract_all().unwrap_err();
    assert_eq!(
        err.to_string(),
        "Archive error: Failed to read a.txt: Invalid checksum"
    );
}
