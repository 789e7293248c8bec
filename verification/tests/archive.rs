use armature_files::archive::builder::archive_path;
use armature_files::archive::promotion::{Outcome, Promotion, Step};
use armature_files::archive::{
    peek_entry_count, ArchiveEntry, CompressionLevel, DirectoryWalk, Found, WalkStep, ZipBuilder,
    ZipExtractor,
};
use bytes::Bytes;

fn bytes(s: &str) -> Bytes {
    Bytes::from(s.as_bytes().to_vec())
}

fn add(builder: ZipBuilder, path: &str, data: &str) -> ZipBuilder {
    builder.add_file(path.to_string(), bytes(data))
}

#[test]
fn test_zip_builder_creation() {
    let builder = ZipBuilder::new()
        .compression(CompressionLevel::Best)
        .comment("Test archive".to_string());

    assert_eq!(builder.compression_level(), CompressionLevel::Best);
    assert_eq!(builder.comment_set(), Some("Test archive".to_string()));
}

#[test]
fn test_zip_roundtrip() {
    let builder = add(ZipBuilder::new(), "test.txt", "Hello, World!");
    let archive = add(builder, "data/nested.txt", "Nested content")
        .build()
        .unwrap();

    let mut extractor = ZipExtractor::new(archive.data);
    let files = extractor.list_files().unwrap();

    assert!(files.contains(&"test.txt".to_string()));
    assert!(files.contains(&"data/nested.txt".to_string()));

    let content = extractor.extract_file("test.txt").unwrap();
    assert_eq!(&*content, b"Hello, World!");
}

/// The pre-parse guard reads a plain archive's count.
#[test]
fn peek_entry_count_reads_a_plain_archive() {
    let builder = add(ZipBuilder::new(), "a.txt", "x");
    let archive = add(builder, "b.txt", "y").build().unwrap();

    assert_eq!(peek_entry_count(&archive.data), Some(2));
}

#[test]
fn peek_entry_count_finds_nothing_in_other_bytes() {
    assert_eq!(peek_entry_count(b""), None);
    assert_eq!(peek_entry_count(b"PK\x05\x06"), None);
    // The comment length does not account for the byte that follows.
    let mut record = vec![0x50, 0x4B, 5, 6];
    record.extend_from_slice(&[0; 18]);
    assert_eq!(peek_entry_count(&record), Some(0));
    record.push(0);
    assert_eq!(peek_entry_count(&record), None);
}

fn promote(entries: &[&[&str]]) -> Result<Promotion, String> {
    let entries = entries
        .iter()
        .map(|parts| parts.iter().map(|s| s.to_string()).collect())
        .collect();
    Promotion::new("/root/out", entries).map_err(|e| e.to_string())
}

/// Two entries that cannot coexist on a filesystem — `a` as a regular file and
/// `a/b` beneath it — are rejected before anything is moved into the
/// extraction root.
#[test]
fn promotion_rejects_an_entry_that_is_a_prefix_of_another() {
    let err = promote(&[&["a"], &["a", "b"]])
        .err()
        .expect("`a` and `a/b` cannot both be extracted");
    assert!(err.contains("is also a file entry"), "unexpected error: {err}");
    assert_eq!(
        err,
        "Archive error: refusing to extract entry a/b: a is also a file entry in the archive"
    );
}

/// A duplicated entry path would have the second rename silently replace the
/// first.
#[test]
fn promotion_rejects_duplicate_entry_paths() {
    let err = promote(&[&["a"], &["a"]])
        .err()
        .expect("a duplicated destination must not be promoted twice");
    assert!(err.contains("more than once"), "unexpected error: {err}");
}

fn parts(path: &str) -> Vec<String> {
    path.split('/').map(|s| s.to_string()).collect()
}

#[test]
fn promotion_places_every_entry() {
    let mut p = promote(&[&["x.txt"], &["sub", "deep", "y.txt"]]).ok().unwrap();
    let mut seen = Vec::new();
    loop {
        let step = p.step();
        match &step {
            Step::Finished => break,
            Step::CreateDir(d) => seen.push(format!("mkdir {}", d.join("/"))),
            Step::CheckParent(d) => seen.push(format!("check {}", d.join("/"))),
            Step::Reserve(f) => seen.push(format!("claim {}", f.join("/"))),
            Step::Move(f) => seen.push(format!("move {}", f.join("/"))),
            Step::RemoveFile(_) | Step::RemoveDir(_) => panic!("nothing failed"),
        }
        p.advance(Outcome::Done);
    }
    assert_eq!(
        seen,
        vec![
            "check ",
            "claim x.txt",
            "mkdir sub",
            "mkdir sub/deep",
            "check sub/deep",
            "claim sub/deep/y.txt",
            "move x.txt",
            "move sub/deep/y.txt",
        ]
    );
    assert!(p.into_result().is_ok());
}

/// A failure partway through takes back what was created, the last thing
/// first, and nothing else.
#[test]
fn promotion_rolls_back_what_it_created() {
    let mut p = promote(&[&["x.txt"], &["old", "new", "y.txt"]]).ok().unwrap();
    assert!(matches!(p.step(), Step::CheckParent(_)));
    p.advance(Outcome::Done);
    assert!(matches!(p.step(), Step::Reserve(_)));
    p.advance(Outcome::Done);
    // `old` is there already, so it is not ours to remove.
    assert!(matches!(p.step(), Step::CreateDir(d) if d == parts("old")));
    p.advance(Outcome::Exists);
    assert!(matches!(p.step(), Step::CreateDir(d) if d == parts("old/new")));
    p.advance(Outcome::Done);
    p.advance(Outcome::Done);
    assert!(matches!(p.step(), Step::Reserve(_)));
    p.advance(Outcome::Exists);

    assert!(matches!(p.step(), Step::RemoveFile(f) if f == parts("x.txt")));
    p.advance(Outcome::Done);
    assert!(matches!(p.step(), Step::RemoveDir(d) if d == parts("old/new")));
    p.advance(Outcome::Done);
    assert!(matches!(p.step(), Step::Finished));
    let err = p.into_result().unwrap_err();
    assert_eq!(
        err.to_string(),
        "Archive error: refusing to overwrite the existing path /root/out/old/new/y.txt \
         with archive entry old/new/y.txt"
    );
}

#[test]
fn promotion_reports_each_kind_of_failure() {
    let mut p = promote(&[&["x"]]).ok().unwrap();
    p.advance(Outcome::Outside);
    assert_eq!(
        p.into_result().unwrap_err().to_string(),
        "Archive error: refusing to write /root/out/x outside the extraction directory"
    );

    let mut p = promote(&[&["x"]]).ok().unwrap();
    p.advance(Outcome::Failed(std::io::Error::new(std::io::ErrorKind::Other, "no")));
    assert_eq!(p.into_result().unwrap_err().to_string(), "IO error: no");

    let mut p = promote(&[&["x"]]).ok().unwrap();
    p.advance(Outcome::Done);
    p.advance(Outcome::Done);
    p.advance(Outcome::Unmoved("disk full".to_string()));
    assert!(matches!(p.step(), Step::RemoveFile(_)));
    p.advance(Outcome::Done);
    assert_eq!(
        p.into_result().unwrap_err().to_string(),
        "Archive error: failed to move archive entry x into place: disk full"
    );
}

#[test]
fn separators_are_normalized_and_metadata_is_filled_in() {
    let archive = add(ZipBuilder::default(), "dir\\file.txt", "abc").build().unwrap();
    assert_eq!(archive.operations, vec!["zip:create(1 files)".to_string()]);
    assert_eq!(archive.metadata.filename, "archive.zip");
    assert_eq!(archive.metadata.mime_type, "application/zip");
    assert_eq!(archive.metadata.extension, Some("zip".to_string()));
    assert_eq!(archive.metadata.size, archive.data.len() as u64);
    assert_eq!(archive.to_vec(), archive.bytes().to_vec());
    let mut extractor = ZipExtractor::new(archive.data);
    assert_eq!(extractor.list_files().unwrap(), vec!["dir/file.txt".to_string()]);
}

#[test]
fn repeated_paths_are_refused() {
    let builder = add(ZipBuilder::new(), "a/b", "1");
    let err = add(builder, "a\\b", "2").build().unwrap_err();
    assert_eq!(
        err.to_string(),
        "Archive error: Failed to add file a/b: invalid Zip archive: Duplicate filename: a/b"
    );
}

#[test]
fn a_comment_that_does_not_fit_is_refused() {
    let err = ZipBuilder::new().comment("x".repeat(65540)).build().unwrap_err();
    assert_eq!(
        err.to_string(),
        "Archive error: Failed to set comment: i/o error: \
         Unexpected data comment - 5 bytes too long"
    );
    assert!(ZipBuilder::new().comment("x".repeat(65535)).build().is_ok());
}

#[test]
fn names_that_do_not_fit_are_refused() {
    let long = "n".repeat(65536);
    let err = add(ZipBuilder::new(), &long, "1").build().unwrap_err();
    assert!(err.to_string().starts_with("Archive error: Failed to add file n"));
    assert!(err.to_string().contains("n: i/o error: "));
    // A name that is repeated is refused for that, however long it is.
    let builder = add(ZipBuilder::new(), "a", "1");
    let builder = add(add(builder, "a", "2"), &long, "3");
    assert!(builder.build().unwrap_err().to_string().ends_with("Duplicate filename: a"));
    assert!(add(ZipBuilder::new(), &"n".repeat(65535), "1").build().is_ok());
}

#[test]
fn every_level_round_trips() {
    let levels = [
        CompressionLevel::Stored,
        CompressionLevel::Fast,
        CompressionLevel::Default,
        CompressionLevel::Best,
    ];
    let text = "the quick brown fox ".repeat(500);
    let mut sizes = Vec::new();
    for level in levels {
        let builder = ZipBuilder::new().compression(level).add_files(vec![
            ArchiveEntry::new("one.txt".to_string(), bytes(&text)),
            ArchiveEntry::new("ünïcode/two.txt".to_string(), bytes("")),
        ]);
        let archive = builder.build().unwrap();
        sizes.push(archive.data.len());
        let mut extractor = ZipExtractor::new(archive.data);
        let all = extractor.extract_all().unwrap();
        assert_eq!(all.len(), 2);
        assert_eq!(all[0].path, "one.txt");
        assert_eq!(&*all[0].data, text.as_bytes());
        assert_eq!(all[1].path, "ünïcode/two.txt");
        assert_eq!(&*all[1].data, b"");
        assert_eq!(&*extractor.extract_file("ünïcode/two.txt").unwrap(), b"");
    }
    // Stored is the largest by far.
    assert!(sizes[0] > 10_000);
    assert!(sizes[1] < 1_000 && sizes[2] < 1_000 && sizes[3] < 1_000);
    assert_eq!(CompressionLevel::default(), CompressionLevel::Default);
}

#[test]
fn a_missing_file_is_named() {
    let archive = add(ZipBuilder::new(), "a.txt", "1").build().unwrap();
    let mut extractor = ZipExtractor::new(archive.data);
    let err = extractor.extract_file("b.txt").unwrap_err();
    assert_eq!(
        err.to_string(),
        "Archive error: File not found: b.txt: specified file not found in archive"
    );
}

#[test]
fn bytes_that_are_no_archive_are_refused() {
    let err = ZipExtractor::new(bytes("not a zip at all")).list_files().unwrap_err();
    assert!(
        err.to_string().starts_with("Archive error: Failed to open archive: invalid Zip archive"),
        "{}",
        err.to_string()
    );
}

#[test]
fn a_member_larger_than_the_budget_is_refused_by_name() {
    let archive = add(ZipBuilder::new(), "a.txt", "12345").build().unwrap();
    let mut small = ZipExtractor::new(archive.data.clone()).max_uncompressed_size(4);
    assert_eq!(
        small.extract_file("a.txt").unwrap_err().to_string(),
        "Archive error: entry a.txt declares 5 uncompressed bytes, \
         exceeding the remaining 4 byte budget"
    );
    let mut exact = ZipExtractor::new(archive.data).max_uncompressed_size(5);
    assert_eq!(&*exact.extract_file("a.txt").unwrap(), b"12345");
}

/// Extraction that hands out members one by one sees what extraction into
/// memory sees.
#[test]
fn stepwise_extraction_matches_extraction_into_memory() {
    let mut builder = ZipBuilder::new();
    for path in ["one.txt", "dir/", "dir/./two.txt", "a/../three.txt"] {
        builder = add(builder, path, path);
    }
    let archive = builder.build().unwrap();

    let mut extractor = ZipExtractor::new(archive.data.clone());
    let all = extractor.extract_all().unwrap();
    assert_eq!(
        all.iter().map(|e| e.path.as_str()).collect::<Vec<_>>(),
        vec!["one.txt", "dir/two.txt", "three.txt"]
    );

    let mut stepwise = ZipExtractor::new(archive.data);
    let mut run = stepwise.begin().unwrap();
    let mut seen = Vec::new();
    while let Some(path) = stepwise.next_target(&mut run).unwrap() {
        let data = stepwise.target_data(&mut run).unwrap();
        seen.push((path.join("/"), data));
    }
    assert_eq!(seen.len(), all.len());
    for (a, b) in seen.iter().zip(&all) {
        assert_eq!(a.0, b.path);
        assert_eq!(a.1, b.data.to_vec());
    }
}

#[test]
fn directory_files_are_put_behind_the_prefix() {
    assert_eq!(archive_path("", "a/b.txt"), "a/b.txt");
    assert_eq!(archive_path("pre", "a/b.txt"), "pre/a/b.txt");
}

#[test]
fn promotion_names_the_ancestor_that_is_in_the_way() {
    let err = promote(&[&["x"], &["a", "b", "c", "d"], &["a", "b"]]).err().unwrap();
    assert_eq!(
        err,
        "Archive error: refusing to extract entry a/b/c/d: \
         a/b is also a file entry in the archive"
    );
    assert!(promote(&[&["a", "b"], &["a", "c"], &["ab"]]).is_ok());
}

#[test]
fn an_empty_promotion_has_nothing_to_do() {
    let p = promote(&[]).ok().unwrap();
    assert!(matches!(p.step(), Step::Finished));
    assert!(p.into_result().is_ok());
}

/// Whatever step fails, the tree ends up as it was.
#[test]
fn a_failure_at_any_step_leaves_nothing_behind() {
    let entries: &[&[&str]] = &[&["x.txt"], &["new", "y.txt"], &["new", "deep", "z.txt"]];
    let mut fail_at = 0;
    loop {
        let mut tree: Vec<String> = vec!["kept".to_string()];
        let mut p = promote(entries).ok().unwrap();
        let mut steps = 0;
        let mut failed = false;
        loop {
            let fails = steps == fail_at && !failed;
            let outcome = match p.step() {
                Step::Finished => break,
                Step::Move(_) if fails => Outcome::Unmoved("no".to_string()),
                _ if fails => {
                    Outcome::Failed(std::io::Error::new(std::io::ErrorKind::Other, "no"))
                }
                Step::CreateDir(d) if tree.contains(&d.join("/")) => Outcome::Exists,
                Step::CreateDir(d) => {
                    tree.push(d.join("/"));
                    Outcome::Done
                }
                Step::Reserve(f) => {
                    tree.push(f.join("/"));
                    Outcome::Done
                }
                Step::RemoveFile(f) => {
                    assert!(tree.contains(&f.join("/")));
                    tree.retain(|p| *p != f.join("/"));
                    Outcome::Done
                }
                Step::RemoveDir(d) => {
                    assert!(tree.contains(&d.join("/")));
                    tree.retain(|p| *p != d.join("/"));
                    Outcome::Done
                }
                _ => Outcome::Done,
            };
            failed = failed || fails;
            p.advance(outcome);
            steps += 1;
        }
        if !failed {
            assert!(p.into_result().is_ok());
            assert_eq!(tree.len(), 1 + 3 + 2);
            break;
        }
        assert!(p.into_result().is_err());
        assert_eq!(tree, vec!["kept".to_string()], "after a failure at step {fail_at}");
        fail_at += 1;
    }
    assert!(fail_at > 10);
}

/// An index that is at hand changes no answer.
#[test]
fn asking_twice_gives_the_same_answer() {
    let archive = add(ZipBuilder::new(), "a.txt", "1").build().unwrap();
    let mut extractor = ZipExtractor::new(archive.data);
    assert_eq!(extractor.list_files().unwrap(), extractor.list_files().unwrap());
    assert_eq!(&*extractor.extract_file("a.txt").unwrap(), b"1");
    assert_eq!(&*extractor.extract_file("a.txt").unwrap(), b"1");
    assert_eq!(extractor.extract_all().unwrap().len(), 1);
    // The container was checked when it was opened.
    let mut extractor = extractor.max_archive_bytes(1);
    assert_eq!(extractor.list_files().unwrap().len(), 1);
}

#[test]
fn an_ordinary_comment_changes_nothing() {
    let archive = add(ZipBuilder::new(), "a.txt", "1")
        .comment("made by hand".to_string())
        .build()
        .unwrap();
    assert_eq!(peek_entry_count(&archive.data), Some(1));
    let mut extractor = ZipExtractor::new(archive.data);
    assert_eq!(&*extractor.extract_file("a.txt").unwrap(), b"1");
}

/// More members than the classic end record can count need a Zip64 record, and
/// come back all the same.
#[test]
fn an_archive_of_many_members_round_trips() {
    let entries: Vec<ArchiveEntry> = (0..65_540)
        .map(|i| ArchiveEntry::new(format!("f{i}"), Bytes::from_static(b"x")))
        .collect();
    let archive = ZipBuilder::new()
        .compression(CompressionLevel::Stored)
        .add_files(entries)
        .build()
        .unwrap();
    assert_eq!(peek_entry_count(&archive.data), Some(65_540));

    let err = ZipExtractor::new(archive.data.clone()).max_entries(65_539).list_files().unwrap_err();
    assert_eq!(
        err.to_string(),
        "Archive error: archive declares 65540 entries, exceeding the limit of 65539"
    );

    let mut extractor = ZipExtractor::new(archive.data).max_entries(65_540);
    let all = extractor.extract_all().unwrap();
    assert_eq!(all.len(), 65_540);
    assert!(all.iter().enumerate().all(|(i, e)| e.path == format!("f{i}") && &*e.data == b"x"));
    assert_eq!(&*extractor.extract_file("f65539").unwrap(), b"x");
}

/// As many members as the classic end record can just count.
#[test]
fn an_archive_of_as_many_members_as_can_be_counted_round_trips() {
    let entries: Vec<ArchiveEntry> = (0..65_535)
        .map(|i| ArchiveEntry::new(format!("f{i}"), Bytes::new()))
        .collect();
    let archive = ZipBuilder::new().add_files(entries).build().unwrap();
    assert_eq!(peek_entry_count(&archive.data), Some(65_535));
    let mut extractor = ZipExtractor::new(archive.data).max_entries(65_535);
    assert_eq!(extractor.list_files().unwrap().len(), 65_535);
    assert_eq!(extractor.extract_all().unwrap()[65_534].path, "f65534");
}

/// A colon that does not follow a single letter is part of a name.
#[test]
fn colons_in_names_come_back() {
    let mut builder = ZipBuilder::new();
    for path in ["12:30.txt", "notes/at 12:30", "ab:c", ":x", "\u{e9}:y"] {
        builder = add(builder, path, path);
    }
    let archive = builder.build().unwrap();
    let all = ZipExtractor::new(archive.data).extract_all().unwrap();
    assert_eq!(
        all.iter().map(|e| e.path.as_str()).collect::<Vec<_>>(),
        vec!["12:30.txt", "notes/at 12:30", "ab:c", ":x", "\u{e9}:y"]
    );
    assert_eq!(&*all[1].data, b"notes/at 12:30");
}

/// The index is built once, and only within the limits.
#[test]
fn the_index_is_built_within_the_limits() {
    let archive = add(add(ZipBuilder::new(), "a", "1"), "b", "2").build().unwrap();
    let mut extractor = ZipExtractor::new(archive.data);
    assert!(extractor.with_cached_archive().is_ok());
    let mut extractor = extractor.max_entries(1);
    assert_eq!(
        extractor.with_cached_archive().unwrap_err().to_string(),
        "Archive error: archive contains 2 entries, exceeding the limit of 1"
    );
    assert!(extractor.max_entries(2).with_cached_archive().is_ok());
}

fn listing(names: &[(&str, Found)]) -> Vec<(String, Found)> {
    names.iter().map(|(name, kind)| (name.to_string(), *kind)).collect()
}

/// Every directory is listed once, and every file ends up behind what was there,
/// under its path behind the prefix.
#[test]
fn a_directory_tree_is_added_to_an_archive() {
    let builder = add(ZipBuilder::new(), "first.txt", "0")
        .compression(CompressionLevel::Best)
        .comment("kept".to_string());
    let mut walk = DirectoryWalk::new(builder, "pre");
    let mut listed = Vec::new();
    loop {
        match walk.step() {
            WalkStep::Finished => break,
            WalkStep::List(dir) => {
                let found = match dir.join("/").as_str() {
                    "" => listing(&[
                        ("a", Found::File),
                        ("sub", Found::Directory),
                        ("link", Found::Other),
                        ("empty", Found::Directory),
                        ("b", Found::File),
                    ]),
                    "sub" => listing(&[("c", Found::File), ("deep", Found::Directory)]),
                    "sub/deep" => listing(&[("d", Found::File)]),
                    "empty" => Vec::new(),
                    other => panic!("there is no directory {other}"),
                };
                listed.push(dir.join("/"));
                walk.listed(found);
            }
            WalkStep::Read(file) => walk.read(bytes(&file.join("/"))),
        }
    }
    assert_eq!(listed, vec!["", "empty", "sub", "sub/deep"]);
    let builder = walk.finish();
    assert_eq!(builder.compression_level(), CompressionLevel::Best);
    assert_eq!(builder.comment_set(), Some("kept".to_string()));
    let archive = builder.build().unwrap();
    let all = ZipExtractor::new(archive.data).extract_all().unwrap();
    let seen: Vec<(String, Vec<u8>)> =
        all.into_iter().map(|e| (e.path, e.data.to_vec())).collect();
    assert_eq!(
        seen,
        vec![
            ("first.txt".to_string(), b"0".to_vec()),
            ("pre/a".to_string(), b"a".to_vec()),
            ("pre/b".to_string(), b"b".to_vec()),
            ("pre/sub/c".to_string(), b"sub/c".to_vec()),
            ("pre/sub/deep/d".to_string(), b"sub/deep/d".to_vec()),
        ]
    );
}

/// The error of the step that failed comes out, and not that of a step that was
/// to take something back.
#[test]
fn the_first_error_of_a_promotion_is_kept() {
    let mut p = promote(&[&["d", "x"]]).ok().unwrap();
    assert!(matches!(p.step(), Step::CreateDir(_)));
    p.advance(Outcome::Done);
    assert!(matches!(p.step(), Step::CheckParent(_)));
    p.advance(Outcome::Failed(std::io::Error::new(std::io::ErrorKind::Other, "first")));
    assert!(matches!(p.step(), Step::RemoveDir(_)));
    p.advance(Outcome::Failed(std::io::Error::new(std::io::ErrorKind::Other, "second")));
    assert!(matches!(p.step(), Step::Finished));
    assert_eq!(p.into_result().unwrap_err().to_string(), "IO error: first");
}

/// What is read of each member is what stands at its path in the end, and what
/// was there before stays as it was.
#[test]
fn extracted_files_hold_what_was_read() {
    let mut builder = ZipBuilder::new();
    for (path, data) in [("a.txt", "first"), ("sub/b.txt", "second"), ("sub/c.txt", "")] {
        builder = add(builder, path, data);
    }
    let archive = builder.build().unwrap();
    let mut extractor = ZipExtractor::new(archive.data);
    let mut run = extractor.begin().unwrap();
    let mut staged: Vec<(Vec<String>, Vec<u8>)> = Vec::new();
    while let Some(path) = extractor.next_target(&mut run).unwrap() {
        let data = extractor.target_data(&mut run).unwrap();
        staged.push((path, data));
    }
    let entries = run.staged_paths();
    assert_eq!(entries, staged.iter().map(|f| f.0.clone()).collect::<Vec<_>>());

    let mut tree: Vec<(Vec<String>, Vec<u8>)> = vec![(parts("old.txt"), b"old".to_vec())];
    let mut p = Promotion::new("/out", entries).ok().unwrap();
    loop {
        match p.step() {
            Step::Finished => break,
            Step::Reserve(file) => tree.push((file, Vec::new())),
            Step::Move(file) => {
                let data = staged.iter().find(|f| f.0 == file).unwrap().1.clone();
                tree.iter_mut().find(|f| f.0 == file).unwrap().1 = data;
            }
            Step::CreateDir(_) | Step::CheckParent(_) => {}
            Step::RemoveFile(_) | Step::RemoveDir(_) => panic!("nothing failed"),
        }
        p.advance(Outcome::Done);
    }
    assert!(p.into_result().is_ok());
    assert_eq!(
        tree,
        vec![
            (parts("old.txt"), b"old".to_vec()),
            (parts("a.txt"), b"first".to_vec()),
            (parts("sub/b.txt"), b"second".to_vec()),
            (parts("sub/c.txt"), Vec::new()),
        ]
    );
}
