use std::io::Write;

use zipsift::run::{run_directory, run_single};

/// Build an in-memory ZIP archive. An entry with contents becomes a file;
/// one without becomes a directory entry.
fn make_zip(entries: &[(&str, Option<&[u8]>)]) -> Vec<u8> {
    let mut writer = zip::ZipWriter::new(std::io::Cursor::new(Vec::new()));
    let options = zip::write::SimpleFileOptions::default()
        .compression_method(zip::CompressionMethod::Stored);
    for (name, data) in entries {
        match data {
            Some(bytes) => {
                writer.start_file(*name, options).unwrap();
                writer.write_all(bytes).unwrap();
            }
            None => {
                writer.add_directory(*name, options).unwrap();
            }
        }
    }
    writer.finish().unwrap().into_inner()
}

fn names_and_data(run_writes: &[zipsift::ExtractedFile]) -> Vec<(String, Vec<u8>)> {
    run_writes.iter().map(|w| (w.name.clone(), w.data.clone())).collect()
}

#[test]
fn matching_files_extracted_byte_for_byte() {
    let archive = make_zip(&[
        ("x.txt", Some(b"hello".as_slice())),
        ("notes.md", Some(b"notes".as_slice())),
        ("deep/path/z.TXT", Some(b"zed".as_slice())),
    ]);
    let result = run_single(&archive, "txt");
    assert!(result.error.is_none());
    assert!(result.warnings.is_empty());
    assert_eq!(
        names_and_data(&result.writes),
        vec![
            ("x.txt".to_string(), b"hello".to_vec()),
            ("z.TXT".to_string(), b"zed".to_vec()),
        ]
    );
}

#[test]
fn macosx_entries_never_written() {
    let archive = make_zip(&[
        ("__MACOSX/x.txt", Some(b"meta".as_slice())),
        ("img/__MACOSX/y.txt", Some(b"meta2".as_slice())),
        ("real.txt", Some(b"real".as_slice())),
    ]);
    let result = run_single(&archive, "txt");
    assert!(result.error.is_none());
    assert_eq!(
        names_and_data(&result.writes),
        vec![("real.txt".to_string(), b"real".to_vec())]
    );
}

#[test]
fn directory_entries_never_written() {
    let archive = make_zip(&[
        ("sub.txt/", None),
        ("plain/", None),
        ("kept.txt", Some(b"kept".as_slice())),
    ]);
    let result = run_single(&archive, "txt");
    assert!(result.error.is_none());
    assert_eq!(
        names_and_data(&result.writes),
        vec![("kept.txt".to_string(), b"kept".to_vec())]
    );
}

#[test]
fn filter_case_and_leading_dot_irrelevant() {
    let archive = make_zip(&[("file.txt", Some(b"data".as_slice()))]);
    let plain = run_single(&archive, "txt");
    let dotted = run_single(&archive, ".txt");
    let upper = run_single(&archive, "TXT");
    let dotted_upper = run_single(&archive, ".TXT");
    for result in [&plain, &dotted, &upper, &dotted_upper] {
        assert!(result.error.is_none());
        assert_eq!(
            names_and_data(&result.writes),
            vec![("file.txt".to_string(), b"data".to_vec())]
        );
    }
}

#[test]
fn exact_extension_match_only() {
    let archive = make_zip(&[
        ("page.htm", Some(b"one".as_slice())),
        ("page.html", Some(b"two".as_slice())),
    ]);
    let result = run_single(&archive, "htm");
    assert!(result.error.is_none());
    assert_eq!(
        names_and_data(&result.writes),
        vec![("page.htm".to_string(), b"one".to_vec())]
    );
}

#[test]
fn later_write_with_same_basename_wins() {
    let archive = make_zip(&[
        ("a/x.txt", Some(b"one".as_slice())),
        ("b/x.txt", Some(b"two".as_slice())),
    ]);
    let result = run_single(&archive, "txt");
    assert!(result.error.is_none());
    assert_eq!(
        names_and_data(&result.writes),
        vec![
            ("x.txt".to_string(), b"one".to_vec()),
            ("x.txt".to_string(), b"two".to_vec()),
        ]
    );
    // Writes made in order into a flat directory: the last one is on disk.
    let mut disk = std::collections::HashMap::new();
    for w in &result.writes {
        disk.insert(w.name.clone(), w.data.clone());
    }
    assert_eq!(disk.len(), 1);
    assert_eq!(disk["x.txt"], b"two".to_vec());
}

#[test]
fn directory_of_archives_in_order() {
    let a = make_zip(&[
        ("x.txt", Some(b"alpha".as_slice())),
        ("img/__MACOSX/y.txt", Some(b"meta".as_slice())),
        ("notes.md", Some(b"notes".as_slice())),
    ]);
    let b = make_zip(&[("x.txt", Some(b"beta".as_slice()))]);
    let (writes, runs) = run_directory(&vec![a, b], "txt");
    assert_eq!(runs.len(), 2);
    assert!(runs.iter().all(|r| r.failure.is_none()));
    assert_eq!(runs[0].written, 1);
    assert_eq!(runs[1].written, 1);
    assert_eq!(
        names_and_data(&writes),
        vec![
            ("x.txt".to_string(), b"alpha".to_vec()),
            ("x.txt".to_string(), b"beta".to_vec()),
        ]
    );
    let mut disk = std::collections::HashMap::new();
    for w in &writes {
        disk.insert(w.name.clone(), w.data.clone());
    }
    assert_eq!(disk.len(), 1);
    assert_eq!(disk["x.txt"], b"beta".to_vec());
}

#[test]
fn invalid_archive_is_fatal_alone() {
    let garbage = b"this is not a zip archive".to_vec();
    let result = run_single(&garbage, "txt");
    assert!(result.error.is_some());
    assert!(result.writes.is_empty());
    assert!(result.warnings.is_empty());
    assert!(matches!(
        result.error,
        Some(zipsift::errors::ExtractError::ArchiveFailed(_))
    ));
}

#[test]
fn invalid_archive_is_isolated_in_directory_mode() {
    let garbage = b"still not a zip archive".to_vec();
    let good = make_zip(&[("kept.txt", Some(b"kept".as_slice()))]);
    let (writes, runs) = run_directory(&vec![garbage, good], "txt");
    assert_eq!(runs.len(), 2);
    assert!(runs[0].failure.is_some());
    assert_eq!(runs[0].written, 0);
    assert!(runs[1].failure.is_none());
    assert_eq!(runs[1].written, 1);
    assert_eq!(
        names_and_data(&writes),
        vec![("kept.txt".to_string(), b"kept".to_vec())]
    );
}

#[test]
fn empty_archive_extracts_nothing() {
    let archive = make_zip(&[]);
    let result = run_single(&archive, "txt");
    assert!(result.error.is_none());
    assert!(result.writes.is_empty());
    assert!(result.warnings.is_empty());
}

#[test]
fn empty_file_contents_preserved() {
    let archive = make_zip(&[("empty.txt", Some(b"".as_slice()))]);
    let result = run_single(&archive, "txt");
    assert!(result.error.is_none());
    assert_eq!(
        names_and_data(&result.writes),
        vec![("empty.txt".to_string(), Vec::new())]
    );
}
