use zipsift::casefold::normalize_filter;
use zipsift::entry::{Decision, decide_entry};
use zipsift::text::{contains_str, strs_equal, strs_equal_ignore_ascii_case, suffix_after_last,
    trim_leading_dots};

#[test]
fn filter_normalization() {
    assert_eq!(normalize_filter("png"), "png");
    assert_eq!(normalize_filter(".png"), "png");
    assert_eq!(normalize_filter(".PNG"), "png");
    assert_eq!(normalize_filter("..TXT"), "txt");
    assert_eq!(normalize_filter(""), "");
}

#[test]
fn metadata_marker_skipped_anywhere_in_path() {
    assert!(matches!(
        decide_entry("__MACOSX/x.txt", true, "txt"),
        Decision::SkipMetadata
    ));
    assert!(matches!(
        decide_entry("img/__MACOSX/y.txt", true, "txt"),
        Decision::SkipMetadata
    ));
    assert!(matches!(
        decide_entry("a/__MACOSX", false, "txt"),
        Decision::SkipMetadata
    ));
}

#[test]
fn directory_entries_skipped() {
    assert!(matches!(
        decide_entry("folder.txt/", false, "txt"),
        Decision::SkipDirectory
    ));
    assert!(matches!(decide_entry("plain", false, "txt"), Decision::SkipDirectory));
}

#[test]
fn entries_without_extension_skipped() {
    assert!(matches!(decide_entry("README", true, "txt"), Decision::SkipNoExtension));
    assert!(matches!(
        decide_entry("dir.txt/leaf", true, "txt"),
        Decision::SkipNoExtension
    ));
}

#[test]
fn extension_must_match_exactly() {
    assert!(matches!(decide_entry("page.htm", true, "html"), Decision::SkipMismatch));
    assert!(matches!(decide_entry("page.html", true, "htm"), Decision::SkipMismatch));
    assert!(matches!(decide_entry("note.txt.bak", true, "txt"), Decision::SkipMismatch));
}

#[test]
fn matching_is_case_insensitive_on_the_entry_side() {
    match decide_entry("file.TXT", true, "txt") {
        Decision::Extract { basename } => assert_eq!(basename, "file.TXT"),
        _ => panic!("expected extraction"),
    }
}

#[test]
fn matching_is_case_insensitive_on_the_filter_side() {
    match decide_entry("file.txt", true, normalize_filter("TXT").as_str()) {
        Decision::Extract { basename } => assert_eq!(basename, "file.txt"),
        _ => panic!("expected extraction"),
    }
}

#[test]
fn basename_discards_archive_directories() {
    match decide_entry("deep/nested/path/file.txt", true, "txt") {
        Decision::Extract { basename } => assert_eq!(basename, "file.txt"),
        _ => panic!("expected extraction"),
    }
}

#[test]
fn unusable_basename_warns() {
    assert!(matches!(decide_entry("..", true, ""), Decision::SkipBadName));
    assert!(matches!(decide_entry("a/..", true, ""), Decision::SkipBadName));
}

#[test]
fn dot_trimming() {
    assert_eq!(trim_leading_dots("...a.b"), "a.b");
    assert_eq!(trim_leading_dots("ab"), "ab");
    assert_eq!(trim_leading_dots("..."), "");
}

#[test]
fn substring_search() {
    assert!(contains_str("img/__MACOSX/y.txt", "__MACOSX"));
    assert!(!contains_str("img/MACOSX/y.txt", "__MACOSX"));
    assert!(contains_str("anything", ""));
    assert!(!contains_str("ab", "abc"));
}

#[test]
fn suffixes_after_last_occurrence() {
    assert_eq!(suffix_after_last("a/b/c.txt", '/'), (true, "c.txt"));
    assert_eq!(suffix_after_last("c.txt", '/'), (false, "c.txt"));
    assert_eq!(suffix_after_last("archive.tar.gz", '.'), (true, "gz"));
    assert_eq!(suffix_after_last("trailing/", '/'), (true, ""));
}

#[test]
fn string_comparisons() {
    assert!(strs_equal("same", "same"));
    assert!(!strs_equal("same", "sane"));
    assert!(strs_equal_ignore_ascii_case("TxT", "txt"));
    assert!(strs_equal_ignore_ascii_case("ZIP", "zip"));
    assert!(!strs_equal_ignore_ascii_case("htm", "html"));
}
