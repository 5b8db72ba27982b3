use zipsift::errors::ExtractError;
use zipsift::resolve::{DirEntry, InputStatus, is_zip_path_str, resolve_input, select_zip_paths};

fn entry(path: &str, is_regular_file: bool) -> DirEntry {
    DirEntry { path: path.to_string(), is_regular_file }
}

#[test]
fn zip_paths_recognized_case_insensitively() {
    assert!(is_zip_path_str("a.zip"));
    assert!(is_zip_path_str("A.ZIP"));
    assert!(is_zip_path_str("dir/archive.Zip"));
    assert!(!is_zip_path_str("a.zipx"));
    assert!(!is_zip_path_str("zip"));
    assert!(!is_zip_path_str("dir.zip/leaf"));
}

#[test]
fn directory_listing_filtered_to_zip_files() {
    let listing = vec![
        entry("in/a.zip", true),
        entry("in/b.ZIP", true),
        entry("in/c.txt", true),
        entry("in/d.zip", false),
        entry("in/noext", true),
    ];
    let picked = select_zip_paths(&listing);
    assert_eq!(picked, vec!["in/a.zip".to_string(), "in/b.ZIP".to_string()]);
}

#[test]
fn directory_input_resolves_to_its_zip_files() {
    let listing = vec![entry("in/a.zip", true), entry("in/readme.md", true)];
    let resolved = resolve_input(InputStatus::Directory, "in", &listing).unwrap();
    assert_eq!(resolved, vec!["in/a.zip".to_string()]);
}

#[test]
fn file_input_resolves_to_itself_whatever_its_extension() {
    let resolved = resolve_input(InputStatus::RegularFile, "data.bin", &Vec::new()).unwrap();
    assert_eq!(resolved, vec!["data.bin".to_string()]);
}

#[test]
fn absent_input_is_a_path_error() {
    let resolved = resolve_input(InputStatus::Absent, "missing", &Vec::new());
    assert!(matches!(resolved, Err(ExtractError::PathInvalid)));
}
