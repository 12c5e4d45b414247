use crc32tool::inputs::{
    choose_mode, classify_input, extension_selected, has_pattern_chars, is_csv_extension,
    require_files, CollectError, InputAction, Mode,
};

#[test]
fn modes_by_precedence() {
    assert!(choose_mode(true, true, true) == Mode::Benchmark);
    assert!(choose_mode(false, true, true) == Mode::Verify);
    assert!(choose_mode(false, false, true) == Mode::Export);
    assert!(choose_mode(false, false, false) == Mode::Hash);
}

#[test]
fn path_arguments() {
    assert!(classify_input("dir", true, false, true) == InputAction::WalkDirectory);
    assert!(classify_input("dir", true, false, false) == InputAction::DirectoryNeedsRecursive);
    assert!(classify_input("*.zip", false, false, false) == InputAction::ExpandPattern);
    assert!(classify_input("file?.iso", false, true, false) == InputAction::ExpandPattern);
    assert!(classify_input("[ab].txt", false, false, true) == InputAction::ExpandPattern);
    assert!(classify_input("file.iso", false, true, false) == InputAction::AddFile);
    assert!(classify_input("missing.iso", false, false, false) == InputAction::NotAFile);
    assert!(has_pattern_chars("a*"));
    assert!(!has_pattern_chars("plain/path.txt"));
}

#[test]
fn extension_filters() {
    let none: Vec<String> = Vec::new();
    assert!(extension_selected(&none, None));
    assert!(extension_selected(&none, Some("iso")));
    let filters = vec!["zip".to_string(), "ISO".to_string()];
    assert!(extension_selected(&filters, Some("iso")));
    assert!(extension_selected(&filters, Some("ZIP")));
    assert!(!extension_selected(&filters, Some("tar")));
    assert!(!extension_selected(&filters, None));
    assert!(!extension_selected(&filters, Some("zipx")));
}

#[test]
fn csv_report_extension() {
    assert!(is_csv_extension(Some("csv")));
    assert!(is_csv_extension(Some("CSV")));
    assert!(!is_csv_extension(Some("txt")));
    assert!(!is_csv_extension(Some("csvx")));
    assert!(!is_csv_extension(None));
}

#[test]
fn no_files_is_an_error() {
    assert!(matches!(require_files(0), Err(CollectError::NoFilesFound)));
    assert!(matches!(require_files(3), Ok(3)));
}
