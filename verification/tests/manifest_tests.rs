use crc32tool::export::{csv_header, export_line, export_record, Status};
use crc32tool::manifest::{parse_manifest_line, read_manifest, ManifestError, ManifestLine};

fn entry(line: &str, index: usize, csv: bool) -> (String, String) {
    match parse_manifest_line(line, index, csv) {
        Ok(ManifestLine::Entry(e)) => (e.expected, e.path),
        _ => panic!("expected an entry for {:?}", line),
    }
}

fn is_skip(line: &str, index: usize, csv: bool) -> bool {
    matches!(parse_manifest_line(line, index, csv), Ok(ManifestLine::Skip))
}

#[test]
fn plain_manifest_lines() {
    assert_eq!(entry("CBF43926 /data/file.iso", 0, false), ("CBF43926".to_string(), "/data/file.iso".to_string()));
    assert_eq!(
        entry("  cbf43926\t\tfile extra words  ", 3, false),
        ("cbf43926".to_string(), "file extra words".to_string())
    );
    assert_eq!(
        entry("CBF43926 /d/my file.bin", 0, false),
        ("CBF43926".to_string(), "/d/my file.bin".to_string())
    );
    assert_eq!(
        entry("CBF43926 C:\\Program Files\\app.exe\r", 0, false),
        ("CBF43926".to_string(), "C:\\Program Files\\app.exe".to_string())
    );
    assert!(is_skip("", 0, false));
    assert!(is_skip("   \t ", 5, false));
}

#[test]
fn plain_manifest_missing_path_is_an_error() {
    match parse_manifest_line("  CBF43926  ", 6, false) {
        Err(ManifestError::MissingPath { line_number }) => assert_eq!(line_number, 7),
        _ => panic!("expected a missing path"),
    }
}

#[test]
fn csv_manifest_lines() {
    assert!(is_skip("\"file_path\",\"source_crc\",\"computed_crc\",\"status\"", 0, true));
    // The header is only skipped on the first line.
    assert_eq!(
        entry("\"file_path\",\"source_crc\",\"computed_crc\",\"status\"", 1, true),
        ("source_crc".to_string(), "file_path".to_string())
    );
    assert_eq!(
        entry("\"/a/b.iso\",\"CBF43926\",\"CBF43926\",\"OK\"", 1, true),
        ("CBF43926".to_string(), "/a/b.iso".to_string())
    );
    assert_eq!(entry("x.bin,1234ABCD,,", 2, true), ("1234ABCD".to_string(), "x.bin".to_string()));
    assert_eq!(entry("\"\"q\"\",a,b,c,d,e", 2, true), ("a".to_string(), "q".to_string()));
}

#[test]
fn short_csv_rows_are_reported() {
    match parse_manifest_line("  \"a\",\"b\",\"c\"  ", 4, true) {
        Ok(ManifestLine::ShortCsvRow { line_number, text }) => {
            assert_eq!(line_number, 5);
            assert_eq!(text, "\"a\",\"b\",\"c\"");
        }
        _ => panic!("expected a short row"),
    }
}

#[test]
fn exported_csv_reads_back() {
    let header = csv_header();
    assert!(is_skip(header, 0, true));
    let r = export_record(
        "/data/disk image.iso".to_string(),
        Some("CBF43926".to_string()),
        Some("CBF43926".to_string()),
    );
    assert_eq!(r.status, Status::Match);
    let line = export_line(&r, true);
    assert_eq!(line, "\"/data/disk image.iso\",\"CBF43926\",\"CBF43926\",\"OK\"");
    assert_eq!(entry(&line, 1, true), ("CBF43926".to_string(), "/data/disk image.iso".to_string()));
}

#[test]
fn read_manifest_gathers_entries() {
    let lines = vec![
        "CBF43926 /d/my file.bin".to_string(),
        "".to_string(),
        "0000ABCD  other".to_string(),
    ];
    let r = read_manifest(&lines, false);
    assert!(r.failure.is_none());
    assert!(r.short_rows.is_empty());
    let got: Vec<(String, String)> = r.entries.into_iter().map(|e| (e.expected, e.path)).collect();
    assert_eq!(
        got,
        vec![
            ("CBF43926".to_string(), "/d/my file.bin".to_string()),
            ("0000ABCD".to_string(), "other".to_string()),
        ]
    );
}

#[test]
fn read_manifest_stops_at_missing_path() {
    let lines = vec![
        "\"a\",\"b\"".to_string(),
        "x.bin,1234ABCD,,".to_string(),
        "onlyword".to_string(),
        "y.bin,0000ABCD,,".to_string(),
    ];
    let r = read_manifest(&lines, true);
    assert_eq!(r.short_rows, vec![(1, "\"a\",\"b\"".to_string()), (3, "onlyword".to_string())]);
    assert_eq!(r.entries.len(), 2);
    assert!(r.failure.is_none());
    let plain = vec!["ABCD file".to_string(), "onlyword".to_string(), "EF01 other".to_string()];
    let r = read_manifest(&plain, false);
    assert_eq!(r.entries.len(), 1);
    assert!(matches!(r.failure, Some(ManifestError::MissingPath { line_number: 2 })));
}

#[test]
fn exported_document_reads_back_in_full() {
    let records = vec![
        export_record("/d/a b.iso".to_string(), Some("CBF43926".to_string()), Some("CBF43926".to_string())),
        export_record("/d/c.iso".to_string(), Some("00000000".to_string()), Some("00000000".to_string())),
    ];
    let mut lines = vec![csv_header().to_string()];
    for r in &records {
        lines.push(export_line(r, true));
    }
    let read = read_manifest(&lines, true);
    assert!(read.failure.is_none());
    assert!(read.short_rows.is_empty());
    let got: Vec<(String, String)> = read.entries.into_iter().map(|e| (e.expected, e.path)).collect();
    assert_eq!(
        got,
        vec![
            ("CBF43926".to_string(), "/d/a b.iso".to_string()),
            ("00000000".to_string(), "/d/c.iso".to_string()),
        ]
    );
}
