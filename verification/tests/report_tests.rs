use crc32tool::export::{csv_escape, export_line, export_record, status_text, Status};
use crc32tool::report::{hash_status, tally, verify_label, verify_status};

#[test]
fn csv_escape_doubles_quotes() {
    assert_eq!(csv_escape("plain"), "\"plain\"");
    assert_eq!(csv_escape(""), "\"\"");
    assert_eq!(csv_escape("a\"b"), "\"a\"\"b\"");
    assert_eq!(csv_escape("\"\""), "\"\"\"\"\"\"");
    assert_eq!(csv_escape("x,y"), "\"x,y\"");
}

#[test]
fn export_record_outcomes() {
    let r = export_record("f".to_string(), None, Some("X".to_string()));
    assert_eq!((r.source_crc.as_str(), r.computed_crc.as_str(), r.status), ("ERROR", "ERROR", Status::Unreadable));
    let r = export_record("f".to_string(), Some("0000ABCD".to_string()), None);
    assert_eq!((r.source_crc.as_str(), r.computed_crc.as_str(), r.status), ("0000ABCD", "ERROR", Status::Unreadable));
    let r = export_record("f".to_string(), Some("0000ABCD".to_string()), Some("0000ABCE".to_string()));
    assert_eq!((r.source_crc.as_str(), r.computed_crc.as_str(), r.status), ("0000ABCD", "0000ABCE", Status::Mismatch));
    let r = export_record("f".to_string(), Some("0000ABCD".to_string()), Some("0000ABCD".to_string()));
    assert_eq!(r.status, Status::Match);
    assert_eq!(r.path, "f");
}

#[test]
fn export_lines() {
    let r = export_record("dir/a\"b.txt".to_string(), Some("0000ABCD".to_string()), Some("0000ABCE".to_string()));
    assert_eq!(export_line(&r, true), "\"dir/a\"\"b.txt\",\"0000ABCD\",\"0000ABCE\",\"MISMATCH\"");
    assert_eq!(export_line(&r, false), "dir/a\"b.txt  0000ABCD  0000ABCE  MISMATCH");
    let e = export_record("x".to_string(), None, None);
    assert_eq!(export_line(&e, false), "x  ERROR  ERROR  ERROR");
}

#[test]
fn status_words() {
    assert_eq!(status_text(Status::Match), "OK");
    assert_eq!(status_text(Status::Mismatch), "MISMATCH");
    assert_eq!(status_text(Status::Unreadable), "ERROR");
}

#[test]
fn verify_outcomes() {
    assert_eq!(verify_status("CBF43926", Some("CBF43926")), Status::Match);
    assert_eq!(verify_status("cbf43926", Some("CBF43926")), Status::Mismatch);
    assert_eq!(verify_status("CBF43926", None), Status::Unreadable);
    assert_eq!(verify_status("ERROR", Some("ERROR")), Status::Unreadable);
    assert_eq!(verify_label("CBF43926", "CBF43926"), "\x1b[32mOK\x1b[0m");
    assert_eq!(verify_label("CBF43926", "00000000"), "\x1b[31mMISMATCH\x1b[0m");
}

#[test]
fn hash_outcomes() {
    assert_eq!(hash_status(Some("CBF43926")), Status::Match);
    assert_eq!(hash_status(None), Status::Unreadable);
    assert_eq!(hash_status(Some("ERROR")), Status::Unreadable);
}

#[test]
fn tally_counts_every_outcome_once() {
    let outcomes = vec![Status::Match, Status::Unreadable, Status::Match, Status::Mismatch, Status::Match];
    let t = tally(&outcomes);
    assert_eq!((t.ok, t.mismatch, t.error), (3, 1, 1));
    let mut reversed = outcomes.clone();
    reversed.reverse();
    let u = tally(&reversed);
    assert_eq!((u.ok, u.mismatch, u.error), (3, 1, 1));
    let e = tally(&Vec::new());
    assert_eq!((e.ok, e.mismatch, e.error), (0, 0, 0));
}
