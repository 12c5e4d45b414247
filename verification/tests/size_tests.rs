use crc32tool::bench::{bench_pass, bench_size};
use crc32tool::size::parse_size;

#[test]
fn parse_size_plain_bytes() {
    assert_eq!(parse_size("1024"), Some(1024));
    assert_eq!(parse_size("0"), Some(0));
    assert_eq!(parse_size("007"), Some(7));
}

#[test]
fn parse_size_units() {
    assert_eq!(parse_size("1B"), Some(1));
    assert_eq!(parse_size("2K"), Some(2048));
    assert_eq!(parse_size("2KB"), Some(2048));
    assert_eq!(parse_size("512MB"), Some(512 * 1024 * 1024));
    assert_eq!(parse_size("3M"), Some(3 * 1024 * 1024));
    assert_eq!(parse_size("4GB"), Some(4 * 1024 * 1024 * 1024));
    assert_eq!(parse_size("8G"), Some(8 * 1024 * 1024 * 1024));
    assert_eq!(parse_size("1TB"), Some(1024u64 * 1024 * 1024 * 1024));
    assert_eq!(parse_size("5T"), Some(5u64 * 1024 * 1024 * 1024 * 1024));
}

#[test]
fn parse_size_unit_case_is_ignored() {
    assert_eq!(parse_size("4gb"), Some(4 * 1024 * 1024 * 1024));
    assert_eq!(parse_size("4Gb"), Some(4 * 1024 * 1024 * 1024));
    assert_eq!(parse_size("1k"), Some(1024));
    assert_eq!(parse_size("7b"), Some(7));
}

#[test]
fn parse_size_trims_white_space() {
    assert_eq!(parse_size("  4GB \t"), Some(4 * 1024 * 1024 * 1024));
    assert_eq!(parse_size("\u{3000}12\u{a0}"), Some(12));
}

#[test]
fn parse_size_binary_unit_names() {
    assert_eq!(parse_size("1GiB"), Some(1024 * 1024 * 1024));
    assert_eq!(parse_size("2kib"), Some(2048));
    assert_eq!(parse_size("3MiB"), Some(3 * 1024 * 1024));
    assert_eq!(parse_size("1TIB"), Some(1024u64 * 1024 * 1024 * 1024));
    assert_eq!(parse_size("1iB"), None);
    assert_eq!(parse_size("1Gi"), None);
}

#[test]
fn parse_size_rejects_unknown_units() {
    assert_eq!(parse_size("1PB"), None);
    assert_eq!(parse_size("1 GB"), None);
    assert_eq!(parse_size("1.5GB"), None);
}

#[test]
fn parse_size_rejects_missing_number() {
    assert_eq!(parse_size(""), None);
    assert_eq!(parse_size("   "), None);
    assert_eq!(parse_size("GB"), None);
    assert_eq!(parse_size("+5"), None);
    assert_eq!(parse_size("-5"), None);
}

#[test]
fn parse_size_overflow() {
    assert_eq!(parse_size("18446744073709551615"), Some(u64::MAX));
    assert_eq!(parse_size("18446744073709551616"), None);
    assert_eq!(parse_size("99999999999999999999999GB"), None);
    assert_eq!(parse_size("17179869184G"), None);
    assert_eq!(parse_size("16777215T"), Some(16777215u64 * 1024 * 1024 * 1024 * 1024));
    assert_eq!(parse_size("16777216T"), None);
}

#[test]
fn bench_size_defaults_to_four_gib() {
    assert_eq!(bench_size("8GB"), 8 * 1024 * 1024 * 1024);
    assert_eq!(bench_size("1GiB"), 1024 * 1024 * 1024);
    assert_eq!(bench_size("4GB"), 4 * 1024 * 1024 * 1024);
    assert_eq!(bench_size("lots"), 4 * 1024 * 1024 * 1024);
}

#[test]
fn bench_pass_rounds_up_to_whole_buffers() {
    let buffer = vec![0u8; 1000];
    assert_eq!(bench_pass(&buffer, 0).0, 0);
    assert_eq!(bench_pass(&buffer, 1).0, 1000);
    assert_eq!(bench_pass(&buffer, 1000).0, 1000);
    assert_eq!(bench_pass(&buffer, 2500).0, 3000);
}

#[test]
fn bench_pass_checksums_what_it_hashed() {
    let buffer = b"123456789".to_vec();
    assert_eq!(bench_pass(&buffer, 0).1, 0);
    assert_eq!(bench_pass(&buffer, 9), (9, 0xCBF4_3926));
    assert_eq!(bench_pass(&buffer, 10), (18, crc32fast::hash(b"123456789123456789")));
}

#[test]
fn size_units_scale() {
    assert_eq!(parse_size("12K"), parse_size("12").and_then(|n| n.checked_mul(1024)));
    assert_eq!(parse_size("12G"), parse_size("12").and_then(|n| n.checked_mul(1 << 30)));
    assert_eq!(parse_size("17179869184G"), None);
    assert_eq!(parse_size("4gIb"), parse_size(&"4gIb".to_ascii_lowercase()));
    assert_eq!(parse_size("4gIb"), parse_size(&"4gIb".to_ascii_uppercase()));
}
