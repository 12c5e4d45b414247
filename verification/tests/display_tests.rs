use crc32tool::display::{cpu_identity, detect_zen, truncate_filename, yesno};

#[test]
fn truncate_filename_keeps_short_names() {
    assert_eq!(truncate_filename("file.iso", 50), "file.iso");
    assert_eq!(truncate_filename("abcdef", 6), "abcdef");
    assert_eq!(truncate_filename("", 0), "");
}

#[test]
fn truncate_filename_keeps_the_tail() {
    assert_eq!(truncate_filename("abcdefgh", 6), "...fgh");
    assert_eq!(truncate_filename("abcdefgh", 3), "...");
    let long = "/very/long/directory/name/that/goes/on/and/on/forever/file.iso";
    let t = truncate_filename(long, 50);
    assert_eq!(t.len(), 50);
    assert!(t.starts_with("..."));
    assert!(long.ends_with(&t[3..]));
}

#[test]
fn truncate_filename_counts_bytes() {
    // "é" is two bytes: the cut falls at a character boundary here.
    assert_eq!(truncate_filename("aaaaéé", 7), "...éé");
    assert_eq!(truncate_filename("aaaéé", 7), "aaaéé");
}

#[test]
fn yesno_colours() {
    assert_eq!(yesno(true), "\x1b[32mYES\x1b[0m");
    assert_eq!(yesno(false), "\x1b[31mNO\x1b[0m");
}

#[test]
fn detect_zen_generations() {
    assert_eq!(detect_zen(23, 1), "Zen 1 (estimated)");
    assert_eq!(detect_zen(23, 17), "Zen 1 (estimated)");
    assert_eq!(detect_zen(23, 18), "Unknown");
    assert_eq!(detect_zen(23, 49), "Zen 2 (estimated)");
    assert_eq!(detect_zen(23, 113), "Zen 2 (estimated)");
    assert_eq!(detect_zen(25, 33), "Zen 3 (estimated)");
    assert_eq!(detect_zen(25, 64), "Unknown");
    assert_eq!(detect_zen(25, 97), "Zen 4 (estimated)");
    assert_eq!(detect_zen(25, 255), "Zen 4 (estimated)");
    assert_eq!(detect_zen(26, 1), "Zen 5 (estimated)");
    assert_eq!(detect_zen(26, 0), "Unknown");
    assert_eq!(detect_zen(6, 158), "Unknown");
    assert_eq!(detect_zen(0, 0), "Unknown");
}

#[test]
fn cpu_identity_defaults() {
    let c = cpu_identity(None, None);
    assert_eq!(c.vendor, "Unknown");
    assert_eq!((c.family, c.model), (0, 0));
    assert_eq!(c.microarchitecture, "Unknown");
    let c = cpu_identity(Some("AuthenticAMD".to_string()), Some((25, 33)));
    assert_eq!(c.vendor, "AuthenticAMD");
    assert_eq!((c.family, c.model), (25, 33));
    assert_eq!(c.microarchitecture, "Zen 3 (estimated)");
}
