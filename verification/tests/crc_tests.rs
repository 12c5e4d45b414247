use crc32tool::crc::{crc_hex, Crc32, FileHash};

#[test]
fn crc_of_check_string() {
    let mut c = Crc32::new();
    c.update(b"123456789");
    assert_eq!(c.finalize(), 0xCBF4_3926);
}

#[test]
fn crc_of_nothing_is_zero() {
    assert_eq!(Crc32::new().finalize(), 0);
}

#[test]
fn crc_hex_is_eight_upper_case_digits() {
    assert_eq!(crc_hex(0), "00000000");
    assert_eq!(crc_hex(0xABC), "00000ABC");
    assert_eq!(crc_hex(0xCBF4_3926), "CBF43926");
    assert_eq!(crc_hex(u32::MAX), "FFFFFFFF");
    assert_eq!(crc_hex(0x0123_4567), format!("{:08X}", 0x0123_4567u32));
}

#[test]
fn chunking_does_not_change_the_checksum() {
    let data: Vec<u8> = (0..5000u32).map(|i| (i * 7 % 251) as u8).collect();
    let mut whole = FileHash::to_end();
    whole.feed(&data);
    let mut parts = FileHash::up_to(data.len() as u64);
    for chunk in data.chunks(333) {
        assert!(parts.wants_more());
        parts.feed(chunk);
    }
    assert!(!parts.wants_more());
    assert_eq!(parts.position(), 5000);
    let a = whole.finish();
    let b = parts.finish();
    assert_eq!(a, b);
    assert_eq!(a, format!("{:08X}", crc32fast::hash(&data)));
}

#[test]
fn file_hash_up_to_size_stops_wanting_more() {
    let mut h = FileHash::up_to(4);
    assert!(h.wants_more());
    h.feed(b"ab");
    assert!(h.wants_more());
    h.feed(b"cdef");
    assert!(!h.wants_more());
    assert_eq!(h.position(), 6);
    let empty = FileHash::up_to(0);
    assert!(!empty.wants_more());
    let to_end = FileHash::to_end();
    assert!(to_end.wants_more());
    assert_eq!(to_end.finish(), "00000000");
}

fn bitwise_crc32(data: &[u8]) -> u32 {
    let mut c: u32 = 0xFFFF_FFFF;
    for &b in data {
        c ^= b as u32;
        for _ in 0..8 {
            c = if c & 1 == 1 { (c >> 1) ^ 0xEDB8_8320 } else { c >> 1 };
        }
    }
    c ^ 0xFFFF_FFFF
}

#[test]
fn crc_matches_the_bitwise_definition() {
    let mut data: Vec<u8> = Vec::new();
    for n in 0..300u32 {
        let mut c = Crc32::new();
        c.update(&data);
        assert_eq!(c.finalize(), bitwise_crc32(&data));
        data.push((n * 37 % 256) as u8);
    }
}
