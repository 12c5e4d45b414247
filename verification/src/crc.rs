//! CRC32 checksums: a streaming hasher over `crc32fast`, and the
//! eight-digit upper-case hexadecimal text of a checksum.

use vstd::prelude::*;

verus! {

/// The streaming CRC32 state of `crc32fast`.
#[verifier::external_type_specification]
#[verifier::external_body]
pub struct ExHasher(crc32fast::Hasher);

/// The bytes that have been fed to a `crc32fast::Hasher` since it was created
/// (the hasher keeps only a running state; this names what that state stands for).
pub uninterp spec fn hasher_input(h: crc32fast::Hasher) -> Seq<u8>;

/// One bit step of the reflected CRC-32 (IEEE) register, polynomial 0xEDB88320.
pub open spec fn crc_bit(c: u32) -> u32 {
    if c & 1 == 1 {
        (c >> 1) ^ 0xEDB8_8320u32
    } else {
        c >> 1
    }
}

/// The CRC-32 register after taking in one more byte: the byte is xored into
/// the low bits, then eight bit steps follow.
pub open spec fn crc_byte(c: u32, b: u8) -> u32 {
    crc_bit(crc_bit(crc_bit(crc_bit(crc_bit(crc_bit(crc_bit(crc_bit(c ^ (b as u32)))))))))
}

/// The CRC-32 register after taking in `data`, starting from all ones.
pub open spec fn crc_register(data: Seq<u8>) -> u32
    decreases data.len(),
{
    if data.len() == 0 {
        0xFFFF_FFFFu32
    } else {
        crc_byte(crc_register(data.drop_last()), data.last())
    }
}

/// The CRC-32 (IEEE) checksum of a byte sequence: the register after the
/// data, with all bits inverted.
pub open spec fn crc32_of(data: Seq<u8>) -> u32 {
    crc_register(data) ^ 0xFFFF_FFFFu32
}

/// Calls `crc32fast::Hasher::new`: a fresh hasher that has been fed nothing.
#[verifier::external_body]
fn hasher_new() -> (h: crc32fast::Hasher)
    ensures
        hasher_input(h) == Seq::<u8>::empty(),
{
    crc32fast::Hasher::new()
}

/// Calls `crc32fast::Hasher::update`, which appends `data` to what the hasher
/// has been fed. Its byte counter is a `u64` that the call increments by
/// `data.len()`, so the total must stay within `u64`.
#[verifier::external_body]
fn hasher_update(h: &mut crc32fast::Hasher, data: &[u8])
    requires
        hasher_input(*old(h)).len() + data@.len() <= u64::MAX,
    ensures
        hasher_input(*final(h)) == hasher_input(*old(h)) + data@,
{
    h.update(data)
}

/// Calls `crc32fast::Hasher::finalize`: the CRC-32 (IEEE) checksum of
/// everything fed so far, which is what `crc32fast` documents it to compute.
#[verifier::external_body]
fn hasher_finalize(h: crc32fast::Hasher) -> (crc: u32)
    ensures
        crc == crc32_of(hasher_input(h)),
{
    h.finalize()
}

/// A CRC32 computation in progress, fed chunk by chunk.
pub struct Crc32 {
    hasher: crc32fast::Hasher,
}

impl View for Crc32 {
    type V = Seq<u8>;

    closed spec fn view(&self) -> Seq<u8> {
        hasher_input(self.hasher)
    }
}

impl Crc32 {
    /// A computation that has been fed no bytes.
    pub fn new() -> (c: Crc32)
        ensures
            c@ == Seq::<u8>::empty(),
    {
        Crc32 { hasher: hasher_new() }
    }

    /// Feeds one more chunk of bytes.
    pub fn update(&mut self, chunk: &[u8])
        requires
            old(self)@.len() + chunk@.len() <= u64::MAX,
        ensures
            final(self)@ == old(self)@ + chunk@,
    {
        hasher_update(&mut self.hasher, chunk);
    }

    /// The checksum of all bytes fed.
    pub fn finalize(self) -> (crc: u32)
        ensures
            crc == crc32_of(self@),
    {
        hasher_finalize(self.hasher)
    }
}

} // verus!

verus! {

/// `16` to the power `n`.
pub open spec fn pow16(n: nat) -> nat
    decreases n,
{
    if n == 0 {
        1
    } else {
        16 * pow16((n - 1) as nat)
    }
}

/// The upper-case hexadecimal digit of a value below sixteen.
pub open spec fn hex_digit(d: nat) -> char {
    if d < 10 {
        (d + 48) as char
    } else {
        (d + 55) as char
    }
}

/// The value of an upper-case hexadecimal digit (`None` for other characters).
pub open spec fn hex_digit_value(c: char) -> Option<nat> {
    if '0' <= c && c <= '9' {
        Some((c as nat - 48) as nat)
    } else if 'A' <= c && c <= 'F' {
        Some((c as nat - 55) as nat)
    } else {
        None
    }
}

/// The last `n` hexadecimal digits of `v`, most significant first, zero-padded.
pub open spec fn hex_text(v: nat, n: nat) -> Seq<char>
    decreases n,
{
    if n == 0 {
        Seq::empty()
    } else {
        hex_text(v / 16, (n - 1) as nat).push(hex_digit(v % 16))
    }
}

/// The number that a text of upper-case hexadecimal digits spells
/// (`None` when some character is no such digit).
pub open spec fn hex_value(s: Seq<char>) -> Option<nat>
    decreases s.len(),
{
    if s.len() == 0 {
        Some(0)
    } else {
        match (hex_value(s.drop_last()), hex_digit_value(s.last())) {
            (Some(high), Some(low)) => Some(high * 16 + low),
            _ => None,
        }
    }
}

/// The text of a checksum: eight upper-case hexadecimal digits, as `{:08X}` prints it.
pub open spec fn crc_text(crc: u32) -> Seq<char> {
    hex_text(crc as nat, 8)
}

fn push_hex_digits(s: &mut String, v: u32, n: usize)
    requires
        n <= 8,
    ensures
        final(s)@ == old(s)@ + hex_text(v as nat, n as nat),
    decreases n,
{
    if n > 0 {
        push_hex_digits(s, v / 16, n - 1);
        let d: u32 = v % 16;
        let c: char = if d < 10 {
            ((d as u8) + 48) as char
        } else {
            ((d as u8) + 55) as char
        };
        crate::text::string_push(s, c);
        assert(hex_text(v as nat, n as nat) == hex_text((v / 16) as nat, (n - 1) as nat).push(
            hex_digit((v % 16) as nat),
        ));
    }
}

/// Formats a checksum as eight upper-case hexadecimal digits.
pub fn crc_hex(crc: u32) -> (s: String)
    ensures
        s@ == crc_text(crc),
{
    let mut s = String::new();
    push_hex_digits(&mut s, crc, 8);
    s
}

proof fn lemma_hex_text_value(v: nat, n: nat)
    ensures
        hex_text(v, n).len() == n,
        hex_value(hex_text(v, n)) == Some(v % pow16(n)),
    decreases n,
{
    if n > 0 {
        lemma_hex_text_value(v / 16, (n - 1) as nat);
        let t = hex_text(v, n);
        assert(t.drop_last() == hex_text(v / 16, (n - 1) as nat));
        assert(hex_digit_value(hex_digit(v % 16)) == Some(v % 16));
        assert(pow16((n - 1) as nat) > 0) by {
            lemma_pow16_positive((n - 1) as nat);
        }
        vstd::arithmetic::div_mod::lemma_breakdown(v as int, 16, pow16((n - 1) as nat) as int);
    }
}

proof fn lemma_pow16_positive(n: nat)
    ensures
        pow16(n) > 0,
    decreases n,
{
    if n > 0 {
        lemma_pow16_positive((n - 1) as nat);
    }
}

/// A checksum's text spells the checksum back: reading the eight digits as
/// a hexadecimal number gives the checksum.
pub proof fn lemma_crc_text_value(crc: u32)
    ensures
        crc_text(crc).len() == 8,
        hex_value(crc_text(crc)) == Some(crc as nat),
{
    lemma_hex_text_value(crc as nat, 8);
    assert(pow16(8) == 0x1_0000_0000nat) by {
        reveal_with_fuel(pow16, 9);
    }
}

/// Distinct checksums have distinct texts, so comparing the texts of two
/// checksums compares the checksums.
pub proof fn lemma_crc_text_injective(a: u32, b: u32)
    ensures
        (crc_text(a) == crc_text(b)) == (a == b),
{
    lemma_crc_text_value(a);
    lemma_crc_text_value(b);
}

} // verus!

verus! {

/// The checksum of one file being read chunk by chunk: either up to the size
/// the file had when it was opened (the pass that shows progress) or to its
/// end (the silent second pass).
pub struct FileHash {
    crc: Crc32,
    processed: u64,
    size: Option<u64>,
}

impl FileHash {
    /// The bytes fed so far.
    pub closed spec fn input(&self) -> Seq<u8> {
        self.crc@
    }

    /// The size at which reading stops, if any.
    pub closed spec fn limit(&self) -> Option<u64> {
        self.size
    }

    #[verifier::type_invariant]
    closed spec fn wf(&self) -> bool {
        self.processed == self.crc@.len()
    }

    /// A hash that reads until `size` bytes have been fed (or the file ends).
    pub fn up_to(size: u64) -> (h: FileHash)
        ensures
            h.input() == Seq::<u8>::empty(),
            h.limit() == Some(size),
    {
        FileHash { crc: Crc32::new(), processed: 0, size: Some(size) }
    }

    /// A hash that reads until the file ends.
    pub fn to_end() -> (h: FileHash)
        ensures
            h.input() == Seq::<u8>::empty(),
            h.limit() is None,
    {
        FileHash { crc: Crc32::new(), processed: 0, size: None }
    }

    /// Whether another chunk should be read: always when reading to the end,
    /// otherwise while fewer bytes than the size have been fed.
    pub fn wants_more(&self) -> (b: bool)
        ensures
            b == match self.limit() {
                None => true,
                Some(size) => self.input().len() < size,
            },
    {
        proof {
            use_type_invariant(self);
        }
        match self.size {
            None => true,
            Some(size) => self.processed < size,
        }
    }

    /// The number of bytes fed so far, which the progress bar shows.
    pub fn position(&self) -> (n: u64)
        ensures
            n == self.input().len(),
    {
        proof {
            use_type_invariant(self);
        }
        self.processed
    }

    /// Feeds the next chunk read from the file.
    pub fn feed(&mut self, chunk: &[u8])
        requires
            old(self).input().len() + chunk@.len() <= u64::MAX,
        ensures
            final(self).input() == old(self).input() + chunk@,
            final(self).limit() == old(self).limit(),
    {
        proof {
            use_type_invariant(&*self);
        }
        let mut current = FileHash::to_end();
        std::mem::swap(&mut current, self);
        proof {
            use_type_invariant(&current);
        }
        let FileHash { mut crc, processed, size } = current;
        crc.update(chunk);
        *self = FileHash { crc, processed: processed + chunk.len() as u64, size };
    }

    /// The checksum text of all bytes fed: eight upper-case hexadecimal digits.
    pub fn finish(self) -> (s: String)
        ensures
            s@ == crc_text(crc32_of(self.input())),
    {
        crc_hex(self.crc.finalize())
    }
}

} // verus!

verus! {

proof fn lemma_crc_register_step(s: Seq<u8>, k: int)
    requires
        0 <= k < s.len(),
    ensures
        crc_register(s.take(k + 1)) == crc_byte(crc_register(s.take(k)), s[k]),
{
    assert(s.take(k + 1).drop_last() == s.take(k));
}

/// The standard check value of CRC-32 (IEEE): the ASCII text `123456789`
/// has the checksum 0xCBF43926.
pub proof fn lemma_check_string()
    ensures
        crc32_of(seq![0x31u8, 0x32, 0x33, 0x34, 0x35, 0x36, 0x37, 0x38, 0x39]) == 0xCBF4_3926u32,
{
    let s = seq![0x31u8, 0x32, 0x33, 0x34, 0x35, 0x36, 0x37, 0x38, 0x39];
    assert(s.take(0) == Seq::<u8>::empty());
    assert(crc_byte(0xFFFF_FFFFu32, 0x31u8) == 0x7c23_1048u32) by (bit_vector);
    assert(crc_byte(0x7c23_1048u32, 0x32u8) == 0xb0ac_bb32u32) by (bit_vector);
    assert(crc_byte(0xb0ac_bb32u32, 0x33u8) == 0x77b7_9c2du32) by (bit_vector);
    assert(crc_byte(0x77b7_9c2du32, 0x34u8) == 0x641c_1f5cu32) by (bit_vector);
    assert(crc_byte(0x641c_1f5cu32, 0x35u8) == 0x340a_c5e3u32) by (bit_vector);
    assert(crc_byte(0x340a_c5e3u32, 0x36u8) == 0xf68d_2c9eu32) by (bit_vector);
    assert(crc_byte(0xf68d_2c9eu32, 0x37u8) == 0xaffc_9660u32) by (bit_vector);
    assert(crc_byte(0xaffc_9660u32, 0x38u8) == 0x651f_2550u32) by (bit_vector);
    assert(crc_byte(0x651f_2550u32, 0x39u8) == 0x340b_c6d9u32) by (bit_vector);
    assert(0x340b_c6d9u32 ^ 0xFFFF_FFFFu32 == 0xCBF4_3926u32) by (bit_vector);
    lemma_crc_register_step(s, 0);
    lemma_crc_register_step(s, 1);
    lemma_crc_register_step(s, 2);
    lemma_crc_register_step(s, 3);
    lemma_crc_register_step(s, 4);
    lemma_crc_register_step(s, 5);
    lemma_crc_register_step(s, 6);
    lemma_crc_register_step(s, 7);
    lemma_crc_register_step(s, 8);
    assert(s.take(9) == s);
}

} // verus!

verus! {

/// Every character of a hexadecimal text is a digit or a letter `A` to `F`.
pub open spec fn is_hex_char(c: char) -> bool {
    ('0' <= c && c <= '9') || ('A' <= c && c <= 'F')
}

proof fn lemma_hex_text_chars(v: nat, n: nat)
    ensures
        forall|i: int| 0 <= i < hex_text(v, n).len() ==> is_hex_char(#[trigger] hex_text(v, n)[i]),
    decreases n,
{
    if n > 0 {
        lemma_hex_text_chars(v / 16, (n - 1) as nat);
        let t = hex_text(v, n);
        let p = hex_text(v / 16, (n - 1) as nat);
        assert forall|i: int| 0 <= i < t.len() implies is_hex_char(#[trigger] t[i]) by {
            if i < p.len() {
                assert(t[i] == p[i]);
            }
        }
    }
}

/// A checksum's text is made of hexadecimal digits only.
pub proof fn lemma_crc_text_chars(crc: u32)
    ensures
        forall|i: int| 0 <= i < crc_text(crc).len() ==> is_hex_char(#[trigger] crc_text(crc)[i]),
{
    lemma_hex_text_chars(crc as nat, 8);
}

} // verus!
