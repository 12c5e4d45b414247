//! What the tool shows on the terminal: shortened file names, CPU
//! identification and coloured yes/no markers.

use vstd::prelude::*;
use vstd::utf8::{decode_utf8, encode_utf8, is_char_boundary};
use vstd::string::{StringExecFns, StringSliceAdditionalSpecFns};

verus! {

/// The byte position at which a name longer than `width` bytes is cut so that
/// `...` and the rest fill exactly `width` bytes.
pub open spec fn cut_position(len: nat, width: nat) -> int {
    len - (width - 3)
}

/// A path shortened for a column of `width` bytes: kept whole when its UTF-8
/// text is at most `width` bytes long, otherwise `...` followed by its last
/// `width - 3` bytes.
///
/// The text is cut by bytes; a cut that does not fall on a character
/// boundary, or a width below 3, cannot be made, so those inputs are excluded.
pub fn truncate_filename(name: &str, width: usize) -> (r: String)
    requires
        name.spec_bytes().len() > width ==> width >= 3 && is_char_boundary(
            name.spec_bytes(),
            cut_position(name.spec_bytes().len(), width as nat),
        ),
    ensures
        name.spec_bytes().len() <= width ==> r@ == name@,
        name.spec_bytes().len() > width ==> r@ == seq!['.', '.', '.'] + decode_utf8(
            name.spec_bytes().subrange(
                cut_position(name.spec_bytes().len(), width as nat),
                name.spec_bytes().len() as int,
            ),
        ),
        name.spec_bytes().len() > width ==> encode_utf8(r@).len() == width,
{
    proof {
        vstd::utf8::encode_utf8_valid_utf8(name@);
    }
    let len = name.as_bytes().len();
    if len <= width {
        return name.to_owned();
    }
    let (_, tail) = name.split_at(len - (width - 3));
    let mut r = String::new();
    crate::text::string_push(&mut r, '.');
    crate::text::string_push(&mut r, '.');
    crate::text::string_push(&mut r, '.');
    r.append(tail);
    proof {
        vstd::utf8::encode_utf8_decode_utf8(tail@);
        let bytes = name.spec_bytes();
        let cut = (len - (width - 3)) as int;
        vstd::utf8::valid_utf8_split(bytes, cut);
        let sub = bytes.subrange(cut, bytes.len() as int);
        let d = decode_utf8(sub);
        vstd::utf8::decode_utf8_encode_utf8(sub);
        let dots = seq!['.', '.', '.'] + d;
        assert(dots.drop_first() == seq!['.', '.'] + d);
        assert((seq!['.', '.'] + d).drop_first() == seq!['.'] + d);
        assert((seq!['.'] + d).drop_first() == d);
        assert(encode_utf8(seq!['.'] + d).len() == 1 + encode_utf8(d).len());
        assert(encode_utf8(seq!['.', '.'] + d).len() == 1 + encode_utf8(seq!['.'] + d).len());
        assert(encode_utf8(dots).len() == 1 + encode_utf8(seq!['.', '.'] + d).len());
    }
    r
}

} // verus!

verus! {

/// A green `YES` or a red `NO`, coloured with ANSI escape codes.
pub fn yesno(v: bool) -> (r: &'static str)
    ensures
        v ==> r@ == "\x1b[32mYES\x1b[0m"@,
        !v ==> r@ == "\x1b[31mNO\x1b[0m"@,
{
    if v {
        "\x1b[32mYES\x1b[0m"
    } else {
        "\x1b[31mNO\x1b[0m"
    }
}

/// The AMD Zen generation that a CPU family and model suggest; the ranges are
/// estimates.
pub open spec fn zen_generation(family: u8, model: u8) -> Seq<char> {
    if family == 23 && 1 <= model <= 17 {
        "Zen 1 (estimated)"@
    } else if family == 23 && 49 <= model <= 113 {
        "Zen 2 (estimated)"@
    } else if family == 25 && 1 <= model <= 63 {
        "Zen 3 (estimated)"@
    } else if family == 25 && 97 <= model {
        "Zen 4 (estimated)"@
    } else if family == 26 && 1 <= model {
        "Zen 5 (estimated)"@
    } else {
        "Unknown"@
    }
}

/// Names the AMD Zen microarchitecture that a CPU family and model suggest,
/// or `Unknown`.
pub fn detect_zen(family: u8, model: u8) -> (r: &'static str)
    ensures
        r@ == zen_generation(family, model),
{
    if family == 23 && 1 <= model && model <= 17 {
        "Zen 1 (estimated)"
    } else if family == 23 && 49 <= model && model <= 113 {
        "Zen 2 (estimated)"
    } else if family == 25 && 1 <= model && model <= 63 {
        "Zen 3 (estimated)"
    } else if family == 25 && 97 <= model {
        "Zen 4 (estimated)"
    } else if family == 26 && 1 <= model {
        "Zen 5 (estimated)"
    } else {
        "Unknown"
    }
}

/// What the tool reports of the processor it runs on.
pub struct CpuIdentity {
    pub vendor: String,
    pub family: u8,
    pub model: u8,
    pub microarchitecture: &'static str,
}

/// The processor report from what CPUID gave: the vendor name, or `Unknown`
/// where there is none; the family and model, or `0 / 0` where there are
/// none; and the Zen generation they suggest.
pub fn cpu_identity(vendor: Option<String>, family_model: Option<(u8, u8)>) -> (c: CpuIdentity)
    ensures
        vendor is Some ==> c.vendor@ == vendor->0@,
        vendor is None ==> c.vendor@ == "Unknown"@,
        family_model matches Some((f, m)) ==> c.family == f && c.model == m,
        family_model is None ==> c.family == 0 && c.model == 0,
        c.microarchitecture@ == zen_generation(c.family, c.model),
{
    let vendor = match vendor {
        Some(v) => v,
        None => "Unknown".to_owned(),
    };
    let (family, model) = match family_model {
        Some(fm) => fm,
        None => (0u8, 0u8),
    };
    CpuIdentity { vendor, family, model, microarchitecture: detect_zen(family, model) }
}

} // verus!

verus! {

/// The Zen generation named for each family and model: family 23 (17h)
/// models 1–17 are Zen 1 and 49–113 Zen 2; family 25 (19h) models 1–63 are
/// Zen 3 and 97–255 Zen 4; family 26 (1Ah) models 1–255 are Zen 5; every
/// other family and model is unknown.
pub proof fn lemma_zen_ranges()
    ensures
        forall|m: u8| 1 <= m <= 17 ==> #[trigger] zen_generation(23, m) == "Zen 1 (estimated)"@,
        forall|m: u8| 49 <= m <= 113 ==> #[trigger] zen_generation(23, m) == "Zen 2 (estimated)"@,
        forall|m: u8|
            (m == 0 || (18 <= m <= 48) || 114 <= m) ==> #[trigger] zen_generation(23, m)
                == "Unknown"@,
        forall|m: u8| 1 <= m <= 63 ==> #[trigger] zen_generation(25, m) == "Zen 3 (estimated)"@,
        forall|m: u8| 97 <= m ==> #[trigger] zen_generation(25, m) == "Zen 4 (estimated)"@,
        forall|m: u8|
            (m == 0 || (64 <= m <= 96)) ==> #[trigger] zen_generation(25, m) == "Unknown"@,
        forall|m: u8| 1 <= m ==> #[trigger] zen_generation(26, m) == "Zen 5 (estimated)"@,
        zen_generation(26, 0) == "Unknown"@,
        forall|f: u8, m: u8|
            f != 23 && f != 25 && f != 26 ==> #[trigger] zen_generation(f, m) == "Unknown"@,
{
}

} // verus!
