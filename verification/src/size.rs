//! Size arguments such as `4GB`, `512m` or `1024`.

use vstd::prelude::*;
use crate::text::{
    ascii_lower, chars_eq_ignore_ascii_case, chars_of, eq_ignore_ascii_case, is_white, trim,
    trim_bounds, trim_end, trim_start, TrimSet,
};

verus! {

pub open spec fn is_ascii_digit(c: char) -> bool {
    '0' <= c && c <= '9'
}

/// The number of ASCII digits at the start of `s`.
pub open spec fn digit_prefix_len(s: Seq<char>) -> nat
    decreases s.len(),
{
    if s.len() > 0 && is_ascii_digit(s[0]) {
        1 + digit_prefix_len(s.drop_first())
    } else {
        0
    }
}

/// The number that a run of ASCII digits spells in decimal.
pub open spec fn decimal_value(s: Seq<char>) -> nat
    decreases s.len(),
{
    if s.len() == 0 {
        0
    } else {
        decimal_value(s.drop_last()) * 10 + (s.last() as nat - 48) as nat
    }
}

pub open spec fn kib() -> nat {
    1024
}

/// Whether a suffix names the binary unit with prefix letter `p` (`K`, `M`,
/// `G` or `T`): `p`, `pB` or `piB`, without regard to ASCII case.
pub open spec fn unit_named(u: Seq<char>, p: char) -> bool {
    eq_ignore_ascii_case(u, seq![p]) || eq_ignore_ascii_case(u, seq![p, 'B'])
        || eq_ignore_ascii_case(u, seq![p, 'I', 'B'])
}

/// The factor that a unit suffix stands for, the suffix compared without
/// regard to ASCII case: none or `B` is one byte, `K`/`KB`/`KiB` 1024,
/// `M`/`MB`/`MiB` 1024², `G`/`GB`/`GiB` 1024³, `T`/`TB`/`TiB` 1024⁴. Any
/// other suffix has no factor.
pub open spec fn unit_factor(u: Seq<char>) -> Option<nat> {
    if u.len() == 0 || eq_ignore_ascii_case(u, seq!['B']) {
        Some(1)
    } else if unit_named(u, 'K') {
        Some(kib())
    } else if unit_named(u, 'M') {
        Some(kib() * kib())
    } else if unit_named(u, 'G') {
        Some(kib() * kib() * kib())
    } else if unit_named(u, 'T') {
        Some(kib() * kib() * kib() * kib())
    } else {
        None
    }
}

/// The size in bytes that a size argument denotes: after trimming white
/// space, a non-empty run of decimal digits that fits in `u64`, then a unit
/// suffix; the product must fit in `u64` too. Anything else denotes nothing.
pub open spec fn size_of_text(s: Seq<char>) -> Option<u64> {
    let t = trim(s, TrimSet::White);
    let k = digit_prefix_len(t);
    let n = decimal_value(t.take(k as int));
    if k == 0 || n > u64::MAX {
        None
    } else {
        match unit_factor(t.skip(k as int)) {
            Some(f) => if n * f <= u64::MAX {
                Some((n * f) as u64)
            } else {
                None
            },
            None => None,
        }
    }
}

proof fn lemma_digit_prefix_len(s: Seq<char>, i: int)
    requires
        0 <= i <= s.len(),
        forall|k: int| 0 <= k < i ==> is_ascii_digit(#[trigger] s[k]),
        i == s.len() || !is_ascii_digit(s[i]),
    ensures
        digit_prefix_len(s) == i,
    decreases i,
{
    if i > 0 {
        lemma_digit_prefix_len(s.drop_first(), i - 1);
    }
}

fn names_unit(u: &[char], p: char) -> (b: bool)
    ensures
        b == unit_named(u@, p),
{
    let one: [char; 1] = [p];
    let two: [char; 2] = [p, 'B'];
    let three: [char; 3] = [p, 'I', 'B'];
    assert(one@ == seq![p]);
    assert(two@ == seq![p, 'B']);
    assert(three@ == seq![p, 'I', 'B']);
    chars_eq_ignore_ascii_case(u, one.as_slice()) || chars_eq_ignore_ascii_case(u, two.as_slice())
        || chars_eq_ignore_ascii_case(u, three.as_slice())
}

fn unit_factor_of(u: &[char]) -> (r: Option<u64>)
    ensures
        match unit_factor(u@) {
            Some(f) => r == Some(f as u64),
            None => r is None,
        },
{
    let b: [char; 1] = ['B'];
    assert(b@ == seq!['B']);
    if u.len() == 0 || chars_eq_ignore_ascii_case(u, b.as_slice()) {
        Some(1)
    } else if names_unit(u, 'K') {
        Some(1024)
    } else if names_unit(u, 'M') {
        Some(1024 * 1024)
    } else if names_unit(u, 'G') {
        Some(1024 * 1024 * 1024)
    } else if names_unit(u, 'T') {
        Some(1024 * 1024 * 1024 * 1024)
    } else {
        None
    }
}

/// Parses a size with an optional unit suffix (`1GB`, `512MB`, `1GiB`,
/// `1024`), the units being B, KB/K/KiB, MB/M/MiB, GB/G/GiB and TB/T/TiB in
/// any ASCII case; returns the
/// size in bytes, or `None` when the text is no such size or the size does
/// not fit in `u64`.
pub fn parse_size(s: &str) -> (r: Option<u64>)
    ensures
        r == size_of_text(s@),
{
    let v = chars_of(s);
    let (start, end) = trim_bounds(v.as_slice(), TrimSet::White);
    let t = &v.as_slice()[start..end];
    let ghost ts = t@;
    assert(ts == trim(s@, TrimSet::White));
    let mut i: usize = 0;
    let mut n: u64 = 0;
    let mut overflow = false;
    while i < t.len() && '0' <= t[i] && t[i] <= '9'
        invariant
            ts == t@,
            i <= ts.len(),
            forall|k: int| 0 <= k < i ==> is_ascii_digit(#[trigger] ts[k]),
            !overflow ==> n == decimal_value(ts.take(i as int)),
            overflow ==> decimal_value(ts.take(i as int)) > u64::MAX,
        decreases t.len() - i,
    {
        let d: u64 = (t[i] as u32 - 48) as u64;
        assert(ts.take(i + 1).drop_last() == ts.take(i as int));
        if !overflow {
            match n.checked_mul(10) {
                Some(n10) => match n10.checked_add(d) {
                    Some(nd) => {
                        n = nd;
                    },
                    None => {
                        overflow = true;
                    },
                },
                None => {
                    overflow = true;
                },
            }
        }
        i = i + 1;
    }
    proof {
        lemma_digit_prefix_len(ts, i as int);
    }
    if i == 0 || overflow {
        return None;
    }
    let suffix = &t[i..t.len()];
    assert(suffix@ == ts.skip(i as int));
    match unit_factor_of(suffix) {
        Some(f) => n.checked_mul(f),
        None => None,
    }
}

} // verus!

verus! {

/// ASCII lower-case letters made upper-case; every other character kept.
pub open spec fn ascii_upper(c: char) -> char {
    if 'a' <= c && c <= 'z' {
        ((c as u32) - 32) as char
    } else {
        c
    }
}

/// A change of letter case: it keeps white space, digits and every other
/// non-letter, and keeps each character the same up to ASCII case.
pub open spec fn is_case_change(f: spec_fn(char) -> char) -> bool {
    forall|c: char|
        #![trigger f(c)]
        is_white(f(c)) == is_white(c) && is_ascii_digit(f(c)) == is_ascii_digit(c) && (
        is_ascii_digit(c) ==> f(c) == c) && ascii_lower(f(c)) == ascii_lower(c)
}

proof fn lemma_case_trim_start(s: Seq<char>, f: spec_fn(char) -> char)
    requires
        is_case_change(f),
    ensures
        trim_start(s.map_values(f), TrimSet::White) == trim_start(s, TrimSet::White).map_values(f),
    decreases s.len(),
{
    if s.len() > 0 {
        assert(s.map_values(f)[0] == f(s[0]));
        if is_white(s[0]) {
            assert(s.map_values(f).drop_first() == s.drop_first().map_values(f));
            lemma_case_trim_start(s.drop_first(), f);
        }
    }
}

proof fn lemma_case_trim_end(s: Seq<char>, f: spec_fn(char) -> char)
    requires
        is_case_change(f),
    ensures
        trim_end(s.map_values(f), TrimSet::White) == trim_end(s, TrimSet::White).map_values(f),
    decreases s.len(),
{
    if s.len() > 0 {
        assert(s.map_values(f).last() == f(s.last()));
        if is_white(s.last()) {
            assert(s.map_values(f).drop_last() == s.drop_last().map_values(f));
            lemma_case_trim_end(s.drop_last(), f);
        }
    }
}

proof fn lemma_case_digit_prefix(s: Seq<char>, f: spec_fn(char) -> char)
    requires
        is_case_change(f),
    ensures
        digit_prefix_len(s.map_values(f)) == digit_prefix_len(s),
    decreases s.len(),
{
    if s.len() > 0 {
        assert(s.map_values(f)[0] == f(s[0]));
        if is_ascii_digit(s[0]) {
            assert(s.map_values(f).drop_first() == s.drop_first().map_values(f));
            lemma_case_digit_prefix(s.drop_first(), f);
        }
    }
}

proof fn lemma_digit_prefix_bound(s: Seq<char>)
    ensures
        digit_prefix_len(s) <= s.len(),
    decreases s.len(),
{
    if s.len() > 0 {
        lemma_digit_prefix_bound(s.drop_first());
    }
}

proof fn lemma_digit_prefix_all(s: Seq<char>, k: int)
    requires
        0 <= k <= digit_prefix_len(s),
    ensures
        forall|i: int| 0 <= i < k ==> is_ascii_digit(#[trigger] s[i]),
    decreases k,
{
    if k > 0 {
        lemma_digit_prefix_bound(s);
        lemma_digit_prefix_all(s.drop_first(), k - 1);
        assert forall|i: int| 0 <= i < k implies is_ascii_digit(#[trigger] s[i]) by {
            if i > 0 {
                assert(s[i] == s.drop_first()[i - 1]);
            }
        }
    }
}

proof fn lemma_case_ignore(u: Seq<char>, x: Seq<char>, f: spec_fn(char) -> char)
    requires
        is_case_change(f),
    ensures
        eq_ignore_ascii_case(u.map_values(f), x) == eq_ignore_ascii_case(u, x),
{
    assert forall|i: int| 0 <= i < u.len() implies ascii_lower(#[trigger] u.map_values(f)[i])
        == ascii_lower(u[i]) by {
        assert(u.map_values(f)[i] == f(u[i]));
    }
}

proof fn lemma_size_case_change(s: Seq<char>, f: spec_fn(char) -> char)
    requires
        is_case_change(f),
    ensures
        size_of_text(s.map_values(f)) == size_of_text(s),
{
    let t = trim(s, TrimSet::White);
    lemma_case_trim_start(s, f);
    lemma_case_trim_end(trim_start(s, TrimSet::White), f);
    let ft = trim(s.map_values(f), TrimSet::White);
    assert(ft == t.map_values(f));
    lemma_case_digit_prefix(t, f);
    let k = digit_prefix_len(t);
    lemma_digit_prefix_bound(t);
    lemma_digit_prefix_all(t, k as int);
    assert(ft.take(k as int) == t.take(k as int)) by {
        assert forall|i: int| 0 <= i < k implies ft.take(k as int)[i] == t.take(k as int)[i] by {
            assert(ft[i] == f(t[i]));
            assert(is_ascii_digit(t[i]));
        }
    }
    assert(ft.skip(k as int) == t.skip(k as int).map_values(f));
    let u = t.skip(k as int);
    lemma_case_ignore(u, seq!['B'], f);
    lemma_case_ignore(u, seq!['K', 'B'], f);
    lemma_case_ignore(u, seq!['K', 'I', 'B'], f);
    lemma_case_ignore(u, seq!['K'], f);
    lemma_case_ignore(u, seq!['M', 'B'], f);
    lemma_case_ignore(u, seq!['M', 'I', 'B'], f);
    lemma_case_ignore(u, seq!['M'], f);
    lemma_case_ignore(u, seq!['G', 'B'], f);
    lemma_case_ignore(u, seq!['G', 'I', 'B'], f);
    lemma_case_ignore(u, seq!['G'], f);
    lemma_case_ignore(u, seq!['T', 'B'], f);
    lemma_case_ignore(u, seq!['T', 'I', 'B'], f);
    lemma_case_ignore(u, seq!['T'], f);
}

/// Unit suffixes are read without regard to ASCII case: upper-casing or
/// lower-casing the ASCII letters of a size argument does not change the
/// size it denotes.
pub proof fn lemma_size_ignores_case(s: Seq<char>)
    ensures
        size_of_text(s.map_values(|c: char| ascii_upper(c))) == size_of_text(s),
        size_of_text(s.map_values(|c: char| ascii_lower(c))) == size_of_text(s),
{
    lemma_size_case_change(s, |c: char| ascii_upper(c));
    lemma_size_case_change(s, |c: char| ascii_lower(c));
}

proof fn lemma_digits_alone(d: Seq<char>)
    requires
        d.len() > 0,
        forall|i: int| 0 <= i < d.len() ==> is_ascii_digit(#[trigger] d[i]),
    ensures
        trim(d, TrimSet::White) == d,
        digit_prefix_len(d) == d.len(),
{
    assert(d.last() == d[d.len() - 1]);
    lemma_digit_prefix_len(d, d.len() as int);
}

proof fn lemma_size_with_unit(d: Seq<char>, u: Seq<char>)
    requires
        d.len() > 0,
        forall|i: int| 0 <= i < d.len() ==> is_ascii_digit(#[trigger] d[i]),
        u.len() > 0,
        !is_ascii_digit(u[0]),
        !is_white(u.last()),
        unit_factor(u) is Some,
    ensures
        size_of_text(d + u) == match size_of_text(d) {
            Some(n) => if n * unit_factor(u)->0 <= u64::MAX {
                Some((n * unit_factor(u)->0) as u64)
            } else {
                None
            },
            None => None,
        },
{
    let s = d + u;
    lemma_digits_alone(d);
    assert(d.take(d.len() as int) == d);
    assert(d.skip(d.len() as int) == Seq::<char>::empty());
    assert(s[0] == d[0]);
    assert(s.last() == u.last());
    assert(trim_start(s, TrimSet::White) == s);
    assert(trim_end(s, TrimSet::White) == s);
    assert(s[d.len() as int] == u[0]);
    assert forall|k: int| 0 <= k < d.len() implies is_ascii_digit(#[trigger] s[k]) by {
        assert(s[k] == d[k]);
    }
    lemma_digit_prefix_len(s, d.len() as int);
    assert(s.take(d.len() as int) == d);
    assert(s.skip(d.len() as int) == u);
    assert(trim(s, TrimSet::White) == s);
    assert(digit_prefix_len(s) == d.len());
    assert(unit_factor(Seq::<char>::empty()) == Some(1nat));
    let n = decimal_value(d);
    if n <= u64::MAX {
        assert(size_of_text(d) == Some(n as u64));
    } else {
        assert(size_of_text(d) is None);
    }
}

/// A run of decimal digits followed by `B` denotes that number, followed by
/// `K` that number times 1024, by `M` times 2²⁰, by `G` times 2³⁰ and by `T`
/// times 2⁴⁰, whenever the product fits in `u64` (and nothing otherwise).
pub proof fn lemma_size_units_scale(d: Seq<char>)
    requires
        d.len() > 0,
        forall|i: int| 0 <= i < d.len() ==> is_ascii_digit(#[trigger] d[i]),
    ensures
        size_of_text(d + seq!['K']) == match size_of_text(d) {
            Some(n) => if n * 1024 <= u64::MAX {
                Some((n * 1024) as u64)
            } else {
                None
            },
            None => None,
        },
        size_of_text(d + seq!['G']) == match size_of_text(d) {
            Some(n) => if n * 0x4000_0000 <= u64::MAX {
                Some((n * 0x4000_0000) as u64)
            } else {
                None
            },
            None => None,
        },
        size_of_text(d + seq!['B']) == size_of_text(d),
        size_of_text(d + seq!['M']) == match size_of_text(d) {
            Some(n) => if n * 0x10_0000 <= u64::MAX {
                Some((n * 0x10_0000) as u64)
            } else {
                None
            },
            None => None,
        },
        size_of_text(d + seq!['T']) == match size_of_text(d) {
            Some(n) => if n * 0x100_0000_0000 <= u64::MAX {
                Some((n * 0x100_0000_0000) as u64)
            } else {
                None
            },
            None => None,
        },
{
    let b = seq!['B'];
    let m = seq!['M'];
    let t = seq!['T'];
    assert(eq_ignore_ascii_case(b, seq!['B']));
    assert(unit_factor(b) == Some(1nat));
    assert(ascii_lower(m[0]) != ascii_lower(seq!['B'][0]));
    assert(ascii_lower(m[0]) != ascii_lower(seq!['K'][0]));
    assert(eq_ignore_ascii_case(m, seq!['M']));
    assert(unit_factor(m) == Some(0x10_0000nat));
    assert(ascii_lower(t[0]) != ascii_lower(seq!['B'][0]));
    assert(ascii_lower(t[0]) != ascii_lower(seq!['K'][0]));
    assert(ascii_lower(t[0]) != ascii_lower(seq!['M'][0]));
    assert(ascii_lower(t[0]) != ascii_lower(seq!['G'][0]));
    assert(eq_ignore_ascii_case(t, seq!['T']));
    assert(unit_factor(t) == Some(0x100_0000_0000nat));
    lemma_size_with_unit(d, b);
    lemma_size_with_unit(d, m);
    lemma_size_with_unit(d, t);
    if let Some(n) = size_of_text(d) {
        assert(n * 1 == n);
    }
    let k = seq!['K'];
    let g = seq!['G'];
    assert(ascii_lower(k[0]) != ascii_lower(seq!['B'][0]));
    assert(ascii_lower(g[0]) != ascii_lower(seq!['B'][0]));
    assert(ascii_lower(g[0]) != ascii_lower(seq!['K'][0]));
    assert(ascii_lower(g[0]) != ascii_lower(seq!['M'][0]));
    assert(eq_ignore_ascii_case(k, seq!['K']));
    assert(eq_ignore_ascii_case(g, seq!['G']));
    assert(unit_factor(k) == Some(1024nat));
    assert(unit_factor(g) == Some(0x4000_0000nat));
    lemma_size_with_unit(d, k);
    lemma_size_with_unit(d, g);
}

/// Appending a decimal digit to a run of digits multiplies the size by ten
/// and adds the digit, when the result fits in `u64` (and gives nothing
/// otherwise).
pub proof fn lemma_size_next_digit(d: Seq<char>, c: char)
    requires
        d.len() > 0,
        forall|i: int| 0 <= i < d.len() ==> is_ascii_digit(#[trigger] d[i]),
        is_ascii_digit(c),
    ensures
        size_of_text(d.push(c)) == match size_of_text(d) {
            Some(n) => if n * 10 + (c as nat - 48) <= u64::MAX {
                Some((n * 10 + (c as nat - 48)) as u64)
            } else {
                None
            },
            None => None,
        },
{
    let e = d.push(c);
    assert forall|i: int| 0 <= i < e.len() implies is_ascii_digit(#[trigger] e[i]) by {
        if i < d.len() {
            assert(e[i] == d[i]);
        }
    }
    lemma_digits_alone(d);
    lemma_digits_alone(e);
    assert(d.take(d.len() as int) == d);
    assert(d.skip(d.len() as int) == Seq::<char>::empty());
    assert(e.take(e.len() as int) == e);
    assert(e.skip(e.len() as int) == Seq::<char>::empty());
    assert(e.drop_last() == d);
    assert(unit_factor(Seq::<char>::empty()) == Some(1nat));
}

/// White space before and after a size argument does not change the size.
pub proof fn lemma_size_ignores_padding(before: Seq<char>, s: Seq<char>, after: Seq<char>)
    requires
        forall|i: int| 0 <= i < before.len() ==> is_white(#[trigger] before[i]),
        forall|i: int| 0 <= i < after.len() ==> is_white(#[trigger] after[i]),
    ensures
        size_of_text(before + s + after) == size_of_text(s),
{
    crate::text::lemma_trim_ignores_padding(before, s, after);
}

} // verus!
