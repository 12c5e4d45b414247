//! Character-level text helpers shared by the parsers and formatters.

use vstd::prelude::*;

verus! {

/// Calls `String::push`, which appends one character.
#[verifier::external_body]
pub(crate) fn string_push(s: &mut String, c: char)
    ensures
        final(s)@ == old(s)@.push(c),
{
    s.push(c)
}

} // verus!

verus! {

/// The characters of a string slice, in order.
pub fn chars_of(s: &str) -> (v: Vec<char>)
    ensures
        v@ == s@,
{
    broadcast use vstd::string::group_string_axioms;
    let mut v: Vec<char> = Vec::new();
    for c in it: s.chars()
        invariant
            v@ == it.seq().take(it.index() as int),
            it.seq() == s@,
    {
        v.push(c);
    }
    v
}

} // verus!

verus! {

/// Whether a character has the Unicode `White_Space` property, which is what
/// `char::is_whitespace` tests.
pub open spec fn is_white(c: char) -> bool {
    let u = c as u32;
    (0x09 <= u && u <= 0x0D) || u == 0x20 || u == 0x85 || u == 0xA0 || u == 0x1680 || (0x2000
        <= u && u <= 0x200A) || u == 0x2028 || u == 0x2029 || u == 0x202F || u == 0x205F || u
        == 0x3000
}

/// The characters that a trim removes: white space, or the double quote.
#[derive(PartialEq, Eq, Structural, Clone, Copy)]
pub enum TrimSet {
    White,
    Quote,
}

pub open spec fn trimmed_char(set: TrimSet, c: char) -> bool {
    match set {
        TrimSet::White => is_white(c),
        TrimSet::Quote => c == '"',
    }
}

/// `s` without its leading characters of `set`.
pub open spec fn trim_start(s: Seq<char>, set: TrimSet) -> Seq<char>
    decreases s.len(),
{
    if s.len() > 0 && trimmed_char(set, s[0]) {
        trim_start(s.drop_first(), set)
    } else {
        s
    }
}

/// `s` without its trailing characters of `set`.
pub open spec fn trim_end(s: Seq<char>, set: TrimSet) -> Seq<char>
    decreases s.len(),
{
    if s.len() > 0 && trimmed_char(set, s.last()) {
        trim_end(s.drop_last(), set)
    } else {
        s
    }
}

/// `s` without its leading and trailing characters of `set`, as `str::trim`
/// (white space) and `str::trim_matches('"')` (quotes) give it.
pub open spec fn trim(s: Seq<char>, set: TrimSet) -> Seq<char> {
    trim_end(trim_start(s, set), set)
}

/// The leading run of characters of `s` that are not white space.
pub open spec fn first_word(s: Seq<char>) -> Seq<char>
    decreases s.len(),
{
    if s.len() > 0 && !is_white(s[0]) {
        seq![s[0]] + first_word(s.drop_first())
    } else {
        Seq::empty()
    }
}

/// ASCII upper-case letters made lower-case; every other character kept.
pub open spec fn ascii_lower(c: char) -> char {
    if 'A' <= c && c <= 'Z' {
        ((c as u32) + 32) as char
    } else {
        c
    }
}

/// Equality up to ASCII case, as `str::eq_ignore_ascii_case` tests it.
pub open spec fn eq_ignore_ascii_case(a: Seq<char>, b: Seq<char>) -> bool {
    a.len() == b.len() && forall|i: int| 0 <= i < a.len() ==> ascii_lower(a[i]) == ascii_lower(b[i])
}

/// Whether `c` is white space (see `is_white`).
pub fn char_is_white(c: char) -> (b: bool)
    ensures
        b == is_white(c),
{
    let u = c as u32;
    (0x09 <= u && u <= 0x0D) || u == 0x20 || u == 0x85 || u == 0xA0 || u == 0x1680 || (0x2000
        <= u && u <= 0x200A) || u == 0x2028 || u == 0x2029 || u == 0x202F || u == 0x205F || u
        == 0x3000
}

fn char_trimmed(set: TrimSet, c: char) -> (b: bool)
    ensures
        b == trimmed_char(set, c),
{
    match set {
        TrimSet::White => char_is_white(c),
        TrimSet::Quote => c == '"',
    }
}

pub proof fn lemma_trim_start_skip(s: Seq<char>, set: TrimSet, i: int)
    requires
        0 <= i <= s.len(),
        forall|k: int| 0 <= k < i ==> trimmed_char(set, #[trigger] s[k]),
    ensures
        trim_start(s, set) == trim_start(s.subrange(i, s.len() as int), set),
    decreases i,
{
    if i > 0 {
        assert(s.drop_first().subrange(i - 1, s.drop_first().len() as int) == s.subrange(
            i,
            s.len() as int,
        ));
        lemma_trim_start_skip(s.drop_first(), set, i - 1);
    } else {
        assert(s.subrange(0, s.len() as int) == s);
    }
}

proof fn lemma_trim_end_cut(s: Seq<char>, set: TrimSet, j: int)
    requires
        0 <= j <= s.len(),
        forall|k: int| j <= k < s.len() ==> trimmed_char(set, #[trigger] s[k]),
    ensures
        trim_end(s, set) == trim_end(s.subrange(0, j), set),
    decreases s.len() - j,
{
    if j < s.len() {
        assert(s.drop_last().subrange(0, j) == s.subrange(0, j));
        lemma_trim_end_cut(s.drop_last(), set, j);
    } else {
        assert(s.subrange(0, s.len() as int) == s);
    }
}

/// The bounds `(start, end)` of `trim(s, set)` within `s`.
pub fn trim_bounds(s: &[char], set: TrimSet) -> (r: (usize, usize))
    ensures
        r.0 <= r.1 <= s@.len(),
        trim(s@, set) == s@.subrange(r.0 as int, r.1 as int),
{
    let mut i: usize = 0;
    while i < s.len() && char_trimmed(set, s[i])
        invariant
            i <= s@.len(),
            forall|k: int| 0 <= k < i ==> trimmed_char(set, #[trigger] s@[k]),
        decreases s.len() - i,
    {
        i = i + 1;
    }
    proof {
        lemma_trim_start_skip(s@, set, i as int);
    }
    let ghost rest = s@.subrange(i as int, s@.len() as int);
    assert(rest.len() == 0 || !trimmed_char(set, rest[0]));
    assert(trim_start(s@, set) == rest);
    let mut j: usize = s.len();
    while j > i && char_trimmed(set, s[j - 1])
        invariant
            i <= j <= s@.len(),
            rest == s@.subrange(i as int, s@.len() as int),
            forall|k: int| j <= k < s@.len() ==> trimmed_char(set, #[trigger] s@[k]),
        decreases j,
    {
        j = j - 1;
    }
    proof {
        lemma_trim_end_cut(rest, set, j - i);
        assert(rest.subrange(0, j - i) == s@.subrange(i as int, j as int));
        let t = s@.subrange(i as int, j as int);
        assert(t.len() == 0 || !trimmed_char(set, t.last()));
    }
    (i, j)
}

/// A `String` holding the characters `s[from..to]`.
pub fn string_from_chars(s: &[char], from: usize, to: usize) -> (r: String)
    requires
        from <= to <= s@.len(),
    ensures
        r@ == s@.subrange(from as int, to as int),
{
    let mut r = String::new();
    let mut k = from;
    while k < to
        invariant
            from <= k <= to <= s@.len(),
            r@ == s@.subrange(from as int, k as int),
        decreases to - k,
    {
        string_push(&mut r, s[k]);
        assert(s@.subrange(from as int, k + 1) == s@.subrange(from as int, k as int).push(s@[k as int]));
        k = k + 1;
    }
    r
}

/// The lower-case counterpart of an ASCII letter; other characters unchanged.
pub fn char_ascii_lower(c: char) -> (r: char)
    ensures
        r == ascii_lower(c),
{
    if 'A' <= c && c <= 'Z' {
        let u: u32 = (c as u32) + 32;
        assert(u < 0xD800);
        char_from_ascii_code(u)
    } else {
        c
    }
}

fn char_from_ascii_code(u: u32) -> (c: char)
    requires
        u < 128,
    ensures
        c == u as char,
{
    (u as u8) as char
}

/// Equality of two character slices up to ASCII case.
pub fn chars_eq_ignore_ascii_case(a: &[char], b: &[char]) -> (r: bool)
    ensures
        r == eq_ignore_ascii_case(a@, b@),
{
    if a.len() != b.len() {
        return false;
    }
    let mut i: usize = 0;
    while i < a.len()
        invariant
            a@.len() == b@.len(),
            i <= a@.len(),
            forall|k: int| 0 <= k < i ==> ascii_lower(a@[k]) == ascii_lower(b@[k]),
        decreases a.len() - i,
    {
        if char_ascii_lower(a[i]) != char_ascii_lower(b[i]) {
            return false;
        }
        i = i + 1;
    }
    true
}

/// Equality of two strings up to ASCII case, as `str::eq_ignore_ascii_case` tests it.
pub fn str_eq_ignore_ascii_case(a: &str, b: &str) -> (r: bool)
    ensures
        r == eq_ignore_ascii_case(a@, b@),
{
    let va = chars_of(a);
    let vb = chars_of(b);
    chars_eq_ignore_ascii_case(va.as_slice(), vb.as_slice())
}

} // verus!

verus! {

/// Whether two strings hold the same characters.
pub fn str_equal(a: &str, b: &str) -> (r: bool)
    ensures
        r == (a@ == b@),
{
    let va = chars_of(a);
    let vb = chars_of(b);
    if va.len() != vb.len() {
        return false;
    }
    let mut i: usize = 0;
    while i < va.len()
        invariant
            va@ == a@,
            vb@ == b@,
            va@.len() == vb@.len(),
            i <= va@.len(),
            forall|k: int| 0 <= k < i ==> va@[k] == vb@[k],
        decreases va.len() - i,
    {
        if va[i] != vb[i] {
            return false;
        }
        i = i + 1;
    }
    assert(va@ == vb@);
    true
}

} // verus!

verus! {

/// Two characters that are equal, or are the upper- and lower-case forms of
/// the same ASCII letter (the lower-case code 32 above the upper-case one).
pub open spec fn same_up_to_ascii_case(x: char, y: char) -> bool {
    x == y || ('A' <= x && x <= 'Z' && (y as u32) == (x as u32) + 32) || ('A' <= y && y <= 'Z'
        && (x as u32) == (y as u32) + 32)
}

proof fn lemma_lower_pair(x: char, y: char)
    ensures
        (ascii_lower(x) == ascii_lower(y)) == same_up_to_ascii_case(x, y),
{
    let ux = x as u32;
    let uy = y as u32;
    let lx = ascii_lower(x);
    let ly = ascii_lower(y);
    if 'A' <= x && x <= 'Z' {
        assert(lx as u32 == ux + 32);
    } else {
        assert(lx as u32 == ux);
    }
    if 'A' <= y && y <= 'Z' {
        assert(ly as u32 == uy + 32);
    } else {
        assert(ly as u32 == uy);
    }
    if same_up_to_ascii_case(x, y) {
        assert(lx as u32 == ly as u32);
    }
    if lx == ly {
        assert(lx as u32 == ly as u32);
    }
}

/// Two texts are equal up to ASCII case exactly when they have the same
/// length and, position by position, their characters are equal or are the
/// two case forms of one ASCII letter.
pub proof fn lemma_ignore_case_pairs(a: Seq<char>, b: Seq<char>)
    ensures
        eq_ignore_ascii_case(a, b) <==> (a.len() == b.len() && forall|i: int|
            0 <= i < a.len() ==> same_up_to_ascii_case(#[trigger] a[i], b[i])),
{
    assert forall|i: int| 0 <= i < a.len() && i < b.len() implies (ascii_lower(a[i]) == ascii_lower(
        b[i],
    )) == same_up_to_ascii_case(#[trigger] a[i], b[i]) by {
        lemma_lower_pair(a[i], b[i]);
    }
}

} // verus!

verus! {

proof fn lemma_trim_start_white_prefix(w: Seq<char>, x: Seq<char>)
    requires
        forall|i: int| 0 <= i < w.len() ==> is_white(#[trigger] w[i]),
    ensures
        trim_start(w + x, TrimSet::White) == trim_start(x, TrimSet::White),
    decreases w.len(),
{
    if w.len() > 0 {
        assert((w + x)[0] == w[0]);
        assert((w + x).drop_first() == w.drop_first() + x);
        assert forall|i: int| 0 <= i < w.drop_first().len() implies is_white(
            #[trigger] w.drop_first()[i],
        ) by {
            assert(w.drop_first()[i] == w[i + 1]);
        }
        lemma_trim_start_white_prefix(w.drop_first(), x);
    } else {
        assert(w + x == x);
    }
}

proof fn lemma_trim_end_white_suffix(x: Seq<char>, w: Seq<char>)
    requires
        forall|i: int| 0 <= i < w.len() ==> is_white(#[trigger] w[i]),
    ensures
        trim_end(x + w, TrimSet::White) == trim_end(x, TrimSet::White),
    decreases w.len(),
{
    if w.len() > 0 {
        assert((x + w).last() == w.last());
        assert(w.last() == w[w.len() - 1]);
        assert((x + w).drop_last() == x + w.drop_last());
        assert forall|i: int| 0 <= i < w.drop_last().len() implies is_white(
            #[trigger] w.drop_last()[i],
        ) by {
            assert(w.drop_last()[i] == w[i]);
        }
        lemma_trim_end_white_suffix(x, w.drop_last());
    } else {
        assert(x + w == x);
    }
}

proof fn lemma_trim_start_then_suffix(x: Seq<char>, w: Seq<char>)
    requires
        forall|i: int| 0 <= i < w.len() ==> is_white(#[trigger] w[i]),
    ensures
        trim_end(trim_start(x + w, TrimSet::White), TrimSet::White) == trim_end(
            trim_start(x, TrimSet::White),
            TrimSet::White,
        ),
    decreases x.len(),
{
    if x.len() == 0 {
        assert(x + w == Seq::<char>::empty() + w);
        lemma_trim_start_white_prefix(w, Seq::<char>::empty());
        assert(w + Seq::<char>::empty() == w);
        assert(x + w == w);
    } else if is_white(x[0]) {
        assert((x + w)[0] == x[0]);
        assert((x + w).drop_first() == x.drop_first() + w);
        lemma_trim_start_then_suffix(x.drop_first(), w);
    } else {
        assert((x + w)[0] == x[0]);
        lemma_trim_end_white_suffix(x, w);
    }
}

/// White space around a text does not change what trimming leaves of it.
pub proof fn lemma_trim_ignores_padding(before: Seq<char>, s: Seq<char>, after: Seq<char>)
    requires
        forall|i: int| 0 <= i < before.len() ==> is_white(#[trigger] before[i]),
        forall|i: int| 0 <= i < after.len() ==> is_white(#[trigger] after[i]),
    ensures
        trim(before + s + after, TrimSet::White) == trim(s, TrimSet::White),
{
    assert(before + s + after == before + (s + after));
    lemma_trim_start_white_prefix(before, s + after);
    lemma_trim_start_then_suffix(s, after);
}

} // verus!
