//! Checksum manifests: one entry per line, either `<CRC32> <path>`
//! separated by white space, or the CSV rows that an export writes.

use vstd::prelude::*;
use crate::text::{
    chars_of, first_word, is_white, string_from_chars, trim, trim_bounds, trim_start,
    trimmed_char, TrimSet,
};

verus! {

/// The pieces of `s` between the occurrences of `sep`, as `str::split` gives
/// them: one more piece than there are separators.
pub open spec fn split_on(s: Seq<char>, sep: char) -> Seq<Seq<char>>
    decreases s.len(),
{
    if s.len() == 0 {
        seq![Seq::empty()]
    } else {
        let p = split_on(s.drop_last(), sep);
        if s.last() == sep {
            p.push(Seq::empty())
        } else {
            p.update(p.len() - 1, p.last().push(s.last()))
        }
    }
}

/// The first line of an exported CSV file starts with this quoted column name.
pub open spec fn csv_header_start() -> Seq<char> {
    seq!['"', 'f', 'i', 'l', 'e', '_', 'p', 'a', 't', 'h', '"']
}

/// What one manifest line means.
pub enum LineMeaning {
    /// Nothing to check: a blank line, or the header row of a CSV file.
    Skip,
    /// A CSV row with fewer than four fields, which is reported and skipped;
    /// it carries the trimmed line.
    ShortCsvRow(Seq<char>),
    /// A file to check: the expected checksum text and the path.
    Entry(Seq<char>, Seq<char>),
    /// A line without a checksum, which ends the reading of the manifest.
    MissingCrc,
    /// A line with a checksum but no path, which ends the reading of the manifest.
    MissingPath,
}

/// The meaning of the line with 0-based number `index`.
///
/// The line is trimmed of white space; a blank line is skipped. In a CSV
/// manifest the first line is skipped when it starts with `"file_path"`;
/// other lines are split at every comma, and with fewer than four fields the
/// line is reported and skipped; otherwise the first field, stripped of
/// double quotes at both ends, is the path and the second, stripped alike,
/// the expected checksum. In a plain manifest (`<CRC32> <full_path>`) the
/// first white-space-separated word is the expected checksum, and the rest of
/// the trimmed line after the white space that follows it is the path, which
/// may itself hold white space.
pub open spec fn line_meaning(line: Seq<char>, index: nat, is_csv: bool) -> LineMeaning {
    let t = trim(line, TrimSet::White);
    if t.len() == 0 {
        LineMeaning::Skip
    } else if is_csv && index == 0 && t.len() >= 11 && t.take(11) == csv_header_start() {
        LineMeaning::Skip
    } else if is_csv {
        let parts = split_on(t, ',');
        if parts.len() < 4 {
            LineMeaning::ShortCsvRow(t)
        } else {
            LineMeaning::Entry(trim(parts[1], TrimSet::Quote), trim(parts[0], TrimSet::Quote))
        }
    } else {
        let w = trim_start(t, TrimSet::White);
        let crc = first_word(w);
        let rest = trim_start(w.skip(crc.len() as int), TrimSet::White);
        if crc.len() == 0 {
            LineMeaning::MissingCrc
        } else if rest.len() == 0 {
            LineMeaning::MissingPath
        } else {
            LineMeaning::Entry(crc, rest)
        }
    }
}

/// A file to check against its expected checksum.
pub struct ManifestEntry {
    pub expected: String,
    pub path: String,
}

/// One manifest line, read.
pub enum ManifestLine {
    Skip,
    /// A short CSV row: its 1-based line number and trimmed text.
    ShortCsvRow { line_number: usize, text: String },
    Entry(ManifestEntry),
}

/// Why a manifest cannot be read; each carries the 1-based line number.
pub enum ManifestError {
    MissingCrc { line_number: usize },
    MissingPath { line_number: usize },
}

/// The meaning that a result of `parse_manifest_line` carries.
pub open spec fn read_meaning(r: Result<ManifestLine, ManifestError>) -> LineMeaning {
    match r {
        Ok(ManifestLine::Skip) => LineMeaning::Skip,
        Ok(ManifestLine::ShortCsvRow { line_number, text }) => LineMeaning::ShortCsvRow(text@),
        Ok(ManifestLine::Entry(e)) => LineMeaning::Entry(e.expected@, e.path@),
        Err(ManifestError::MissingCrc { line_number }) => LineMeaning::MissingCrc,
        Err(ManifestError::MissingPath { line_number }) => LineMeaning::MissingPath,
    }
}

/// The line number that a result of `parse_manifest_line` reports, if any.
pub open spec fn reported_line_number(r: Result<ManifestLine, ManifestError>) -> Option<usize> {
    match r {
        Ok(ManifestLine::ShortCsvRow { line_number, text }) => Some(line_number),
        Err(ManifestError::MissingCrc { line_number }) => Some(line_number),
        Err(ManifestError::MissingPath { line_number }) => Some(line_number),
        _ => None,
    }
}

proof fn lemma_first_word(s: Seq<char>, j: int)
    requires
        0 <= j <= s.len(),
        forall|k: int| 0 <= k < j ==> !is_white(#[trigger] s[k]),
        j == s.len() || is_white(s[j]),
    ensures
        first_word(s) == s.take(j),
    decreases j,
{
    if j > 0 {
        lemma_first_word(s.drop_first(), j - 1);
        assert(seq![s[0]] + s.drop_first().take(j - 1) == s.take(j));
    } else {
        if s.len() > 0 {
            assert(is_white(s[0]));
        }
    }
}

/// The end of the run of non-white characters of `t` that starts at `from`.
fn word_end(t: &[char], from: usize) -> (j: usize)
    requires
        from <= t@.len(),
    ensures
        from <= j <= t@.len(),
        first_word(t@.subrange(from as int, t@.len() as int)) == t@.subrange(from as int, j as int),
{
    let mut j = from;
    while j < t.len() && !crate::text::char_is_white(t[j])
        invariant
            from <= j <= t@.len(),
            forall|k: int| from <= k < j ==> !is_white(#[trigger] t@[k]),
        decreases t.len() - j,
    {
        j = j + 1;
    }
    proof {
        let s = t@.subrange(from as int, t@.len() as int);
        assert forall|k: int| 0 <= k < j - from implies !is_white(#[trigger] s[k]) by {
            assert(s[k] == t@[from + k]);
        }
        lemma_first_word(s, j - from);
        assert(s.take(j - from) == t@.subrange(from as int, j as int));
    }
    j
}

/// The first position at or after `from` that is not white space.
fn skip_white(t: &[char], from: usize) -> (k: usize)
    requires
        from <= t@.len(),
    ensures
        from <= k <= t@.len(),
        trim_start(t@.subrange(from as int, t@.len() as int), TrimSet::White) == t@.subrange(
            k as int,
            t@.len() as int,
        ),
{
    let mut k = from;
    while k < t.len() && crate::text::char_is_white(t[k])
        invariant
            from <= k <= t@.len(),
            forall|m: int| from <= m < k ==> is_white(#[trigger] t@[m]),
        decreases t.len() - k,
    {
        k = k + 1;
    }
    proof {
        let s = t@.subrange(from as int, t@.len() as int);
        assert forall|m: int| 0 <= m < k - from implies trimmed_char(
            TrimSet::White,
            #[trigger] s[m],
        ) by {
            assert(s[m] == t@[from + m]);
        }
        crate::text::lemma_trim_start_skip(s, TrimSet::White, k - from);
        assert(s.subrange(k - from, s.len() as int) == t@.subrange(k as int, t@.len() as int));
        let r = t@.subrange(k as int, t@.len() as int);
        if r.len() > 0 {
            assert(r[0] == t@[k as int]);
        }
    }
    k
}

/// The number of commas in `t`, and the positions of the first two.
fn comma_positions(t: &[char]) -> (r: (usize, usize, usize))
    ensures
        ({
            let (count, c1, c2) = r;
            let p = split_on(t@, ',');
            &&& p.len() == count + 1
            &&& count == 0 ==> p[0] == t@
            &&& count >= 1 ==> c1 < t@.len() && p[0] == t@.take(c1 as int)
            &&& count == 1 ==> p[1] == t@.subrange(c1 + 1, t@.len() as int)
            &&& count >= 2 ==> c1 < c2 < t@.len() && p[1] == t@.subrange(c1 + 1, c2 as int)
        }),
{
    let mut count: usize = 0;
    let mut c1: usize = 0;
    let mut c2: usize = 0;
    let mut i: usize = 0;
    assert(t@.take(0) == Seq::<char>::empty());
    while i < t.len()
        invariant
            i <= t@.len(),
            count <= i,
            ({
                let p = split_on(t@.take(i as int), ',');
                &&& p.len() == count + 1
                &&& count == 0 ==> p[0] == t@.take(i as int)
                &&& count >= 1 ==> c1 < i && p[0] == t@.take(c1 as int)
                &&& count == 1 ==> p[1] == t@.subrange(c1 + 1, i as int)
                &&& count >= 2 ==> c1 < c2 < i && p[1] == t@.subrange(c1 + 1, c2 as int)
            }),
        decreases t.len() - i,
    {
        let ghost s = t@.take(i + 1);
        assert(s.drop_last() == t@.take(i as int));
        assert(s.last() == t@[i as int]);
        if t[i] == ',' {
            if count == 0 {
                c1 = i;
            } else if count == 1 {
                c2 = i;
            }
            count = count + 1;
        }
        assert(t@.take(i + 1) == t@.take(i as int).push(t@[i as int]));
        proof {
            if c1 + 1 <= i {
                assert(t@.subrange(c1 + 1, i + 1) == t@.subrange(c1 + 1, i as int).push(
                    t@[i as int],
                ));
            }
        }
        i = i + 1;
    }
    assert(t@.take(t@.len() as int) == t@);
    (count, c1, c2)
}

/// A `String` of `t[from..to]` trimmed of double quotes at both ends.
fn unquoted(t: &[char], from: usize, to: usize) -> (r: String)
    requires
        from <= to <= t@.len(),
    ensures
        r@ == trim(t@.subrange(from as int, to as int), TrimSet::Quote),
{
    let field = &t[from..to];
    let (a, b) = trim_bounds(field, TrimSet::Quote);
    string_from_chars(field, a, b)
}

/// Reads the manifest line with 0-based number `index`; `is_csv` tells
/// whether the manifest is a CSV file. See `line_meaning` for what it yields.
pub fn parse_manifest_line(line: &str, index: usize, is_csv: bool) -> (r: Result<
    ManifestLine,
    ManifestError,
>)
    requires
        index < usize::MAX,
    ensures
        read_meaning(r) == line_meaning(line@, index as nat, is_csv),
        reported_line_number(r) is Some ==> reported_line_number(r) == Some((index + 1) as usize),
{
    let v = chars_of(line);
    let (a, b) = trim_bounds(v.as_slice(), TrimSet::White);
    let t = &v.as_slice()[a..b];
    let ghost ts = t@;
    assert(ts == trim(line@, TrimSet::White));
    if t.len() == 0 {
        return Ok(ManifestLine::Skip);
    }
    if is_csv && index == 0 && t.len() >= 11 {
        let header: [char; 11] = ['"', 'f', 'i', 'l', 'e', '_', 'p', 'a', 't', 'h', '"'];
        let head = &t[0..11];
        assert(head@ == ts.take(11));
        assert(header@ == csv_header_start());
        let mut same = true;
        let mut k: usize = 0;
        while k < 11
            invariant
                k <= 11,
                head@.len() == 11,
                same == (forall|m: int| 0 <= m < k ==> head@[m] == header@[m]),
            decreases 11 - k,
        {
            if head[k] != header[k] {
                same = false;
            }
            k = k + 1;
        }
        if same {
            assert(head@ == header@);
            return Ok(ManifestLine::Skip);
        }
        assert(ts.take(11) != csv_header_start());
    }
    if is_csv {
        let (count, c1, c2) = comma_positions(t);
        if count < 3 {
            assert(ts.subrange(0, ts.len() as int) == ts);
            return Ok(
                ManifestLine::ShortCsvRow { line_number: index + 1, text: string_from_chars(t, 0, t.len()) },
            );
        }
        let path = unquoted(t, 0, c1);
        let expected = unquoted(t, c1 + 1, c2);
        assert(ts.take(c1 as int) == ts.subrange(0, c1 as int));
        return Ok(ManifestLine::Entry(ManifestEntry { expected, path }));
    }
    proof {
        assert(ts.subrange(0, ts.len() as int) == ts);
    }
    let w0 = skip_white(t, 0);
    let e1 = word_end(t, w0);
    if e1 == w0 {
        return Err(ManifestError::MissingCrc { line_number: index + 1 });
    }
    let w1 = skip_white(t, e1);
    proof {
        let w = ts.subrange(w0 as int, ts.len() as int);
        assert(w.skip(e1 - w0) == ts.subrange(e1 as int, ts.len() as int));
    }
    if w1 == t.len() {
        return Err(ManifestError::MissingPath { line_number: index + 1 });
    }
    let expected = string_from_chars(t, w0, e1);
    let path = string_from_chars(t, w1, t.len());
    Ok(ManifestLine::Entry(ManifestEntry { expected, path }))
}

} // verus!

verus! {

/// A text always splits into at least one piece.
pub proof fn lemma_split_nonempty(s: Seq<char>, sep: char)
    ensures
        split_on(s, sep).len() >= 1,
    decreases s.len(),
{
    if s.len() > 0 {
        lemma_split_nonempty(s.drop_last(), sep);
    }
}

/// A text without the separator is a single piece.
pub proof fn lemma_split_without_sep(s: Seq<char>, sep: char)
    requires
        !s.contains(sep),
    ensures
        split_on(s, sep) == seq![s],
    decreases s.len(),
{
    if s.len() > 0 {
        let init = s.drop_last();
        assert(!init.contains(sep)) by {
            if init.contains(sep) {
                let k = choose|k: int| 0 <= k < init.len() && init[k] == sep;
                assert(s[k] == sep);
            }
        }
        lemma_split_without_sep(init, sep);
        assert(s.last() != sep) by {
            assert(s[s.len() - 1] == s.last());
        }
        assert(init.push(s.last()) == s);
        let p = split_on(init, sep);
        assert(p.update(p.len() - 1, p.last().push(s.last())) == seq![s]);
    } else {
        assert(s == Seq::<char>::empty());
    }
}

/// Splitting at a separator between two texts splits each of them.
pub proof fn lemma_split_concat(a: Seq<char>, b: Seq<char>, sep: char)
    ensures
        split_on(a + seq![sep] + b, sep) == split_on(a, sep) + split_on(b, sep),
    decreases b.len(),
{
    let s = a + seq![sep] + b;
    if b.len() == 0 {
        assert(s.drop_last() == a);
        assert(s.last() == sep);
        assert(split_on(b, sep) == seq![Seq::<char>::empty()]);
    } else {
        let b0 = b.drop_last();
        lemma_split_concat(a, b0, sep);
        lemma_split_nonempty(b0, sep);
        lemma_split_nonempty(a, sep);
        assert(s.drop_last() == a + seq![sep] + b0);
        assert(s.last() == b.last());
        let p = split_on(a + seq![sep] + b0, sep);
        let pa = split_on(a, sep);
        let pb = split_on(b0, sep);
        assert(p == pa + pb);
        if b.last() == sep {
            assert(p.push(Seq::empty()) == pa + pb.push(Seq::empty()));
        } else {
            assert(p.last() == pb.last());
            assert(p.update(p.len() - 1, p.last().push(b.last())) == pa + pb.update(
                pb.len() - 1,
                pb.last().push(b.last()),
            ));
        }
    }
}

} // verus!

verus! {

/// Why reading a manifest stopped early, with the 1-based line number.
pub enum ReadFailure {
    MissingCrc(nat),
    MissingPath(nat),
}

/// What reading a manifest yields: the entries to check (expected checksum
/// text, path), the short CSV rows reported on the way (line number, text),
/// and the failure that stopped the reading, if one did.
pub struct ManifestReading {
    pub entries: Seq<(Seq<char>, Seq<char>)>,
    pub short_rows: Seq<(nat, Seq<char>)>,
    pub failure: Option<ReadFailure>,
}

/// Reading the lines of a manifest in order: each line is read for its
/// meaning; entries and short rows are gathered until the first line without
/// checksum or path, where reading stops.
pub open spec fn read_lines(lines: Seq<Seq<char>>, is_csv: bool) -> ManifestReading
    decreases lines.len(),
{
    if lines.len() == 0 {
        ManifestReading { entries: Seq::empty(), short_rows: Seq::empty(), failure: None }
    } else {
        let prev = read_lines(lines.drop_last(), is_csv);
        let k = (lines.len() - 1) as nat;
        if prev.failure is Some {
            prev
        } else {
            match line_meaning(lines.last(), k, is_csv) {
                LineMeaning::Skip => prev,
                LineMeaning::ShortCsvRow(t) => ManifestReading {
                    short_rows: prev.short_rows.push((k + 1, t)),
                    ..prev
                },
                LineMeaning::Entry(c, p) => ManifestReading {
                    entries: prev.entries.push((c, p)),
                    ..prev
                },
                LineMeaning::MissingCrc => ManifestReading {
                    failure: Some(ReadFailure::MissingCrc(k + 1)),
                    ..prev
                },
                LineMeaning::MissingPath => ManifestReading {
                    failure: Some(ReadFailure::MissingPath(k + 1)),
                    ..prev
                },
            }
        }
    }
}

/// A manifest, read.
pub struct ManifestRead {
    pub entries: Vec<ManifestEntry>,
    pub short_rows: Vec<(usize, String)>,
    pub failure: Option<ManifestError>,
}

pub open spec fn entry_view(e: ManifestEntry) -> (Seq<char>, Seq<char>) {
    (e.expected@, e.path@)
}

pub open spec fn short_row_view(r: (usize, String)) -> (nat, Seq<char>) {
    (r.0 as nat, r.1@)
}

pub open spec fn failure_view(f: Option<ManifestError>) -> Option<ReadFailure> {
    match f {
        None => None,
        Some(ManifestError::MissingCrc { line_number }) => Some(
            ReadFailure::MissingCrc(line_number as nat),
        ),
        Some(ManifestError::MissingPath { line_number }) => Some(
            ReadFailure::MissingPath(line_number as nat),
        ),
    }
}

impl View for ManifestRead {
    type V = ManifestReading;

    open spec fn view(&self) -> ManifestReading {
        ManifestReading {
            entries: self.entries@.map_values(|e: ManifestEntry| entry_view(e)),
            short_rows: self.short_rows@.map_values(|r: (usize, String)| short_row_view(r)),
            failure: failure_view(self.failure),
        }
    }
}

/// The characters of each line.
pub open spec fn line_texts(lines: Seq<String>) -> Seq<Seq<char>> {
    lines.map_values(|l: String| l@)
}

/// Reads the lines of a manifest in order (see `read_lines`); `is_csv`
/// tells whether the manifest is a CSV file.
pub fn read_manifest(lines: &Vec<String>, is_csv: bool) -> (r: ManifestRead)
    requires
        lines@.len() < usize::MAX,
    ensures
        r@ == read_lines(line_texts(lines@), is_csv),
{
    let mut r = ManifestRead { entries: Vec::new(), short_rows: Vec::new(), failure: None };
    let ghost all = line_texts(lines@);
    let mut i: usize = 0;
    assert(r@.entries == Seq::<(Seq<char>, Seq<char>)>::empty());
    assert(r@.short_rows == Seq::<(nat, Seq<char>)>::empty());
    assert(all.take(0) == Seq::<Seq<char>>::empty());
    while i < lines.len()
        invariant
            lines@.len() < usize::MAX,
            all == line_texts(lines@),
            i <= lines@.len(),
            r@ == read_lines(all.take(i as int), is_csv),
            r.failure is None,
        decreases lines.len() - i,
    {
        let ghost prev = r@;
        assert(all.take(i + 1).drop_last() == all.take(i as int));
        assert(all.take(i + 1).last() == lines@[i as int]@);
        let parsed = parse_manifest_line(lines[i].as_str(), i, is_csv);
        let ghost meaning = line_meaning(lines@[i as int]@, i as nat, is_csv);
        assert(read_meaning(parsed) == meaning);
        let ghost next = read_lines(all.take(i + 1), is_csv);
        match parsed {
            Ok(ManifestLine::Skip) => {
                assert(next == prev);
            },
            Ok(ManifestLine::ShortCsvRow { line_number, text }) => {
                r.short_rows.push((line_number, text));
                assert(r@.short_rows == prev.short_rows.push(((i + 1) as nat, text@)));
                assert(r@.entries == prev.entries);
                assert(next == r@);
            },
            Ok(ManifestLine::Entry(e)) => {
                let ghost ev = entry_view(e);
                r.entries.push(e);
                assert(r@.entries == prev.entries.push(ev));
                assert(r@.short_rows == prev.short_rows);
                assert(next == r@);
            },
            Err(err) => {
                r.failure = Some(err);
                assert(r@.entries == prev.entries);
                assert(r@.short_rows == prev.short_rows);
                assert(next == r@);
                proof {
                    lemma_read_lines_stops(all, (i + 1) as nat, is_csv);
                }
                return r;
            },
        }
        i = i + 1;
    }
    assert(all.take(lines@.len() as int) == all);
    r
}

/// Once reading has stopped at a failure, later lines change nothing.
proof fn lemma_read_lines_stops(lines: Seq<Seq<char>>, k: nat, is_csv: bool)
    requires
        k <= lines.len(),
        read_lines(lines.take(k as int), is_csv).failure is Some,
    ensures
        read_lines(lines, is_csv) == read_lines(lines.take(k as int), is_csv),
    decreases lines.len() - k,
{
    if k < lines.len() {
        assert(lines.take((k + 1) as int).drop_last() == lines.take(k as int));
        lemma_read_lines_stops(lines, k + 1, is_csv);
    } else {
        assert(lines.take(k as int) == lines);
    }
}

} // verus!

verus! {

/// A plain manifest line made of a checksum word, white space, and a path
/// (which may hold white space inside but neither starts nor ends with it)
/// reads as an entry with that checksum and that whole path, on any line.
pub proof fn lemma_plain_line_reads(crc: Seq<char>, gap: Seq<char>, path: Seq<char>, index: nat)
    requires
        crc.len() > 0,
        forall|i: int| 0 <= i < crc.len() ==> !is_white(#[trigger] crc[i]),
        gap.len() > 0,
        forall|i: int| 0 <= i < gap.len() ==> is_white(#[trigger] gap[i]),
        path.len() > 0,
        !is_white(path[0]),
        !is_white(path.last()),
    ensures
        line_meaning(crc + gap + path, index, false) == LineMeaning::Entry(crc, path),
{
    let line = crc + gap + path;
    assert(line[0] == crc[0]);
    assert(line.last() == path.last());
    assert(trim_start(line, TrimSet::White) == line);
    assert(crate::text::trim_end(line, TrimSet::White) == line);
    assert(line[crc.len() as int] == gap[0]);
    assert forall|k: int| 0 <= k < crc.len() implies !is_white(#[trigger] line[k]) by {
        assert(line[k] == crc[k]);
    }
    lemma_first_word(line, crc.len() as int);
    assert(line.take(crc.len() as int) == crc);
    let rest = line.skip(crc.len() as int);
    assert(rest == gap + path);
    assert forall|k: int| 0 <= k < gap.len() implies trimmed_char(
        TrimSet::White,
        #[trigger] rest[k],
    ) by {
        assert(rest[k] == gap[k]);
    }
    crate::text::lemma_trim_start_skip(rest, TrimSet::White, gap.len() as int);
    assert(rest.subrange(gap.len() as int, rest.len() as int) == path);
    assert(trim_start(path, TrimSet::White) == path);
}

/// White space before and after a manifest line does not change what the
/// line means.
pub proof fn lemma_line_ignores_padding(
    before: Seq<char>,
    line: Seq<char>,
    after: Seq<char>,
    index: nat,
    is_csv: bool,
)
    requires
        forall|i: int| 0 <= i < before.len() ==> is_white(#[trigger] before[i]),
        forall|i: int| 0 <= i < after.len() ==> is_white(#[trigger] after[i]),
    ensures
        line_meaning(before + line + after, index, is_csv) == line_meaning(line, index, is_csv),
{
    crate::text::lemma_trim_ignores_padding(before, line, after);
}

} // verus!
