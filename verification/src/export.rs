//! Export reports: one record per file from a double-pass hash, written as
//! CSV (every field quoted) or as plain text.

use vstd::prelude::*;
use crate::text::{chars_of, string_push, trim, trim_end, trim_start, TrimSet};
use crate::manifest::{
    csv_header_start, lemma_split_concat, lemma_split_nonempty, lemma_split_without_sep, line_meaning,
    split_on, LineMeaning,
};
use vstd::string::StringExecFns;
use crate::crc::{crc32_of, crc_text, lemma_crc_text_injective};

verus! {

/// `s` with every double quote doubled.
pub open spec fn escape_quotes(s: Seq<char>) -> Seq<char>
    decreases s.len(),
{
    if s.len() == 0 {
        Seq::empty()
    } else {
        escape_quotes(s.drop_last()) + if s.last() == '"' {
            seq!['"', '"']
        } else {
            seq![s.last()]
        }
    }
}

/// `s` as a quoted CSV field: in double quotes, inner quotes doubled.
pub open spec fn csv_field(s: Seq<char>) -> Seq<char> {
    seq!['"'] + escape_quotes(s) + seq!['"']
}

/// Quotes a CSV field: wraps it in double quotes and doubles every double
/// quote inside.
pub fn csv_escape(s: &str) -> (r: String)
    ensures
        r@ == csv_field(s@),
{
    let v = chars_of(s);
    let mut r = String::new();
    string_push(&mut r, '"');
    let mut i: usize = 0;
    while i < v.len()
        invariant
            i <= v@.len(),
            v@ == s@,
            r@ == seq!['"'] + escape_quotes(v@.take(i as int)),
        decreases v.len() - i,
    {
        let c = v[i];
        assert(v@.take(i + 1).drop_last() == v@.take(i as int));
        if c == '"' {
            string_push(&mut r, '"');
            string_push(&mut r, '"');
        } else {
            string_push(&mut r, c);
        }
        i = i + 1;
    }
    string_push(&mut r, '"');
    assert(v@.take(v@.len() as int) == v@);
    r
}

/// The outcome of checking one file.
#[derive(PartialEq, Eq, Structural, Clone, Copy, Debug)]
pub enum Status {
    /// The checksums agree.
    Match,
    /// The checksums differ.
    Mismatch,
    /// The file could not be read.
    Unreadable,
}

pub open spec fn status_word(s: Status) -> Seq<char> {
    match s {
        Status::Match => "OK"@,
        Status::Mismatch => "MISMATCH"@,
        Status::Unreadable => "ERROR"@,
    }
}

/// The word for a status in reports: `OK`, `MISMATCH` or `ERROR`.
pub fn status_text(s: Status) -> (r: &'static str)
    ensures
        r@ == status_word(s),
{
    match s {
        Status::Match => "OK",
        Status::Mismatch => "MISMATCH",
        Status::Unreadable => "ERROR",
    }
}

/// The status of a double-pass hash, given the checksum texts of the two
/// passes (`None` for a pass that failed or was not made).
pub open spec fn double_pass_status(first: Option<Seq<char>>, second: Option<Seq<char>>) -> Status {
    match (first, second) {
        (Some(a), Some(b)) => if a == b {
            Status::Match
        } else {
            Status::Mismatch
        },
        _ => Status::Unreadable,
    }
}

/// The characters of an optional string.
pub open spec fn opt_chars(s: Option<String>) -> Option<Seq<char>> {
    match s {
        Some(t) => Some(t@),
        None => None,
    }
}

/// What an export writes for one file.
pub struct ExportRecord {
    pub path: String,
    pub source_crc: String,
    pub computed_crc: String,
    pub status: Status,
}

/// The record of a double-pass hash of the file at `path`. `first` is the
/// checksum text of the first pass, `None` when that pass failed; `second`
/// that of the second pass, which is only made when the first succeeded.
/// A failed first pass gives `ERROR` in every field; a failed second pass
/// gives `ERROR` as computed checksum and status; otherwise the status is
/// `OK` when the two texts are equal and `MISMATCH` when not.
pub fn export_record(path: String, first: Option<String>, second: Option<String>) -> (r:
    ExportRecord)
    ensures
        r.path@ == path@,
        r.status == double_pass_status(opt_chars(first), opt_chars(second)),
        first is None ==> r.source_crc@ == "ERROR"@ && r.computed_crc@ == "ERROR"@ && r.status
            == Status::Unreadable,
        first matches Some(a) ==> r.source_crc@ == a@,
        first is Some && second is None ==> r.computed_crc@ == "ERROR"@ && r.status
            == Status::Unreadable,
        first matches Some(a) ==> (second matches Some(b) ==> r.computed_crc@ == b@ && r.status == (
        if a@ == b@ {
            Status::Match
        } else {
            Status::Mismatch
        })),
{
    match first {
        None => ExportRecord {
            path,
            source_crc: "ERROR".to_owned(),
            computed_crc: "ERROR".to_owned(),
            status: Status::Unreadable,
        },
        Some(a) => match second {
            None => ExportRecord {
                path,
                source_crc: a,
                computed_crc: "ERROR".to_owned(),
                status: Status::Unreadable,
            },
            Some(b) => {
                let status = if a == b {
                    Status::Match
                } else {
                    Status::Mismatch
                };
                ExportRecord { path, source_crc: a, computed_crc: b, status }
            },
        },
    }
}

/// The column names of a CSV export, each quoted.
pub open spec fn csv_header_text() -> Seq<char> {
    "\"file_path\",\"source_crc\",\"computed_crc\",\"status\""@
}

/// The header line of a CSV export.
pub fn csv_header() -> (r: &'static str)
    ensures
        r@ == csv_header_text(),
{
    "\"file_path\",\"source_crc\",\"computed_crc\",\"status\""
}

/// The CSV line of a record: its four fields quoted, joined by commas.
pub open spec fn csv_row(path: Seq<char>, source: Seq<char>, computed: Seq<char>, status: Seq<
    char,
>) -> Seq<char> {
    csv_field(path) + seq![','] + csv_field(source) + seq![','] + csv_field(computed) + seq![',']
        + csv_field(status)
}

/// The plain-text line of a record: its four fields joined by two spaces.
pub open spec fn text_row(path: Seq<char>, source: Seq<char>, computed: Seq<char>, status: Seq<
    char,
>) -> Seq<char> {
    path + seq![' ', ' '] + source + seq![' ', ' '] + computed + seq![' ', ' '] + status
}

/// The line that an export writes for a record (without the line break):
/// the CSV row when `use_csv`, the plain-text row otherwise.
pub fn export_line(r: &ExportRecord, use_csv: bool) -> (line: String)
    ensures
        use_csv ==> line@ == csv_row(r.path@, r.source_crc@, r.computed_crc@, status_word(r.status)),
        !use_csv ==> line@ == text_row(
            r.path@,
            r.source_crc@,
            r.computed_crc@,
            status_word(r.status),
        ),
{
    let status = status_text(r.status);
    if use_csv {
        let mut line = csv_escape(r.path.as_str());
        string_push(&mut line, ',');
        line.append(csv_escape(r.source_crc.as_str()).as_str());
        string_push(&mut line, ',');
        line.append(csv_escape(r.computed_crc.as_str()).as_str());
        string_push(&mut line, ',');
        line.append(csv_escape(status).as_str());
        line
    } else {
        let mut line = r.path.clone();
        string_push(&mut line, ' ');
        string_push(&mut line, ' ');
        line.append(r.source_crc.as_str());
        string_push(&mut line, ' ');
        string_push(&mut line, ' ');
        line.append(r.computed_crc.as_str());
        string_push(&mut line, ' ');
        string_push(&mut line, ' ');
        line.append(status);
        line
    }
}

} // verus!

verus! {

proof fn lemma_escape_plain(s: Seq<char>)
    requires
        !s.contains('"'),
    ensures
        escape_quotes(s) == s,
    decreases s.len(),
{
    if s.len() > 0 {
        let init = s.drop_last();
        assert(!init.contains('"')) by {
            if init.contains('"') {
                let k = choose|k: int| 0 <= k < init.len() && init[k] == '"';
                assert(s[k] == '"');
            }
        }
        lemma_escape_plain(init);
        assert(s.last() != '"') by {
            assert(s[s.len() - 1] == s.last());
        }
        assert(init + seq![s.last()] == s);
    }
}

proof fn lemma_field_without(s: Seq<char>, c: char)
    requires
        !s.contains('"'),
        !s.contains(c),
        c != '"',
    ensures
        !csv_field(s).contains(c),
{
    lemma_escape_plain(s);
    let f = csv_field(s);
    if f.contains(c) {
        let k = choose|k: int| 0 <= k < f.len() && f[k] == c;
        assert(s[k - 1] == c);
    }
}

proof fn lemma_unquote_field(s: Seq<char>)
    requires
        !s.contains('"'),
    ensures
        trim(csv_field(s), TrimSet::Quote) == s,
{
    lemma_escape_plain(s);
    let f = csv_field(s);
    let g = s + seq!['"'];
    assert(f.drop_first() == g);
    assert(f[0] == '"');
    assert(trim_start(f, TrimSet::Quote) == trim_start(g, TrimSet::Quote));
    assert(g.last() == '"');
    assert(g.drop_last() == s);
    if s.len() == 0 {
        assert(g[0] == '"');
        assert(g.drop_first() == Seq::<char>::empty());
        assert(trim_start(g, TrimSet::Quote) == trim_start(g.drop_first(), TrimSet::Quote));
        assert(trim_start(f, TrimSet::Quote) == Seq::<char>::empty());
    } else {
        assert(g[0] == s[0]);
        assert(trim_start(g, TrimSet::Quote) == g);
        assert(trim_end(g, TrimSet::Quote) == trim_end(s, TrimSet::Quote));
        assert(s.last() != '"') by {
            assert(s[s.len() - 1] == s.last());
        }
        assert(trim_end(s, TrimSet::Quote) == s);
    }
}

proof fn lemma_not_header(path: Seq<char>, row: Seq<char>)
    requires
        path != seq!['f', 'i', 'l', 'e', '_', 'p', 'a', 't', 'h'],
        !path.contains('"'),
        row.len() >= path.len() + 3,
        forall|k: int| 0 <= k < path.len() + 2 ==> #[trigger] row[k] == csv_field(path)[k],
    ensures
        !(row.len() >= 11 && row.take(11) == csv_header_start()),
{
    lemma_escape_plain(path);
    let a = csv_field(path);
    let h = csv_header_start();
    if row.len() >= 11 && row.take(11) == h {
        assert(a == seq!['"'] + path + seq!['"']);
        if path.len() >= 10 {
            assert(row[10] == a[10]);
            assert(a[10] == path[9]);
            assert(h[10] == '"');
            assert(row.take(11)[10] == row[10]);
        } else if path.len() <= 8 {
            let p = path.len() as int;
            assert(row[p + 1] == a[p + 1]);
            assert(a[p + 1] == '"');
            assert(row.take(11)[p + 1] == row[p + 1]);
        } else {
            assert forall|k: int| 0 <= k < 9 implies path[k] == seq![
                'f',
                'i',
                'l',
                'e',
                '_',
                'p',
                'a',
                't',
                'h',
            ][k] by {
                assert(row[k + 1] == a[k + 1]);
                assert(a[k + 1] == path[k]);
                assert(row.take(11)[k + 1] == row[k + 1]);
            }
            assert(path == seq!['f', 'i', 'l', 'e', '_', 'p', 'a', 't', 'h']);
        }
    }
}

/// A CSV row that an export writes reads back, in a CSV manifest, as an
/// entry with the exported source checksum and path, provided the path and
/// the source checksum hold no comma and no double quote (a comma would
/// split the field, a quote would stay doubled). On the first line of the
/// file the row is taken for the header only when its path is `file_path`.
pub proof fn lemma_csv_row_reads_back(
    path: Seq<char>,
    source: Seq<char>,
    computed: Seq<char>,
    status: Seq<char>,
    index: nat,
)
    requires
        index > 0 || path != seq!['f', 'i', 'l', 'e', '_', 'p', 'a', 't', 'h'],
        !path.contains(','),
        !path.contains('"'),
        !source.contains(','),
        !source.contains('"'),
    ensures
        line_meaning(csv_row(path, source, computed, status), index, true) == LineMeaning::Entry(
            source,
            path,
        ),
{
    let a = csv_field(path);
    let b = csv_field(source);
    let c = csv_field(computed);
    let d = csv_field(status);
    let row = csv_row(path, source, computed, status);
    assert(row == a + seq![','] + (b + seq![','] + (c + seq![','] + d)));
    assert(row[0] == '"');
    assert(row.last() == '"');
    assert(trim_start(row, TrimSet::White) == row);
    assert(trim_end(row, TrimSet::White) == row);
    lemma_field_without(path, ',');
    lemma_field_without(source, ',');
    lemma_split_without_sep(a, ',');
    lemma_split_without_sep(b, ',');
    lemma_split_concat(c, d, ',');
    lemma_split_concat(b, c + seq![','] + d, ',');
    lemma_split_concat(a, b + seq![','] + (c + seq![','] + d), ',');
    lemma_split_nonempty(c, ',');
    lemma_split_nonempty(d, ',');
    if index == 0 {
        lemma_escape_plain(path);
        assert(a.len() == path.len() + 2);
        assert forall|k: int| 0 <= k < path.len() + 2 implies #[trigger] row[k] == a[k] by {}
        lemma_not_header(path, row);
    }
    let parts = split_on(row, ',');
    assert(parts.len() >= 4);
    assert(parts[0] == a);
    assert(parts[1] == b);
    lemma_unquote_field(path);
    lemma_unquote_field(source);
}

/// The first line of a CSV export, its header, is skipped when the file is
/// read back as a manifest.
pub proof fn lemma_csv_header_skipped()
    ensures
        line_meaning(csv_header_text(), 0, true) == LineMeaning::Skip,
{
    reveal_strlit("\"file_path\",\"source_crc\",\"computed_crc\",\"status\"");
    let h = "\"file_path\",\"source_crc\",\"computed_crc\",\"status\""@;
    assert(trim_start(h, TrimSet::White) == h);
    assert(trim_end(h, TrimSet::White) == h);
    assert(h.take(11) == csv_header_start());
}

} // verus!

verus! {

/// The double pass reports `OK` exactly when both passes produced the same
/// checksum, and so always when both passes read the same bytes.
pub proof fn lemma_double_pass_agrees(first_read: Seq<u8>, second_read: Seq<u8>)
    ensures
        double_pass_status(
            Some(crc_text(crc32_of(first_read))),
            Some(crc_text(crc32_of(second_read))),
        ) == if crc32_of(first_read) == crc32_of(second_read) {
            Status::Match
        } else {
            Status::Mismatch
        },
        first_read == second_read ==> double_pass_status(
            Some(crc_text(crc32_of(first_read))),
            Some(crc_text(crc32_of(second_read))),
        ) == Status::Match,
{
    lemma_crc_text_injective(crc32_of(first_read), crc32_of(second_read));
}

} // verus!

verus! {

/// A text with each pair of double quotes read as one quote, the pairs
/// taken from the end.
pub open spec fn undouble_quotes(t: Seq<char>) -> Seq<char>
    decreases t.len(),
{
    if t.len() >= 2 && t.last() == '"' && t.drop_last().last() == '"' {
        undouble_quotes(t.drop_last().drop_last()).push('"')
    } else if t.len() > 0 {
        undouble_quotes(t.drop_last()).push(t.last())
    } else {
        Seq::empty()
    }
}

/// The text of a quoted CSV field: without its outer quotes, doubled inner
/// quotes read as one.
pub open spec fn field_text(f: Seq<char>) -> Seq<char> {
    undouble_quotes(f.subrange(1, f.len() - 1))
}

proof fn lemma_undouble_escape(s: Seq<char>)
    ensures
        undouble_quotes(escape_quotes(s)) == s,
    decreases s.len(),
{
    if s.len() > 0 {
        let init = s.drop_last();
        lemma_undouble_escape(init);
        let e = escape_quotes(s);
        if s.last() == '"' {
            assert(e == escape_quotes(init) + seq!['"', '"']);
            assert(e.drop_last().drop_last() == escape_quotes(init));
            assert(e.drop_last().last() == '"');
        } else {
            assert(e == escape_quotes(init) + seq![s.last()]);
            assert(e.drop_last() == escape_quotes(init));
            assert(e.last() == s.last());
        }
        assert(init.push(s.last()) == s);
    }
}

/// A quoted CSV field reads back to its text: strip the outer quotes and read
/// each doubled quote as one.
pub proof fn lemma_csv_field_reads_back(s: Seq<char>)
    ensures
        field_text(csv_field(s)) == s,
{
    let f = csv_field(s);
    assert(f.subrange(1, f.len() - 1) == escape_quotes(s));
    lemma_undouble_escape(s);
}

/// Distinct texts give distinct quoted fields.
pub proof fn lemma_csv_field_injective(a: Seq<char>, b: Seq<char>)
    ensures
        (csv_field(a) == csv_field(b)) == (a == b),
{
    lemma_csv_field_reads_back(a);
    lemma_csv_field_reads_back(b);
}

} // verus!

verus! {

/// The plain-text line of a record holds exactly its four fields in order,
/// path, source checksum, computed checksum and status word, each pair
/// separated by two spaces, whatever the status.
pub proof fn lemma_text_row_fields(
    path: Seq<char>,
    source: Seq<char>,
    computed: Seq<char>,
    status: Seq<char>,
)
    ensures
        ({
            let line = text_row(path, source, computed, status);
            let a = path.len() as int;
            let b = a + 2 + source.len();
            let c = b + 2 + computed.len();
            &&& line.len() == path.len() + source.len() + computed.len() + status.len() + 6
            &&& line.subrange(0, a) == path
            &&& line.subrange(a, a + 2) == seq![' ', ' ']
            &&& line.subrange(a + 2, b) == source
            &&& line.subrange(b, b + 2) == seq![' ', ' ']
            &&& line.subrange(b + 2, c) == computed
            &&& line.subrange(c, c + 2) == seq![' ', ' ']
            &&& line.subrange(c + 2, line.len() as int) == status
        }),
{
    let line = text_row(path, source, computed, status);
    let a = path.len() as int;
    let b = a + 2 + source.len();
    let c = b + 2 + computed.len();
    assert(line.subrange(0, a) == path);
    assert(line.subrange(a, a + 2) == seq![' ', ' ']);
    assert(line.subrange(a + 2, b) == source);
    assert(line.subrange(b, b + 2) == seq![' ', ' ']);
    assert(line.subrange(b + 2, c) == computed);
    assert(line.subrange(c, c + 2) == seq![' ', ' ']);
    assert(line.subrange(c + 2, line.len() as int) == status);
}

proof fn lemma_escape_keeps_out(s: Seq<char>, c: char)
    requires
        c != '"',
        !s.contains(c),
    ensures
        !escape_quotes(s).contains(c),
    decreases s.len(),
{
    if s.len() > 0 {
        let init = s.drop_last();
        assert(!init.contains(c)) by {
            if init.contains(c) {
                let k = choose|k: int| 0 <= k < init.len() && init[k] == c;
                assert(s[k] == c);
            }
        }
        lemma_escape_keeps_out(init, c);
        assert(s.last() != c) by {
            assert(s[s.len() - 1] == s.last());
        }
        let tail = if s.last() == '"' {
            seq!['"', '"']
        } else {
            seq![s.last()]
        };
        let e = escape_quotes(s);
        assert(e == escape_quotes(init) + tail);
        if e.contains(c) {
            let k = choose|k: int| 0 <= k < e.len() && e[k] == c;
            if k < escape_quotes(init).len() {
                assert(escape_quotes(init)[k] == c);
            } else {
                assert(tail[k - escape_quotes(init).len()] == c);
            }
        }
    }
}

proof fn lemma_field_keeps_out_comma(s: Seq<char>)
    requires
        !s.contains(','),
    ensures
        !csv_field(s).contains(','),
{
    lemma_escape_keeps_out(s, ',');
    let f = csv_field(s);
    let e = escape_quotes(s);
    if f.contains(',') {
        let k = choose|k: int| 0 <= k < f.len() && f[k] == ',';
        assert(f[k] == e[k - 1]);
    }
}

/// When no field holds a comma, the CSV line of a record splits at its commas
/// into exactly four quoted fields, which read back (outer quotes stripped,
/// doubled quotes read as one) to the path, the source checksum, the
/// computed checksum and the status word, in that order.
pub proof fn lemma_csv_row_fields(
    path: Seq<char>,
    source: Seq<char>,
    computed: Seq<char>,
    status: Seq<char>,
)
    requires
        !path.contains(','),
        !source.contains(','),
        !computed.contains(','),
        !status.contains(','),
    ensures
        ({
            let parts = split_on(csv_row(path, source, computed, status), ',');
            &&& parts.len() == 4
            &&& field_text(parts[0]) == path
            &&& field_text(parts[1]) == source
            &&& field_text(parts[2]) == computed
            &&& field_text(parts[3]) == status
        }),
{
    let a = csv_field(path);
    let b = csv_field(source);
    let c = csv_field(computed);
    let d = csv_field(status);
    let row = csv_row(path, source, computed, status);
    assert(row == a + seq![','] + (b + seq![','] + (c + seq![','] + d)));
    lemma_field_keeps_out_comma(path);
    lemma_field_keeps_out_comma(source);
    lemma_field_keeps_out_comma(computed);
    lemma_field_keeps_out_comma(status);
    lemma_split_without_sep(a, ',');
    lemma_split_without_sep(b, ',');
    lemma_split_without_sep(c, ',');
    lemma_split_without_sep(d, ',');
    lemma_split_concat(c, d, ',');
    lemma_split_concat(b, c + seq![','] + d, ',');
    lemma_split_concat(a, b + seq![','] + (c + seq![','] + d), ',');
    let parts = split_on(row, ',');
    assert(parts == seq![a, b, c, d]);
    lemma_csv_field_reads_back(path);
    lemma_csv_field_reads_back(source);
    lemma_csv_field_reads_back(computed);
    lemma_csv_field_reads_back(status);
}

} // verus!
