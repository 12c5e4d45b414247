//! Judging checked files and counting the outcomes for the summary line.

use vstd::prelude::*;
use crate::export::{
    csv_header_text, csv_row, lemma_csv_header_skipped, lemma_csv_row_reads_back, status_word,
    Status,
};
use crate::manifest::{line_meaning, read_lines, LineMeaning, ManifestReading};
use crate::crc::{
    crc32_of, crc_text, is_hex_char, lemma_crc_text_chars, lemma_crc_text_injective,
    lemma_crc_text_value,
};

verus! {

broadcast use vstd::seq_lib::group_to_multiset_ensures;

/// The outcome of checking a file whose expected checksum text is `expected`,
/// given the text computed for it (`None` when the file could not be read):
/// `ERROR` when unreadable or when the computed text is `ERROR`, `OK` when
/// the texts are equal, `MISMATCH` otherwise.
pub open spec fn verify_outcome(expected: Seq<char>, computed: Option<Seq<char>>) -> Status {
    match computed {
        None => Status::Unreadable,
        Some(c) => if c == "ERROR"@ {
            Status::Unreadable
        } else if c == expected {
            Status::Match
        } else {
            Status::Mismatch
        },
    }
}

/// Judges a checked manifest entry (see `verify_outcome`).
pub fn verify_status(expected: &str, computed: Option<&str>) -> (s: Status)
    ensures
        s == verify_outcome(expected@, match computed {
            Some(c) => Some(c@),
            None => None,
        }),
{
    match computed {
        None => Status::Unreadable,
        Some(c) => {
            if crate::text::str_equal(c, "ERROR") {
                Status::Unreadable
            } else if crate::text::str_equal(c, expected) {
                Status::Match
            } else {
                Status::Mismatch
            }
        },
    }
}

/// The coloured word shown beside a verified file: a green `OK` when the
/// computed checksum text equals the expected one, a red `MISMATCH` otherwise.
pub fn verify_label(expected: &str, computed: &str) -> (r: &'static str)
    ensures
        computed@ == expected@ ==> r@ == "\x1b[32mOK\x1b[0m"@,
        computed@ != expected@ ==> r@ == "\x1b[31mMISMATCH\x1b[0m"@,
{
    if crate::text::str_equal(computed, expected) {
        "\x1b[32mOK\x1b[0m"
    } else {
        "\x1b[31mMISMATCH\x1b[0m"
    }
}

/// The outcome of hashing a file, given its checksum text (`None` when the
/// file could not be read): `ERROR` when unreadable or when the text is
/// `ERROR`, `OK` otherwise.
pub fn hash_status(computed: Option<&str>) -> (s: Status)
    ensures
        s == match computed {
            None => Status::Unreadable,
            Some(c) => if c@ == "ERROR"@ {
                Status::Unreadable
            } else {
                Status::Match
            },
        },
{
    match computed {
        None => Status::Unreadable,
        Some(c) => if crate::text::str_equal(c, "ERROR") {
            Status::Unreadable
        } else {
            Status::Match
        },
    }
}

/// How many files ended in each outcome.
pub struct Tally {
    pub ok: usize,
    pub mismatch: usize,
    pub error: usize,
}

/// How often `x` occurs among `outcomes`.
pub open spec fn occurrences(outcomes: Seq<Status>, x: Status) -> nat {
    outcomes.to_multiset().count(x)
}

/// Counts the outcomes of a run.
pub fn tally(outcomes: &Vec<Status>) -> (t: Tally)
    ensures
        t.ok == occurrences(outcomes@, Status::Match),
        t.mismatch == occurrences(outcomes@, Status::Mismatch),
        t.error == occurrences(outcomes@, Status::Unreadable),
{
    let mut t = Tally { ok: 0, mismatch: 0, error: 0 };
    let mut i: usize = 0;
    assert(outcomes@.take(0) =~= Seq::<Status>::empty());
    while i < outcomes.len()
        invariant
            i <= outcomes@.len(),
            t.ok + t.mismatch + t.error == i,
            t.ok == occurrences(outcomes@.take(i as int), Status::Match),
            t.mismatch == occurrences(outcomes@.take(i as int), Status::Mismatch),
            t.error == occurrences(outcomes@.take(i as int), Status::Unreadable),
        decreases outcomes.len() - i,
    {
        assert(outcomes@.take(i + 1) =~= outcomes@.take(i as int).push(outcomes@[i as int]));
        match outcomes[i] {
            Status::Match => t.ok = t.ok + 1,
            Status::Mismatch => t.mismatch = t.mismatch + 1,
            Status::Unreadable => t.error = t.error + 1,
        }
        i = i + 1;
    }
    assert(outcomes@.take(outcomes@.len() as int) =~= outcomes@);
    t
}

/// Every file counts once: the three counts add up to the number of files.
pub proof fn lemma_tally_total(outcomes: Seq<Status>)
    ensures
        occurrences(outcomes, Status::Match) + occurrences(outcomes, Status::Mismatch) + occurrences(
            outcomes,
            Status::Unreadable,
        ) == outcomes.len(),
    decreases outcomes.len(),
{
    if outcomes.len() > 0 {
        let init = outcomes.drop_last();
        lemma_tally_total(init);
        assert(outcomes =~= init.push(outcomes.last()));
    }
}

/// The counts do not depend on the order in which the files finished, which
/// the parallel workers leave open.
pub proof fn lemma_tally_order(a: Seq<Status>, b: Seq<Status>, x: Status)
    requires
        a.to_multiset() == b.to_multiset(),
    ensures
        occurrences(a, x) == occurrences(b, x),
{
}

} // verus!

verus! {

/// A manifest entry whose expected text is the checksum text of `expected`
/// is judged `OK` exactly when the file's bytes still have that checksum,
/// and `MISMATCH` otherwise.
pub proof fn lemma_verify_detects_change(expected: u32, data: Seq<u8>)
    ensures
        verify_outcome(crc_text(expected), Some(crc_text(crc32_of(data)))) == if crc32_of(data)
            == expected {
            Status::Match
        } else {
            Status::Mismatch
        },
{
    reveal_strlit("ERROR");
    lemma_crc_text_value(crc32_of(data));
    lemma_crc_text_injective(expected, crc32_of(data));
}

} // verus!

verus! {

/// The lines of a CSV export in which every file was read alike by both
/// passes: the header, then one row per file, given as (path, bytes read).
pub open spec fn export_document(files: Seq<(Seq<char>, Seq<u8>)>) -> Seq<Seq<char>> {
    seq![csv_header_text()] + files.map_values(
        |f: (Seq<char>, Seq<u8>)|
            csv_row(
                f.0,
                crc_text(crc32_of(f.1)),
                crc_text(crc32_of(f.1)),
                status_word(Status::Match),
            ),
    )
}

/// The outcomes of verifying each file against the bytes it still holds.
pub open spec fn reverify_outcomes(
    entries: Seq<(Seq<char>, Seq<char>)>,
    files: Seq<(Seq<char>, Seq<u8>)>,
) -> Seq<Status> {
    Seq::new(
        files.len(),
        |i: int| verify_outcome(entries[i].0, Some(crc_text(crc32_of(files[i].1)))),
    )
}

proof fn lemma_export_document_reads(files: Seq<(Seq<char>, Seq<u8>)>)
    requires
        forall|i: int|
            0 <= i < files.len() ==> !(#[trigger] files[i]).0.contains(',') && !files[i].0.contains(
                '"',
            ),
    ensures
        read_lines(export_document(files), true) == (ManifestReading {
            entries: files.map_values(
                |f: (Seq<char>, Seq<u8>)| (crc_text(crc32_of(f.1)), f.0),
            ),
            short_rows: Seq::empty(),
            failure: None,
        }),
    decreases files.len(),
{
    let doc = export_document(files);
    if files.len() == 0 {
        lemma_csv_header_skipped();
        assert(doc == seq![csv_header_text()]);
        assert(doc.drop_last() == Seq::<Seq<char>>::empty());
        assert(files.map_values(|f: (Seq<char>, Seq<u8>)| (crc_text(crc32_of(f.1)), f.0))
            == Seq::<(Seq<char>, Seq<char>)>::empty());
        assert(doc.last() == csv_header_text());
        assert(read_lines(doc.drop_last(), true).failure is None);
        assert(line_meaning(doc.last(), 0, true) == LineMeaning::Skip);
    } else {
        let init = files.drop_last();
        let f = files.last();
        assert forall|i: int|
            0 <= i < init.len() implies !(#[trigger] init[i]).0.contains(',') && !init[i].0.contains(
            '"',
        ) by {
            assert(init[i] == files[i]);
        }
        lemma_export_document_reads(init);
        assert(doc.drop_last() == export_document(init));
        let src = crc_text(crc32_of(f.1));
        lemma_crc_text_chars(crc32_of(f.1));
        assert(!src.contains(',')) by {
            if src.contains(',') {
                let k = choose|k: int| 0 <= k < src.len() && src[k] == ',';
                assert(is_hex_char(src[k]));
            }
        }
        assert(!src.contains('"')) by {
            if src.contains('"') {
                let k = choose|k: int| 0 <= k < src.len() && src[k] == '"';
                assert(is_hex_char(src[k]));
            }
        }
        assert(f == files[files.len() - 1]);
        lemma_csv_row_reads_back(f.0, src, src, status_word(Status::Match), files.len());
        assert(doc.last() == csv_row(f.0, src, src, status_word(Status::Match)));
        assert(doc.len() - 1 == files.len());
        assert(line_meaning(doc.last(), files.len(), true) == LineMeaning::Entry(src, f.0));
        let prev = read_lines(doc.drop_last(), true);
        assert(prev.failure is None);
        assert(files.map_values(|g: (Seq<char>, Seq<u8>)| (crc_text(crc32_of(g.1)), g.0)) == init.map_values(
            |g: (Seq<char>, Seq<u8>)| (crc_text(crc32_of(g.1)), g.0),
        ).push((src, f.0)));
    }
}

/// A CSV export in which both passes read every file alike, read back as a
/// manifest and verified against files that still hold the same bytes,
/// yields every file, in order, with its exported checksum and path, and
/// judges every one `OK`; provided no path holds a comma or a double quote.
pub proof fn lemma_export_then_verify(files: Seq<(Seq<char>, Seq<u8>)>)
    requires
        forall|i: int|
            0 <= i < files.len() ==> !(#[trigger] files[i]).0.contains(',') && !files[i].0.contains(
                '"',
            ),
    ensures
        ({
            let read = read_lines(export_document(files), true);
            let outcomes = reverify_outcomes(read.entries, files);
            &&& read.failure is None
            &&& read.short_rows.len() == 0
            &&& read.entries.len() == files.len()
            &&& forall|i: int|
                0 <= i < files.len() ==> (#[trigger] read.entries[i]).1 == files[i].0
                    && read.entries[i].0 == crc_text(crc32_of(files[i].1))
            &&& occurrences(outcomes, Status::Match) == files.len()
            &&& occurrences(outcomes, Status::Mismatch) == 0
            &&& occurrences(outcomes, Status::Unreadable) == 0
        }),
{
    lemma_export_document_reads(files);
    let read = read_lines(export_document(files), true);
    let outcomes = reverify_outcomes(read.entries, files);
    assert forall|i: int| 0 <= i < files.len() implies #[trigger] outcomes[i] == Status::Match by {
        lemma_verify_detects_change(crc32_of(files[i].1), files[i].1);
    }
    assert(!outcomes.contains(Status::Mismatch));
    assert(!outcomes.contains(Status::Unreadable));
    lemma_tally_total(outcomes);
}

} // verus!

verus! {

/// How a verified file is judged: an unreadable file is an error; a
/// checksum judged `OK` is the expected one; when the computed text is a
/// checksum (not the word `ERROR`), equal texts are `OK` and different
/// texts a mismatch.
pub proof fn lemma_verify_judgement(expected: Seq<char>, computed: Seq<char>)
    ensures
        verify_outcome(expected, None) == Status::Unreadable,
        verify_outcome(expected, Some(computed)) == Status::Match ==> computed == expected,
        computed != "ERROR"@ ==> (verify_outcome(expected, Some(computed)) == Status::Match
            <==> computed == expected),
        computed != "ERROR"@ ==> (verify_outcome(expected, Some(computed)) == Status::Mismatch
            <==> computed != expected),
        verify_outcome(expected, Some(computed)) == Status::Unreadable ==> computed == "ERROR"@,
{
}

/// One more outcome adds one to its own count and leaves the other counts.
pub proof fn lemma_tally_push(outcomes: Seq<Status>, x: Status, y: Status)
    ensures
        occurrences(outcomes.push(x), y) == occurrences(outcomes, y) + if x == y {
            1int
        } else {
            0int
        },
{
}

} // verus!
