//! What to do with the command line: the mode, each path argument, and
//! which files found under a directory are kept.

use vstd::prelude::*;
use crate::text::{chars_of, eq_ignore_ascii_case, str_eq_ignore_ascii_case};

verus! {

/// The mode of a run. A benchmark takes precedence over verification, which
/// takes precedence over hashing; hashing exports a report when asked to.
#[derive(PartialEq, Eq, Structural, Clone, Copy)]
pub enum Mode {
    Benchmark,
    Verify,
    Export,
    Hash,
}

/// The mode of a run, given which of `--bench`, `--verify` and `--export` were given.
pub fn choose_mode(bench: bool, verify: bool, export: bool) -> (m: Mode)
    ensures
        bench ==> m == Mode::Benchmark,
        !bench && verify ==> m == Mode::Verify,
        !bench && !verify && export ==> m == Mode::Export,
        !bench && !verify && !export ==> m == Mode::Hash,
{
    if bench {
        Mode::Benchmark
    } else if verify {
        Mode::Verify
    } else if export {
        Mode::Export
    } else {
        Mode::Hash
    }
}

/// Whether a path argument is a glob pattern: it holds `*`, `?` or `[`.
pub open spec fn is_pattern(s: Seq<char>) -> bool {
    s.contains('*') || s.contains('?') || s.contains('[')
}

/// What to do with one path argument.
#[derive(PartialEq, Eq, Structural, Clone, Copy)]
pub enum InputAction {
    /// Walk the directory and take every file in it (recursive mode).
    WalkDirectory,
    /// Expand the glob pattern and take every file it matches.
    ExpandPattern,
    /// Take the file.
    AddFile,
    /// Fail: a directory was given without `--recursive`.
    DirectoryNeedsRecursive,
    /// Fail: the argument names no file.
    NotAFile,
}

/// Whether a string is a glob pattern (see `is_pattern`).
pub fn has_pattern_chars(s: &str) -> (b: bool)
    ensures
        b == is_pattern(s@),
{
    let v = chars_of(s);
    let mut i: usize = 0;
    while i < v.len()
        invariant
            v@ == s@,
            i <= v@.len(),
            forall|k: int| 0 <= k < i ==> v@[k] != '*' && v@[k] != '?' && v@[k] != '[',
        decreases v.len() - i,
    {
        if v[i] == '*' || v[i] == '?' || v[i] == '[' {
            assert(v@[i as int] == v@[i as int]);
            return true;
        }
        i = i + 1;
    }
    assert(!s@.contains('*') && !s@.contains('?') && !s@.contains('['));
    false
}

/// Decides what to do with the path argument `arg`: a directory is walked in
/// recursive mode and refused otherwise; else a glob pattern is expanded;
/// else an existing file is taken; anything else is refused.
pub fn classify_input(arg: &str, is_dir: bool, is_file: bool, recursive: bool) -> (a: InputAction)
    ensures
        a == (if is_dir {
            if recursive {
                InputAction::WalkDirectory
            } else {
                InputAction::DirectoryNeedsRecursive
            }
        } else if is_pattern(arg@) {
            InputAction::ExpandPattern
        } else if is_file {
            InputAction::AddFile
        } else {
            InputAction::NotAFile
        }),
{
    if is_dir {
        if recursive {
            InputAction::WalkDirectory
        } else {
            InputAction::DirectoryNeedsRecursive
        }
    } else if has_pattern_chars(arg) {
        InputAction::ExpandPattern
    } else if is_file {
        InputAction::AddFile
    } else {
        InputAction::NotAFile
    }
}

/// Whether a file found in a directory is kept, given the `--ext` filters and
/// the file's extension (`None` when it has none, or none that is UTF-8):
/// without filters every file is kept; with filters, a file whose extension
/// equals one of them up to ASCII case.
pub fn extension_selected(filters: &Vec<String>, ext: Option<&str>) -> (b: bool)
    ensures
        b == (filters@.len() == 0 || (ext matches Some(e) && exists|i: int|
            0 <= i < filters@.len() && eq_ignore_ascii_case(#[trigger] filters@[i]@, e@))),
{
    if filters.len() == 0 {
        return true;
    }
    match ext {
        None => false,
        Some(e) => {
            let mut i: usize = 0;
            while i < filters.len()
                invariant
                    ext == Some(e),
                    i <= filters@.len(),
                    forall|k: int|
                        0 <= k < i ==> !eq_ignore_ascii_case(#[trigger] filters@[k]@, e@),
                decreases filters.len() - i,
            {
                if str_eq_ignore_ascii_case(filters[i].as_str(), e) {
                    assert(eq_ignore_ascii_case(filters@[i as int]@, e@));
                    return true;
                }
                i = i + 1;
            }
            false
        },
    }
}

/// Whether a report file is written as CSV: its extension is `csv` in any
/// ASCII case (`ext` is `None` when it has no UTF-8 extension).
pub fn is_csv_extension(ext: Option<&str>) -> (b: bool)
    ensures
        b == (ext matches Some(e) && eq_ignore_ascii_case(e@, seq!['c', 's', 'v'])),
{
    match ext {
        None => false,
        Some(e) => {
            let csv: [char; 3] = ['c', 's', 'v'];
            assert(csv@ == seq!['c', 's', 'v']);
            let v = chars_of(e);
            crate::text::chars_eq_ignore_ascii_case(v.as_slice(), csv.as_slice())
        },
    }
}

/// Why the file list is refused after all arguments were taken.
pub enum CollectError {
    /// No file was found at all.
    NoFilesFound,
}

/// The outcome of collecting `found` files: an error when there are none.
pub fn require_files(found: usize) -> (r: Result<usize, CollectError>)
    ensures
        found == 0 ==> r matches Err(CollectError::NoFilesFound),
        found > 0 ==> r == Ok::<usize, CollectError>(found),
{
    if found == 0 {
        Err(CollectError::NoFilesFound)
    } else {
        Ok(found)
    }
}

} // verus!

verus! {

/// A path argument is a glob pattern exactly when some position of it holds
/// `*`, `?` or `[`, wherever that position is.
pub proof fn lemma_pattern_anywhere(s: Seq<char>)
    ensures
        is_pattern(s) <==> exists|i: int|
            0 <= i < s.len() && (#[trigger] s[i] == '*' || s[i] == '?' || s[i] == '['),
{
    if exists|i: int| 0 <= i < s.len() && (#[trigger] s[i] == '*' || s[i] == '?' || s[i] == '[') {
        let i = choose|i: int|
            0 <= i < s.len() && (#[trigger] s[i] == '*' || s[i] == '?' || s[i] == '[');
        assert(s.contains(s[i]));
    }
}

/// Joining two texts gives a pattern exactly when one of them is a pattern.
pub proof fn lemma_pattern_concat(a: Seq<char>, b: Seq<char>)
    ensures
        is_pattern(a + b) == (is_pattern(a) || is_pattern(b)),
{
    lemma_pattern_anywhere(a);
    lemma_pattern_anywhere(b);
    lemma_pattern_anywhere(a + b);
    let s = a + b;
    if exists|i: int| 0 <= i < s.len() && (#[trigger] s[i] == '*' || s[i] == '?' || s[i] == '[') {
        let i = choose|i: int|
            0 <= i < s.len() && (#[trigger] s[i] == '*' || s[i] == '?' || s[i] == '[');
        if i < a.len() {
            assert(a[i] == s[i]);
        } else {
            assert(b[i - a.len()] == s[i]);
        }
    }
    if is_pattern(a) {
        let i = choose|i: int|
            0 <= i < a.len() && (#[trigger] a[i] == '*' || a[i] == '?' || a[i] == '[');
        assert(s[i] == a[i]);
    }
    if is_pattern(b) {
        let i = choose|i: int|
            0 <= i < b.len() && (#[trigger] b[i] == '*' || b[i] == '?' || b[i] == '[');
        assert(s[i + a.len()] == b[i]);
    }
}

} // verus!
