//! Matching identifier occurrences against the banned words, and the
//! verdict over a whole run.
use vstd::prelude::*;
use crate::haskell::{source_occurrences, HaskellSource};
use crate::line::{excerpt_of, extract_line, LineExcerpt};
use crate::words::{blank_list_gives_no_words, is_whitespace, words_of, BannedWordSet};

verus! {

/// One identifier in a source buffer: its byte span, its row (from 1) and
/// its column (from 0).
#[derive(Clone, Copy, Debug, PartialEq, Eq)]
pub struct Occurrence {
    pub start_byte: usize,
    pub end_byte: usize,
    pub row: usize,
    pub column: usize,
}

/// A banned identifier found: where it stands and the line around it.
pub struct Diagnostic {
    pub row: usize,
    pub column: usize,
    pub excerpt: LineExcerpt,
}

/// A diagnostic as plain values: row, column, and the excerpt's three parts.
pub struct DiagnosticView {
    pub row: usize,
    pub column: usize,
    pub excerpt: (Seq<u8>, Seq<u8>, Seq<u8>),
}

impl View for Diagnostic {
    type V = DiagnosticView;

    open spec fn view(&self) -> DiagnosticView {
        DiagnosticView { row: self.row, column: self.column, excerpt: self.excerpt@ }
    }
}

/// Every span lies inside a buffer of `len` bytes.
pub open spec fn spans_valid(occs: Seq<Occurrence>, len: nat) -> bool {
    forall|i: int| 0 <= i < occs.len() ==> #[trigger] occs[i].start_byte <= occs[i].end_byte
        && occs[i].end_byte <= len
}

/// The text of an occurrence.
pub open spec fn text_of(buf: Seq<u8>, o: Occurrence) -> Seq<u8> {
    buf.subrange(o.start_byte as int, o.end_byte as int)
}

/// An occurrence whose text is, byte for byte, one of the words.
pub open spec fn is_banned(words: Set<Seq<u8>>, buf: Seq<u8>, o: Occurrence) -> bool {
    words.contains(text_of(buf, o))
}

pub open spec fn diagnostic_of(buf: Seq<u8>, o: Occurrence) -> DiagnosticView {
    DiagnosticView {
        row: o.row,
        column: o.column,
        excerpt: excerpt_of(buf, o.start_byte as int, o.end_byte as int),
    }
}

/// One diagnostic for each banned occurrence, in the order of the occurrences.
pub open spec fn diagnostics_of(words: Set<Seq<u8>>, buf: Seq<u8>, occs: Seq<Occurrence>) -> Seq<
    DiagnosticView,
>
    decreases occs.len(),
{
    if occs.len() == 0 {
        Seq::empty()
    } else if is_banned(words, buf, occs.last()) {
        diagnostics_of(words, buf, occs.drop_last()).push(diagnostic_of(buf, occs.last()))
    } else {
        diagnostics_of(words, buf, occs.drop_last())
    }
}

/// The diagnostics of a list, as plain values.
pub open spec fn views(ds: Seq<Diagnostic>) -> Seq<DiagnosticView> {
    ds.map_values(|d: Diagnostic| d@)
}

/// Tests each occurrence against the words, in order, and cuts out the line
/// of each one that is banned.
pub fn scan_occurrences(words: &BannedWordSet, buf: &[u8], occs: &Vec<Occurrence>) -> (r: Vec<
    Diagnostic,
>)
    requires
        spans_valid(occs@, buf@.len()),
    ensures
        views(r@) == diagnostics_of(words@, buf@, occs@),
{
    let mut found: Vec<Diagnostic> = Vec::new();
    let mut i: usize = 0;
    while i < occs.len()
        invariant
            i <= occs@.len(),
            spans_valid(occs@, buf@.len()),
            views(found@) == diagnostics_of(words@, buf@, occs@.subrange(0, i as int)),
        decreases occs@.len() - i,
    {
        let o = occs[i];
        assert(occs@.subrange(0, i as int + 1).drop_last() =~= occs@.subrange(0, i as int));
        assert(occs@.subrange(0, i as int + 1).last() == o);
        assert(o.start_byte <= o.end_byte && o.end_byte <= buf@.len());
        let text = vstd::slice::slice_subrange(buf, o.start_byte, o.end_byte);
        if words.contains(text) {
            let d = Diagnostic { row: o.row, column: o.column, excerpt: extract_line(buf, o.start_byte, o.end_byte) };
            let ghost before = found@;
            found.push(d);
            assert(views(found@) =~= views(before).push(d@));
        }
        i = i + 1;
    }
    assert(occs@.subrange(0, occs@.len() as int) =~= occs@);
    found
}

/// Whether a file, given by its bytes and its occurrences (`None` where it did
/// not parse), holds a banned identifier by the diagnostics it gives.
pub open spec fn file_has_hit(
    words: Set<Seq<u8>>,
    file: (Seq<u8>, Option<Seq<Occurrence>>),
) -> bool {
    match file.1 {
        Some(occs) => diagnostics_of(words, file.0, occs).len() > 0,
        None => false,
    }
}

pub open spec fn occurrences_view(o: &Option<Vec<Occurrence>>) -> Option<Seq<Occurrence>> {
    match o {
        Some(occs) => Some(occs@),
        None => None,
    }
}

/// The verdict after scanning `files` in order from a verdict `seen`, as
/// `Scanner::scan_file` moves it.
pub open spec fn verdict_after(
    seen: bool,
    words: Set<Seq<u8>>,
    files: Seq<(Seq<u8>, Option<Seq<Occurrence>>)>,
) -> bool
    decreases files.len(),
{
    if files.len() == 0 {
        seen
    } else {
        verdict_after(seen, words, files.drop_last()) || file_has_hit(words, files.last())
    }
}

/// A file gives a diagnostic exactly when one of its occurrences is, byte for
/// byte, a banned word; with no words it gives none.
pub proof fn hit_iff_banned_occurrence(words: Set<Seq<u8>>, buf: Seq<u8>, occs: Seq<Occurrence>)
    ensures
        diagnostics_of(words, buf, occs).len() > 0 <==> exists|i: int|
            0 <= i < occs.len() && #[trigger] is_banned(words, buf, occs[i]),
        words.is_empty() ==> diagnostics_of(words, buf, occs).len() == 0,
    decreases occs.len(),
{
    if occs.len() > 0 {
        let rest = occs.drop_last();
        hit_iff_banned_occurrence(words, buf, rest);
        if exists|i: int| 0 <= i < rest.len() && #[trigger] is_banned(words, buf, rest[i]) {
            let i = choose|i: int| 0 <= i < rest.len() && #[trigger] is_banned(words, buf, rest[i]);
            assert(occs[i] == rest[i]);
        }
        if exists|i: int| 0 <= i < occs.len() && #[trigger] is_banned(words, buf, occs[i]) {
            let i = choose|i: int| 0 <= i < occs.len() && #[trigger] is_banned(words, buf, occs[i]);
            if i < rest.len() {
                assert(rest[i] == occs[i]);
            }
        }
    }
}

/// The verdict of a run is true exactly when some occurrence of some file
/// that parsed is a banned word; files that did not parse count for nothing,
/// and with no words the verdict is false whatever the files hold.
pub proof fn verdict_iff_banned_occurrence(
    words: Set<Seq<u8>>,
    files: Seq<(Seq<u8>, Option<Seq<Occurrence>>)>,
)
    ensures
        verdict_after(false, words, files) <==> exists|f: int, i: int|
            0 <= f < files.len() && (#[trigger] files[f]).1 is Some && 0 <= i < files[f].1->0.len()
                && is_banned(words, files[f].0, #[trigger] files[f].1->0[i]),
        words.is_empty() ==> !verdict_after(false, words, files),
    decreases files.len(),
{
    if files.len() > 0 {
        let rest = files.drop_last();
        let last = files.last();
        verdict_iff_banned_occurrence(words, rest);
        if let Some(occs) = last.1 {
            hit_iff_banned_occurrence(words, last.0, occs);
        }
        if exists|f: int, i: int|
            0 <= f < rest.len() && (#[trigger] rest[f]).1 is Some && 0 <= i < rest[f].1->0.len()
                && is_banned(words, rest[f].0, #[trigger] rest[f].1->0[i]) {
            let (f, i) = choose|f: int, i: int|
                0 <= f < rest.len() && (#[trigger] rest[f]).1 is Some && 0 <= i < rest[f].1->0.len()
                    && is_banned(words, rest[f].0, #[trigger] rest[f].1->0[i]);
            assert(files[f] == rest[f]);
        }
        if exists|f: int, i: int|
            0 <= f < files.len() && (#[trigger] files[f]).1 is Some && 0 <= i < files[f].1->0.len()
                && is_banned(words, files[f].0, #[trigger] files[f].1->0[i]) {
            let (f, i) = choose|f: int, i: int|
                0 <= f < files.len() && (#[trigger] files[f]).1 is Some && 0 <= i < files[f].1->0.len()
                    && is_banned(words, files[f].0, #[trigger] files[f].1->0[i]);
            if f < rest.len() {
                assert(rest[f] == files[f]);
            } else {
                let occs = last.1->0;
                assert(is_banned(words, last.0, occs[i]));
            }
        }
    }
}

/// Scanning one more file from the verdict of the files before it gives the
/// verdict of them all: a scanner that starts new and scans files one by one
/// ends with `verdict_after(false, ..)` of the whole list.
pub proof fn verdict_after_one_more(
    seen: bool,
    words: Set<Seq<u8>>,
    files: Seq<(Seq<u8>, Option<Seq<Occurrence>>)>,
    file: (Seq<u8>, Option<Seq<Occurrence>>),
)
    ensures
        verdict_after(seen, words, files.push(file)) == verdict_after(
            verdict_after(seen, words, files),
            words,
            seq![file],
        ),
{
    assert(files.push(file).drop_last() =~= files);
    let one = seq![file];
    let v = verdict_after(seen, words, files);
    assert(one.drop_last() =~= Seq::<(Seq<u8>, Option<Seq<Occurrence>>)>::empty());
    assert(verdict_after(v, words, one.drop_last()) == v);
    assert(one.last() == file);
    assert(files.push(file).last() == file);
}

/// With a word list whose lines are all blank or whitespace, no file gives a
/// diagnostic and the verdict of a run is false, whatever the files hold.
pub proof fn blank_word_list_passes(
    lines: Seq<Seq<char>>,
    files: Seq<(Seq<u8>, Option<Seq<Occurrence>>)>,
    buf: Seq<u8>,
    occs: Seq<Occurrence>,
)
    requires
        forall|i: int, k: int|
            0 <= i < lines.len() && 0 <= k < lines[i].len() ==> is_whitespace(#[trigger] lines[i][k]),
    ensures
        words_of(lines).is_empty(),
        diagnostics_of(words_of(lines), buf, occs).len() == 0,
        !verdict_after(false, words_of(lines), files),
{
    blank_list_gives_no_words(lines);
    hit_iff_banned_occurrence(words_of(lines), buf, occs);
    verdict_iff_banned_occurrence(words_of(lines), files);
}

/// A file that did not parse gives no diagnostic and leaves the verdict of
/// the files before it as it was, whatever its bytes.
pub proof fn unparsed_file_changes_nothing(
    words: Set<Seq<u8>>,
    files: Seq<(Seq<u8>, Option<Seq<Occurrence>>)>,
    buf: Seq<u8>,
)
    ensures
        verdict_after(false, words, files.push((buf, None))) == verdict_after(false, words, files),
{
    assert(files.push((buf, None)).drop_last() =~= files);
}

/// What scanning one file gives: whether this is the first banned
/// identifier of the run (so a heading is due), and the diagnostics.
pub struct FileReport {
    pub announce: bool,
    pub diagnostics: Vec<Diagnostic>,
}

/// The verdict of a run: set at the first banned identifier, never reset.
pub struct Scanner {
    seen_banned_word: bool,
}

impl View for Scanner {
    type V = bool;

    closed spec fn view(&self) -> bool {
        self.seen_banned_word
    }
}

impl Scanner {
    pub fn new() -> (r: Scanner)
        ensures
            !r@,
    {
        Scanner { seen_banned_word: false }
    }

    /// Whether a banned identifier has been found so far.
    pub fn seen_banned_word(&self) -> (r: bool)
        ensures
            r == self@,
    {
        self.seen_banned_word
    }

    /// Scans one file whose occurrences are given, or which did not parse
    /// (`None`): such a file gives nothing and leaves the verdict as it was.
    pub fn scan_file(
        &mut self,
        words: &BannedWordSet,
        buf: &[u8],
        occurrences: &Option<Vec<Occurrence>>,
    ) -> (r: FileReport)
        requires
            occurrences matches Some(occs) ==> spans_valid(occs@, buf@.len()),
        ensures
            occurrences matches Some(occs) ==> views(r.diagnostics@) == diagnostics_of(
                words@,
                buf@,
                occs@,
            ),
            occurrences is None ==> r.diagnostics@.len() == 0,
            final(self)@ == (old(self)@ || r.diagnostics@.len() > 0),
            final(self)@ == verdict_after(old(self)@, words@, seq![(buf@, occurrences_view(occurrences))]),
            r.announce == (!old(self)@ && r.diagnostics@.len() > 0),
    {
        let diagnostics = match occurrences {
            Some(occs) => scan_occurrences(words, buf, occs),
            None => Vec::new(),
        };
        let announce = !self.seen_banned_word && diagnostics.len() > 0;
        if diagnostics.len() > 0 {
            self.seen_banned_word = true;
        }
        proof {
            let files = seq![(buf@, occurrences_view(occurrences))];
            assert(files.drop_last() =~= Seq::<(Seq<u8>, Option<Seq<Occurrence>>)>::empty());
            assert(files.last() == (buf@, occurrences_view(occurrences)));
            assert(verdict_after(old(self)@, words@, files.drop_last()) == old(self)@);
            assert(file_has_hit(words@, files.last()) == (diagnostics@.len() > 0));
            assert(verdict_after(old(self)@, words@, files) == (old(self)@ || diagnostics@.len() > 0));
        }
        FileReport { announce, diagnostics }
    }

    /// Parses `buf` as Haskell and scans its variable occurrences: the
    /// diagnostics are those of `source_occurrences(buf)`, none where `buf`
    /// does not parse, and the verdict moves as in `scan_file`.
    pub fn scan_source(
        &mut self,
        words: &BannedWordSet,
        source: &mut HaskellSource,
        buf: &[u8],
    ) -> (r: FileReport)
        ensures
            source_occurrences(buf@) matches Some(occs) ==> views(r.diagnostics@) == diagnostics_of(
                words@,
                buf@,
                occs,
            ),
            source_occurrences(buf@) is None ==> r.diagnostics@.len() == 0,
            final(self)@ == (old(self)@ || r.diagnostics@.len() > 0),
            final(self)@ == verdict_after(old(self)@, words@, seq![(buf@, source_occurrences(buf@))]),
            r.announce == (!old(self)@ && r.diagnostics@.len() > 0),
    {
        let occurrences = source.occurrences(buf);
        self.scan_file(words, buf, &occurrences)
    }
}

} // verus!
