//! The index parser: turns `Packages` index text into package records.
//!
//! Lines are fed, in order, to a four-state automaton
//! `NeedPackage -> NeedVersion -> NeedFilename -> NeedSha256 -> NeedPackage`.
//! Each state waits for its own field and ignores every other line, so a
//! block that lacks a field stalls the automaton until that field turns up.

use vstd::prelude::*;

use crate::text::{
    chars_of, contains, ends_with, line_spans, lines_of, span_contains, span_ends_with,
    span_starts_with, spans_of, starts_with, substring,
};

verus! {

pub const PACKAGE_FIELD: &'static str = "Package: ";

pub const VERSION_FIELD: &'static str = "Version: ";

pub const FILENAME_FIELD: &'static str = "Filename: ";

pub const SHA256_FIELD: &'static str = "SHA256: ";

/// Marks the file name of a debug package.
pub const DEBUG_MARK: &'static str = "-dbg_";

/// Marks the file name of a debug-symbols package.
pub const DEBUG_SYMBOLS_MARK: &'static str = "-dbgsym_";

/// Index files whose path ends so are the ones that are parsed.
pub const INDEX_SUFFIX: &'static str = "Packages";

/// What the parser waits for next.
#[derive(Clone, Copy, Debug, PartialEq, Eq, Structural)]
pub enum ParseState {
    NeedPackage,
    NeedVersion,
    NeedFilename,
    NeedSha256,
}

/// One artifact to mirror: its SHA-256 digest, as hex, and its path in the
/// repository.
#[derive(Clone, Debug)]
pub struct PackageRecord {
    pub content_hash: String,
    pub repo_path: String,
}

/// A package record as values.
pub struct RecordView {
    pub content_hash: Seq<char>,
    pub repo_path: Seq<char>,
}

impl View for PackageRecord {
    type V = RecordView;

    open spec fn view(&self) -> RecordView {
        RecordView { content_hash: self.content_hash@, repo_path: self.repo_path@ }
    }
}

/// The views of a list of records.
pub open spec fn views(rs: Seq<PackageRecord>) -> Seq<RecordView> {
    rs.map_values(|r: PackageRecord| r@)
}

/// Where the automaton stands after some lines: its state, the file name
/// captured last, and the records emitted so far.
pub struct Scan {
    pub state: ParseState,
    pub filename: Seq<char>,
    pub records: Seq<RecordView>,
}

/// The value of the field `key` on `line`: what follows the key, where the
/// line begins with the key and holds more than it.
pub open spec fn field_value(line: Seq<char>, key: Seq<char>) -> Option<Seq<char>> {
    if line.len() > key.len() && starts_with(line, key) {
        Some(line.skip(key.len() as int))
    } else {
        None
    }
}

/// A path that names a debug or debug-symbols package.
pub open spec fn is_debug_path(path: Seq<char>) -> bool {
    contains(path, DEBUG_MARK@) || contains(path, DEBUG_SYMBOLS_MARK@)
}

pub open spec fn initial_scan() -> Scan {
    Scan { state: ParseState::NeedPackage, filename: Seq::empty(), records: Seq::empty() }
}

/// One transition of the automaton on one line.
pub open spec fn scan_step(s: Scan, line: Seq<char>) -> Scan {
    match s.state {
        ParseState::NeedPackage => {
            if field_value(line, PACKAGE_FIELD@) is Some {
                Scan { state: ParseState::NeedVersion, ..s }
            } else {
                s
            }
        },
        ParseState::NeedVersion => {
            if field_value(line, VERSION_FIELD@) is Some {
                Scan { state: ParseState::NeedFilename, ..s }
            } else {
                s
            }
        },
        ParseState::NeedFilename => {
            match field_value(line, FILENAME_FIELD@) {
                Some(path) => {
                    if is_debug_path(path) {
                        Scan { state: ParseState::NeedPackage, filename: path, ..s }
                    } else {
                        Scan { state: ParseState::NeedSha256, filename: path, ..s }
                    }
                },
                None => s,
            }
        },
        ParseState::NeedSha256 => {
            match field_value(line, SHA256_FIELD@) {
                Some(hash) => Scan {
                    state: ParseState::NeedPackage,
                    records: s.records.push(
                        RecordView { content_hash: hash, repo_path: s.filename },
                    ),
                    ..s
                },
                None => s,
            }
        },
    }
}

/// The automaton run over `lines`, in order.
pub open spec fn scan_lines(lines: Seq<Seq<char>>) -> Scan
    decreases lines.len(),
{
    if lines.len() == 0 {
        initial_scan()
    } else {
        scan_step(scan_lines(lines.drop_last()), lines.last())
    }
}

/// The records of an index text.
pub open spec fn records_of(text: Seq<char>) -> Seq<RecordView> {
    scan_lines(lines_of(text)).records
}

/// Why no record list could be made.
#[derive(Clone, Copy, Debug, PartialEq, Eq, Structural)]
pub enum IndexError {
    /// No index text was given.
    NoIndexFiles,
    /// The index texts hold no record.
    NoRecords,
}

/// The index texts one after another, each followed by a newline.
pub open spec fn joined(texts: Seq<Seq<char>>) -> Seq<char>
    decreases texts.len(),
{
    if texts.len() == 0 {
        Seq::empty()
    } else {
        joined(texts.drop_last()) + texts.last().push('\n')
    }
}

/// The index files to parse: the lines of the index list that end with
/// `Packages`.
pub open spec fn index_paths_of(list: Seq<char>) -> Seq<Seq<char>> {
    lines_of(list).filter(|l: Seq<char>| ends_with(l, INDEX_SUFFIX@))
}

/// The records that every state of the automaton has emitted, and the file
/// name it waits to emit, are free of debug packages.
proof fn lemma_scan_excludes_debug(lines: Seq<Seq<char>>)
    ensures
        forall|i: int|
            0 <= i < scan_lines(lines).records.len() ==> !is_debug_path(
                #[trigger] scan_lines(lines).records[i].repo_path,
            ),
        scan_lines(lines).state == ParseState::NeedSha256 ==> !is_debug_path(
            scan_lines(lines).filename,
        ),
    decreases lines.len(),
{
    if lines.len() > 0 {
        lemma_scan_excludes_debug(lines.drop_last());
        let before = scan_lines(lines.drop_last());
        let after = scan_lines(lines);
        assert forall|i: int| 0 <= i < after.records.len() implies !is_debug_path(
            #[trigger] after.records[i].repo_path,
        ) by {
            if i < before.records.len() {
                assert(after.records[i] == before.records[i]);
            }
        }
    }
}

/// No record parsed from an index text names a debug or debug-symbols
/// package: a path that holds `-dbg_` or `-dbgsym_` never comes out.
pub proof fn lemma_debug_packages_excluded(text: Seq<char>)
    ensures
        forall|i: int|
            0 <= i < records_of(text).len() ==> !contains(
                #[trigger] records_of(text)[i].repo_path,
                DEBUG_MARK@,
            ) && !contains(records_of(text)[i].repo_path, DEBUG_SYMBOLS_MARK@),
{
    lemma_scan_excludes_debug(lines_of(text));
}

/// The paths in an index list that name index files to parse: the lines
/// that end with `Packages`. Compressed variants are left out.
pub fn index_paths(list: &str) -> (r: Vec<String>)
    ensures
        r@.map_values(|p: String| p@) == index_paths_of(list@),
{
    let text = chars_of(list);
    let suffix = chars_of(INDEX_SUFFIX);
    let spans = line_spans(&text);
    let ghost lines = lines_of(text@);
    let ghost keep = |l: Seq<char>| ends_with(l, INDEX_SUFFIX@);
    let mut out: Vec<String> = Vec::new();
    let mut i: usize = 0;
    proof {
        reveal(Seq::filter);
        assert(lines.take(0) =~= Seq::<Seq<char>>::empty());
    }
    assert(out@.map_values(|p: String| p@) =~= lines.take(0).filter(keep));
    while i < spans.len()
        invariant
            spans_of(text@, spans@, lines),
            lines == lines_of(text@),
            text@ == list@,
            suffix@ == INDEX_SUFFIX@,
            keep == (|l: Seq<char>| ends_with(l, INDEX_SUFFIX@)),
            i <= spans@.len(),
            out@.map_values(|p: String| p@) == lines.take(i as int).filter(keep),
        decreases spans@.len() - i,
    {
        let start = spans[i].0;
        let end = spans[i].1;
        let ghost prev = out@;
        assert(text@.subrange(start as int, end as int) == lines[i as int]);
        proof {
            reveal(Seq::filter);
            assert(lines.take(i + 1).drop_last() =~= lines.take(i as int));
        }
        if span_ends_with(&text, start, end, &suffix) {
            out.push(substring(&text, start, end));
            assert(out@.map_values(|p: String| p@) =~= prev.map_values(|p: String| p@).push(
                lines[i as int],
            ));
        }
        i = i + 1;
    }
    assert(lines.take(i as int) =~= lines);
    out
}

/// The records of the given index texts, read as one text in which each is
/// followed by a newline. Fails when no text is given or no record is found.
pub fn collect_records(texts: &Vec<String>) -> (r: Result<Vec<PackageRecord>, IndexError>)
    ensures
        texts@.len() == 0 ==> r == Err::<Vec<PackageRecord>, IndexError>(IndexError::NoIndexFiles),
        texts@.len() > 0 ==> match r {
            Ok(rs) => rs@.len() > 0 && views(rs@) == records_of(
                joined(texts@.map_values(|t: String| t@)),
            ),
            Err(e) => e == IndexError::NoRecords && records_of(
                joined(texts@.map_values(|t: String| t@)),
            ).len() == 0,
        },
{
    if texts.len() == 0 {
        return Err(IndexError::NoIndexFiles);
    }
    let ghost all = texts@.map_values(|t: String| t@);
    let mut text: Vec<char> = Vec::new();
    let mut k: usize = 0;
    assert(all.take(0) =~= Seq::<Seq<char>>::empty());
    while k < texts.len()
        invariant
            k <= texts@.len(),
            all == texts@.map_values(|t: String| t@),
            text@ == joined(all.take(k as int)),
        decreases texts@.len() - k,
    {
        let part = chars_of(texts[k].as_str());
        let mut j: usize = 0;
        let ghost base = text@;
        while j < part.len()
            invariant
                j <= part@.len(),
                text@ == base + part@.take(j as int),
            decreases part@.len() - j,
        {
            text.push(part[j]);
            j = j + 1;
            assert(text@ =~= base + part@.take(j as int));
        }
        text.push('\n');
        assert(all.take(k + 1).drop_last() =~= all.take(k as int));
        assert(part@.take(j as int) =~= all[k as int]);
        assert(text@ =~= joined(all.take(k + 1)));
        k = k + 1;
    }
    assert(all.take(k as int) =~= all);
    let records = parse_chars(&text);
    if records.len() == 0 {
        Err(IndexError::NoRecords)
    } else {
        Ok(records)
    }
}

/// Whether the line `text[start..end]` carries the field `key`.
fn has_field(text: &Vec<char>, start: usize, end: usize, key: &Vec<char>) -> (r: bool)
    requires
        start <= end <= text@.len(),
    ensures
        r == (field_value(text@.subrange(start as int, end as int), key@) is Some),
{
    end - start > key.len() && span_starts_with(text, start, end, key)
}

/// The records of an index text, in the order in which they end.
pub fn parse_records(text: &str) -> (r: Vec<PackageRecord>)
    ensures
        views(r@) == records_of(text@),
{
    let cs = chars_of(text);
    parse_chars(&cs)
}

/// The records of an index text given as characters.
pub fn parse_chars(text: &Vec<char>) -> (r: Vec<PackageRecord>)
    ensures
        views(r@) == records_of(text@),
{
    let package_key = chars_of(PACKAGE_FIELD);
    let version_key = chars_of(VERSION_FIELD);
    let filename_key = chars_of(FILENAME_FIELD);
    let sha256_key = chars_of(SHA256_FIELD);
    let debug_mark = chars_of(DEBUG_MARK);
    let debug_symbols_mark = chars_of(DEBUG_SYMBOLS_MARK);
    let spans = line_spans(text);
    let ghost lines = lines_of(text@);

    let mut out: Vec<PackageRecord> = Vec::new();
    let mut state = ParseState::NeedPackage;
    let mut name_start: usize = 0;
    let mut name_end: usize = 0;
    let mut i: usize = 0;
    assert(lines.take(0) =~= Seq::<Seq<char>>::empty());
    assert(text@.subrange(0, 0) =~= Seq::<char>::empty());
    assert(views(out@) =~= Seq::<RecordView>::empty());
    while i < spans.len()
        invariant
            spans_of(text@, spans@, lines),
            lines == lines_of(text@),
            package_key@ == PACKAGE_FIELD@,
            version_key@ == VERSION_FIELD@,
            filename_key@ == FILENAME_FIELD@,
            sha256_key@ == SHA256_FIELD@,
            debug_mark@ == DEBUG_MARK@,
            debug_symbols_mark@ == DEBUG_SYMBOLS_MARK@,
            i <= spans@.len(),
            name_start <= name_end <= text@.len(),
            scan_lines(lines.take(i as int)) == (Scan {
                state,
                filename: text@.subrange(name_start as int, name_end as int),
                records: views(out@),
            }),
        decreases spans@.len() - i,
    {
        let start = spans[i].0;
        let end = spans[i].1;
        let ghost line = lines[i as int];
        let ghost before = scan_lines(lines.take(i as int));
        assert(text@.subrange(start as int, end as int) == line);
        assert(lines.take(i + 1).drop_last() =~= lines.take(i as int));
        assert(scan_lines(lines.take(i + 1)) == scan_step(before, line));
        match state {
            ParseState::NeedPackage => {
                if has_field(text, start, end, &package_key) {
                    state = ParseState::NeedVersion;
                }
            },
            ParseState::NeedVersion => {
                if has_field(text, start, end, &version_key) {
                    state = ParseState::NeedFilename;
                }
            },
            ParseState::NeedFilename => {
                if has_field(text, start, end, &filename_key) {
                    let from = start + filename_key.len();
                    assert(text@.subrange(from as int, end as int) =~= line.skip(
                        filename_key@.len() as int,
                    ));
                    let debug = span_contains(text, from, end, &debug_mark) || span_contains(
                        text,
                        from,
                        end,
                        &debug_symbols_mark,
                    );
                    name_start = from;
                    name_end = end;
                    if debug {
                        state = ParseState::NeedPackage;
                    } else {
                        state = ParseState::NeedSha256;
                    }
                }
            },
            ParseState::NeedSha256 => {
                if has_field(text, start, end, &sha256_key) {
                    let from = start + sha256_key.len();
                    assert(text@.subrange(from as int, end as int) =~= line.skip(
                        sha256_key@.len() as int,
                    ));
                    let record = PackageRecord {
                        content_hash: substring(text, from, end),
                        repo_path: substring(text, name_start, name_end),
                    };
                    let ghost old_out = out@;
                    out.push(record);
                    assert(views(out@) =~= views(old_out).push(record@));
                    state = ParseState::NeedPackage;
                }
            },
        }
        i = i + 1;
    }
    assert(lines.take(i as int) =~= lines);
    out
}

} // verus!
