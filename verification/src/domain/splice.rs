//! Cairn edits only the bytes it owns.
//!
//! The file being edited belongs to the machine and to whatever else writes to
//! it. Cairn marks a region, writes inside it, and leaves every other byte
//! exactly as it found them — including line endings it did not choose, a
//! byte-order mark it did not write, and a missing final newline.
//!
//! This module works on raw bytes and never on lines of text. A hosts file is
//! not guaranteed to be UTF-8, and decoding it would be a way to change it.
use vstd::prelude::*;

use crate::domain::entries::{eol_bytes, LineEnding};

verus! {

// ---------------------------------------------------------------------------
// The markers
// ---------------------------------------------------------------------------

/// `# >>> Cairn: protected sites. Managed automatically. >>>`, the line that
/// opens Cairn's region.
#[verifier::opaque]
pub open spec fn begin_marker_spec() -> Seq<u8> {
    seq![
        35u8, 32, 62, 62, 62, 32, 67, 97, 105, 114, 110, 58, 32, 112, 114, 111, 116, 101, 99,
        116, 101, 100, 32, 115, 105, 116, 101, 115, 46, 32, 77, 97, 110, 97, 103, 101, 100, 32,
        97, 117, 116, 111, 109, 97, 116, 105, 99, 97, 108, 108, 121, 46, 32, 62, 62, 62,
    ]
}

/// `# <<< Cairn: end of protected sites. <<<`, the line that closes it.
#[verifier::opaque]
pub open spec fn end_marker_spec() -> Seq<u8> {
    seq![
        35u8, 32, 60, 60, 60, 32, 67, 97, 105, 114, 110, 58, 32, 101, 110, 100, 32, 111, 102,
        32, 112, 114, 111, 116, 101, 99, 116, 101, 100, 32, 115, 105, 116, 101, 115, 46, 32, 60,
        60, 60,
    ]
}

/// The line that opens Cairn's region. Namespaced, and readable by whoever
/// opens the file wondering what wrote this.
pub fn begin_marker() -> (marker: &'static [u8])
    ensures
        marker@ == begin_marker_spec(),
{
    let marker: &'static [u8] = &[
        35u8, 32, 62, 62, 62, 32, 67, 97, 105, 114, 110, 58, 32, 112, 114, 111, 116, 101, 99,
        116, 101, 100, 32, 115, 105, 116, 101, 115, 46, 32, 77, 97, 110, 97, 103, 101, 100, 32,
        97, 117, 116, 111, 109, 97, 116, 105, 99, 97, 108, 108, 121, 46, 32, 62, 62, 62,
    ];
    assert(marker@ =~= begin_marker_spec()) by {
        reveal(begin_marker_spec);
    }
    marker
}

/// The line that closes Cairn's region.
pub fn end_marker() -> (marker: &'static [u8])
    ensures
        marker@ == end_marker_spec(),
{
    let marker: &'static [u8] = &[
        35u8, 32, 60, 60, 60, 32, 67, 97, 105, 114, 110, 58, 32, 101, 110, 100, 32, 111, 102,
        32, 112, 114, 111, 116, 101, 99, 116, 101, 100, 32, 115, 105, 116, 101, 115, 46, 32, 60,
        60, 60,
    ];
    assert(marker@ =~= end_marker_spec()) by {
        reveal(end_marker_spec);
    }
    marker
}

// ---------------------------------------------------------------------------
// Errors and results
// ---------------------------------------------------------------------------

/// Why a file was left alone.
///
/// Every variant here means Cairn did not write. When the region cannot be
/// understood, the answer is to report it and touch nothing — never to guess,
/// and never to start a second region.
#[derive(Clone, Copy, PartialEq, Eq, Debug, Structural)]
pub enum SpliceError {
    /// An opening marker with no closing marker after it.
    Unclosed,
    /// A closing marker before any opening marker.
    Unopened,
    /// More than one opening marker. A previous write was interrupted, or
    /// something else copied the region.
    Duplicated,
}

/// What a splice error says, in words.
pub open spec fn splice_error_text(problem: SpliceError) -> Seq<char> {
    match problem {
        SpliceError::Unclosed => "Cairn's section in the system file has no closing line"@,
        SpliceError::Unopened => "Cairn's section in the system file has no opening line"@,
        SpliceError::Duplicated => "the system file contains more than one Cairn section"@,
    }
}

impl SpliceError {
    /// What went wrong, in words.
    pub fn to_string(&self) -> (text: String)
        ensures
            text@ == splice_error_text(*self),
    {
        let text = match self {
            SpliceError::Unclosed => "Cairn's section in the system file has no closing line",
            SpliceError::Unopened => "Cairn's section in the system file has no opening line",
            SpliceError::Duplicated => "the system file contains more than one Cairn section",
        };
        let chars = crate::text::chars_of(text);
        crate::text::string_of(chars.as_slice())
    }
}

/// A located Cairn region, as a byte range over the original.
///
/// `start` reaches back over the newline in front of the opening marker when
/// there is one. Whether that newline was Cairn's or the file's own cannot be
/// told by looking — the change inventory records it, and [`remove`] is told
/// which it was.
#[derive(Clone, Copy, PartialEq, Eq, Debug, Structural)]
pub struct Section {
    /// The newline in front of the marker, if any; otherwise the marker.
    pub start: usize,
    /// One past the end of the closing marker's line.
    pub end: usize,
    /// True when `start` reaches back over a newline.
    pub preceded_by_newline: bool,
}

/// The result of writing the region.
#[derive(Clone, PartialEq, Eq, Debug)]
pub struct Spliced {
    pub bytes: Vec<u8>,
    /// True when Cairn added a newline to separate its region from a file that
    /// did not end with one. Recorded in the change inventory so teardown can
    /// remove exactly what was added.
    pub separator_added: bool,
}

// ---------------------------------------------------------------------------
// The byte-level model
// ---------------------------------------------------------------------------

/// `needle` occurs in `haystack` starting at `at`.
pub open spec fn matches_at(haystack: Seq<u8>, needle: Seq<u8>, at: int) -> bool {
    &&& 0 <= at
    &&& at + needle.len() <= haystack.len()
    &&& haystack.subrange(at, at + needle.len()) == needle
}

/// The occurrences of `needle` found by reading `haystack` left to right from
/// `from`, resuming after each occurrence found.
pub open spec fn scan(haystack: Seq<u8>, needle: Seq<u8>, from: int) -> Seq<int>
    decreases haystack.len() - from,
{
    if from < 0 || needle.len() == 0 || from + needle.len() > haystack.len() {
        Seq::empty()
    } else if matches_at(haystack, needle, from) {
        seq![from] + scan(haystack, needle, from + needle.len())
    } else {
        scan(haystack, needle, from + 1)
    }
}

/// Every occurrence of `needle` in `haystack`, left to right.
pub open spec fn occurrences(haystack: Seq<u8>, needle: Seq<u8>) -> Seq<int> {
    scan(haystack, needle, 0)
}

/// The first element of `positions` greater than `after`.
pub open spec fn first_greater(positions: Seq<int>, after: int) -> Option<int>
    decreases positions.len(),
{
    if positions.len() == 0 {
        None
    } else if positions[0] > after {
        Some(positions[0])
    } else {
        first_greater(positions.drop_first(), after)
    }
}

/// How many line feeds in `bytes[..n]` are preceded by a carriage return.
pub open spec fn crlf_count(bytes: Seq<u8>, n: int) -> int
    decreases n,
{
    if n <= 0 {
        0
    } else {
        crlf_count(bytes, n - 1) + if bytes[n - 1] == 10 && n - 1 > 0 && bytes[n - 2] == 13 {
            1int
        } else {
            0int
        }
    }
}

/// How many line feeds in `bytes[..n]` stand alone.
pub open spec fn lf_count(bytes: Seq<u8>, n: int) -> int
    decreases n,
{
    if n <= 0 {
        0
    } else {
        lf_count(bytes, n - 1) + if bytes[n - 1] == 10 && !(n - 1 > 0 && bytes[n - 2] == 13) {
            1int
        } else {
            0int
        }
    }
}

/// The line ending a byte string uses most: CRLF only when it strictly
/// outnumbers LF.
pub open spec fn line_ending_of(bytes: Seq<u8>) -> LineEnding {
    if crlf_count(bytes, bytes.len() as int) > lf_count(bytes, bytes.len() as int) {
        LineEnding::Crlf
    } else {
        LineEnding::Lf
    }
}

/// Where a region really ends: past the closing marker and the line ending
/// that follows it.
pub open spec fn section_end(bytes: Seq<u8>, close: int) -> int {
    let after_marker = close + end_marker_spec().len();
    let after_cr = if after_marker < bytes.len() && bytes[after_marker] == 13 {
        after_marker + 1
    } else {
        after_marker
    };
    if after_cr < bytes.len() && bytes[after_cr] == 10 {
        after_cr + 1
    } else {
        after_cr
    }
}

/// Where a region starts, counting the line ending in front of the opening
/// marker, and whether there was one.
pub open spec fn section_start(bytes: Seq<u8>, open: int) -> (int, bool) {
    if open > 0 && bytes[open - 1] == 10 {
        if open - 1 > 0 && bytes[open - 2] == 13 {
            (open - 2, true)
        } else {
            (open - 1, true)
        }
    } else {
        (open, false)
    }
}

/// Cairn's region in `bytes`, if it is there and can be understood.
pub open spec fn section_of(bytes: Seq<u8>) -> Result<Option<Section>, SpliceError> {
    let opens = occurrences(bytes, begin_marker_spec());
    let closes = occurrences(bytes, end_marker_spec());
    if opens.len() > 1 {
        Err(SpliceError::Duplicated)
    } else if opens.len() == 0 {
        if closes.len() == 0 {
            Ok(None)
        } else {
            Err(SpliceError::Unopened)
        }
    } else if closes.len() > 0 && closes[0] < opens[0] {
        Err(SpliceError::Unopened)
    } else {
        match first_greater(closes, opens[0]) {
            None => Err(SpliceError::Unclosed),
            Some(close) => {
                let (start, preceded) = section_start(bytes, opens[0]);
                Ok(
                    Some(
                        Section {
                            start: start as usize,
                            end: section_end(bytes, close) as usize,
                            preceded_by_newline: preceded,
                        },
                    ),
                )
            },
        }
    }
}

/// The first position at or after `at` where the opening marker starts, or
/// the end of `bytes` when there is none.
pub open spec fn marker_from(bytes: Seq<u8>, at: int) -> int
    decreases bytes.len() - at,
{
    if at >= bytes.len() || matches_at(bytes, begin_marker_spec(), at) {
        at
    } else {
        marker_from(bytes, at + 1)
    }
}

/// Where Cairn's region really begins: at the marker, or one line ending
/// earlier when that line ending was Cairn's own.
///
/// Cairn adds a CRLF only in front of a region written into a file that reads
/// as CRLF, and an LF otherwise. So a carriage return in front of that line
/// feed is Cairn's only when the bytes around the region, with it kept, still
/// read as CRLF; otherwise it is a lone carriage return the file ended with,
/// and it stays.
pub open spec fn region_start_of(bytes: Seq<u8>, section: Section, separator_added: bool) -> int {
    let marker = marker_from(bytes, section.start as int);
    if separator_added && section.preceded_by_newline {
        if section.start + 2 == marker && line_ending_of(
            bytes.subrange(0, marker - 1) + bytes.subrange(section.end as int, bytes.len() as int),
        ) == LineEnding::Lf {
            marker - 1
        } else {
            section.start as int
        }
    } else {
        marker
    }
}

/// Everything in `bytes` that is not Cairn's region.
pub open spec fn outside_of(bytes: Seq<u8>, separator_added: bool) -> Result<Seq<u8>, SpliceError> {
    match section_of(bytes) {
        Err(problem) => Err(problem),
        Ok(None) => Ok(bytes),
        Ok(Some(section)) => {
            let start = region_start_of(bytes, section, separator_added);
            Ok(bytes.subrange(0, start) + bytes.subrange(section.end as int, bytes.len() as int))
        },
    }
}

/// The line ending of the bytes around Cairn's region (of the whole file when
/// the region cannot be read).
pub open spec fn line_ending_outside(bytes: Seq<u8>) -> LineEnding {
    match outside_of(bytes, false) {
        Ok(surroundings) => line_ending_of(surroundings),
        Err(_) => line_ending_of(bytes),
    }
}

/// Cairn's whole region around `body`, written with line ending `eol`.
pub open spec fn region_with(body: Seq<u8>, eol: Seq<u8>) -> Seq<u8> {
    begin_marker_spec() + eol + body + end_marker_spec() + eol
}

/// What writing `body` into `original` produces: the new bytes, and whether a
/// separating line ending was added in front of a newly created region.
pub open spec fn applied(original: Seq<u8>, body: Seq<u8>) -> Result<(Seq<u8>, bool), SpliceError> {
    let eol = eol_bytes(line_ending_outside(original));
    let region = region_with(body, eol);
    match section_of(original) {
        Err(problem) => Err(problem),
        Ok(Some(section)) => {
            let marker_start = marker_from(original, section.start as int);
            Ok(
                (
                    original.subrange(0, marker_start) + region + original.subrange(
                        section.end as int,
                        original.len() as int,
                    ),
                    false,
                ),
            )
        },
        Ok(None) => {
            let separator = original.len() > 0 && original.last() != 10;
            if separator {
                Ok((original + eol + region, true))
            } else {
                Ok((original + region, false))
            }
        },
    }
}

// ---------------------------------------------------------------------------
// Executable code
// ---------------------------------------------------------------------------

/// Whether the file uses CRLF: counted over the bytes *around* Cairn's region
/// only, so the answer never depends on how many entries Cairn wrote.
///
/// A file with no line ending at all is treated as LF.
pub fn detect_line_ending_outside(original: &[u8]) -> (ending: LineEnding)
    ensures
        ending == line_ending_outside(original@),
{
    match outside(original, false) {
        Ok(surroundings) => detect_line_ending(surroundings.as_slice()),
        Err(_) => detect_line_ending(original),
    }
}

/// Count line endings in a byte string exactly as given.
pub fn detect_line_ending(original: &[u8]) -> (ending: LineEnding)
    ensures
        ending == line_ending_of(original@),
{
    let mut crlf: usize = 0;
    let mut lf: usize = 0;
    let mut index: usize = 0;
    while index < original.len()
        invariant
            index <= original.len(),
            crlf == crlf_count(original@, index as int),
            lf == lf_count(original@, index as int),
            crlf + lf <= index,
        decreases original.len() - index,
    {
        if original[index] == 10u8 {
            if index > 0 && original[index - 1] == 13u8 {
                crlf = crlf + 1;
            } else {
                lf = lf + 1;
            }
        }
        index = index + 1;
    }
    if crlf > lf {
        LineEnding::Crlf
    } else {
        LineEnding::Lf
    }
}

/// Whether `needle` occurs in `haystack` at `at`.
fn matches_here(haystack: &[u8], needle: &[u8], at: usize) -> (found: bool)
    requires
        at + needle@.len() <= haystack@.len(),
    ensures
        found == matches_at(haystack@, needle@, at as int),
{
    let haystack_len = haystack.len();
    let mut k: usize = 0;
    while k < needle.len()
        invariant
            k <= needle@.len(),
            haystack_len == haystack@.len(),
            at + needle@.len() <= haystack@.len(),
            forall|j: int| 0 <= j < k ==> haystack@[at + j] == needle@[j],
        decreases needle.len() - k,
    {
        if haystack[at + k] != needle[k] {
            assert(haystack@.subrange(at as int, at + needle@.len())[k as int] != needle@[k as int]);
            return false;
        }
        k = k + 1;
    }
    assert(haystack@.subrange(at as int, at + needle@.len()) =~= needle@);
    true
}

/// The positions of `needle` in `haystack`, as integers.
pub open spec fn positions(found: Seq<usize>) -> Seq<int> {
    found.map_values(|at: usize| at as int)
}

fn find_all(haystack: &[u8], needle: &[u8]) -> (found: Vec<usize>)
    ensures
        positions(found@) == occurrences(haystack@, needle@),
{
    let mut found: Vec<usize> = Vec::new();
    if needle.len() == 0 || haystack.len() < needle.len() {
        assert(positions(found@) =~= Seq::<int>::empty());
        return found;
    }
    let mut at: usize = 0;
    while at <= haystack.len() - needle.len()
        invariant
            needle@.len() > 0,
            needle@.len() <= haystack@.len(),
            at <= haystack@.len(),
            positions(found@) + scan(haystack@, needle@, at as int) == occurrences(
                haystack@,
                needle@,
            ),
        decreases haystack.len() - at,
    {
        let ghost before = found@;
        if matches_here(haystack, needle, at) {
            found.push(at);
            assert(positions(found@) =~= positions(before) + seq![at as int]);
            assert(positions(found@) + scan(haystack@, needle@, at + needle@.len()) =~= positions(
                before,
            ) + scan(haystack@, needle@, at as int));
            at = at + needle.len();
        } else {
            at = at + 1;
        }
    }
    assert(scan(haystack@, needle@, at as int) =~= Seq::<int>::empty());
    assert(positions(found@) =~= positions(found@) + scan(haystack@, needle@, at as int));
    found
}

proof fn lemma_first_greater(positions: Seq<int>, after: int, k: int)
    requires
        0 <= k <= positions.len(),
        forall|j: int| 0 <= j < k ==> positions[j] <= after,
    ensures
        k < positions.len() && positions[k] > after ==> first_greater(positions, after) == Some(
            positions[k],
        ),
        k == positions.len() ==> first_greater(positions, after) == None::<int>,
    decreases k,
{
    if k > 0 {
        let rest = positions.drop_first();
        assert forall|j: int| 0 <= j < k - 1 implies rest[j] <= after by {
            assert(rest[j] == positions[j + 1]);
        }
        lemma_first_greater(rest, after, k - 1);
    }
}

/// Locate Cairn's region, if it is there.
pub fn find_section(original: &[u8]) -> (result: Result<Option<Section>, SpliceError>)
    ensures
        result == section_of(original@),
{
    let original_len = original.len();
    proof {
        lemma_marker_facts();
    }
    let opens = find_all(original, begin_marker());
    let closes = find_all(original, end_marker());
    let ghost open_positions = positions(opens@);
    let ghost close_positions = positions(closes@);
    assert(open_positions.len() == opens@.len());
    assert(close_positions.len() == closes@.len());

    if opens.len() > 1 {
        return Err(SpliceError::Duplicated);
    }
    if opens.len() == 0 {
        return if closes.len() == 0 {
            Ok(None)
        } else {
            Err(SpliceError::Unopened)
        };
    }
    let open = opens[0];
    assert(open_positions[0] == open as int);
    if closes.len() > 0 && closes[0] < open {
        assert(close_positions[0] == closes@[0] as int);
        return Err(SpliceError::Unopened);
    }
    assert(closes.len() > 0 ==> close_positions[0] == closes@[0] as int);

    let mut k: usize = 0;
    while k < closes.len() && closes[k] <= open
        invariant
            k <= closes@.len(),
            close_positions == positions(closes@),
            forall|j: int| 0 <= j < k ==> close_positions[j] <= open,
        decreases closes.len() - k,
    {
        assert(close_positions[k as int] == closes@[k as int] as int);
        k = k + 1;
    }
    proof {
        lemma_first_greater(close_positions, open as int, k as int);
    }
    if k == closes.len() {
        return Err(SpliceError::Unclosed);
    }
    let close = closes[k];
    assert(close_positions[k as int] == close as int);
    proof {
        lemma_scan_bounds(original@, end_marker_spec(), 0);
        assert(0 <= close_positions[k as int] <= original@.len() - end_marker_spec().len());
    }

    // The region runs to the end of the closing marker's own line, so the
    // line ending that terminates it belongs to Cairn and leaves with it.
    let mut end = close + 40;
    if end < original.len() && original[end] == 13u8 {
        end = end + 1;
    }
    if end < original.len() && original[end] == 10u8 {
        end = end + 1;
    }

    // If Cairn appended its region to a file that did not end in a newline,
    // it contributed the separator. Claiming it here is what makes removal
    // exact.
    let mut start = open;
    let mut preceded_by_newline = false;
    if start > 0 && original[start - 1] == 10u8 {
        start = start - 1;
        if start > 0 && original[start - 1] == 13u8 {
            start = start - 1;
        }
        preceded_by_newline = true;
    }

    Ok(Some(Section { start, end, preceded_by_newline }))
}

/// Every position a scan returns is one where the needle fits.
proof fn lemma_scan_bounds(haystack: Seq<u8>, needle: Seq<u8>, from: int)
    ensures
        forall|j: int|
            0 <= j < scan(haystack, needle, from).len() ==> #[trigger] scan(
                haystack,
                needle,
                from,
            )[j] >= from && matches_at(haystack, needle, scan(haystack, needle, from)[j]),
    decreases haystack.len() - from,
{
    if from < 0 || needle.len() == 0 || from + needle.len() > haystack.len() {
    } else if matches_at(haystack, needle, from) {
        lemma_scan_bounds(haystack, needle, from + needle.len());
        let rest = scan(haystack, needle, from + needle.len());
        assert(scan(haystack, needle, from) == seq![from] + rest);
        assert forall|j: int| 0 <= j < scan(haystack, needle, from).len() implies #[trigger] scan(
            haystack,
            needle,
            from,
        )[j] >= from && matches_at(haystack, needle, scan(haystack, needle, from)[j]) by {
            if j > 0 {
                assert(scan(haystack, needle, from)[j] == rest[j - 1]);
            } else {
                assert(scan(haystack, needle, from)[j] == from);
            }
        }
    } else {
        lemma_scan_bounds(haystack, needle, from + 1);
        assert(scan(haystack, needle, from) == scan(haystack, needle, from + 1));
    }
}

/// Append `source[from..to]` to `out`.
fn push_range(out: &mut Vec<u8>, source: &[u8], from: usize, to: usize)
    requires
        from <= to <= source@.len(),
    ensures
        final(out)@ == old(out)@ + source@.subrange(from as int, to as int),
{
    let mut at = from;
    while at < to
        invariant
            from <= at <= to,
            to <= source@.len(),
            out@ == old(out)@ + source@.subrange(from as int, at as int),
        decreases to - at,
    {
        out.push(source[at]);
        assert(source@.subrange(from as int, at + 1) =~= source@.subrange(from as int, at as int)
            + seq![source@[at as int]]);
        at = at + 1;
    }
}

/// Step forward from a region start that may include a separator, to the
/// marker itself.
fn find_marker_start(bytes: &[u8], from: usize) -> (at: usize)
    requires
        from <= bytes@.len(),
    ensures
        at as int == marker_from(bytes@, from as int),
        from <= at <= bytes@.len(),
{
    let marker = begin_marker();
    let mut at = from;
    while at < bytes.len() && !(marker.len() <= bytes.len() - at && matches_here(bytes, marker, at))
        invariant
            from <= at <= bytes@.len(),
            marker@ == begin_marker_spec(),
            marker_from(bytes@, at as int) == marker_from(bytes@, from as int),
        decreases bytes.len() - at,
    {
        at = at + 1;
    }
    at
}

/// Where Cairn's region really begins.
fn region_start(bytes: &[u8], section: Section, separator_added: bool) -> (start: usize)
    requires
        section.start <= section.end <= bytes@.len(),
    ensures
        start as int == region_start_of(bytes@, section, separator_added),
        start <= bytes@.len(),
{
    let marker = find_marker_start(bytes, section.start);
    if separator_added && section.preceded_by_newline {
        if marker >= 2 && section.start == marker - 2 {
            let mut kept: Vec<u8> = Vec::new();
            push_range(&mut kept, bytes, 0, marker - 1);
            push_range(&mut kept, bytes, section.end, bytes.len());
            match detect_line_ending(kept.as_slice()) {
                LineEnding::Lf => marker - 1,
                LineEnding::Crlf => section.start,
            }
        } else {
            section.start
        }
    } else {
        marker
    }
}

/// A section that was found lies within the bytes it was found in.
pub proof fn lemma_section_bounds(bytes: Seq<u8>)
    requires
        bytes.len() <= usize::MAX,
    ensures
        section_of(bytes) matches Ok(Some(section)) ==> section.start <= section.end
            <= bytes.len() && marker_from(bytes, section.start as int) <= section.end,
{
    if let Ok(Some(section)) = section_of(bytes) {
        let opens = occurrences(bytes, begin_marker_spec());
        let closes = occurrences(bytes, end_marker_spec());
        lemma_scan_bounds(bytes, begin_marker_spec(), 0);
        lemma_scan_bounds(bytes, end_marker_spec(), 0);
        lemma_first_greater_member(closes, opens[0]);
        let close = first_greater(closes, opens[0])->0;
        assert(matches_at(bytes, begin_marker_spec(), opens[0]));
        assert(matches_at(bytes, end_marker_spec(), close));
        lemma_marker_from_reaches(bytes, section.start as int, opens[0]);
    }
}

/// `first_greater` returns one of the positions, greater than the bound.
proof fn lemma_first_greater_member(positions: Seq<int>, after: int)
    ensures
        first_greater(positions, after) matches Some(found) ==> found > after && exists|j: int|
            0 <= j < positions.len() && positions[j] == found,
    decreases positions.len(),
{
    if positions.len() > 0 && positions[0] <= after {
        let rest = positions.drop_first();
        lemma_first_greater_member(rest, after);
        if let Some(found) = first_greater(rest, after) {
            let j = choose|j: int| 0 <= j < rest.len() && rest[j] == found;
            assert(positions[j + 1] == found);
        }
    }
}

/// Scanning forward for the marker stops no later than a marker known to be
/// there.
proof fn lemma_marker_from_reaches(bytes: Seq<u8>, from: int, marker: int)
    requires
        from <= marker,
        matches_at(bytes, begin_marker_spec(), marker),
    ensures
        from <= marker_from(bytes, from) <= marker,
    decreases marker - from,
{
    if from < marker && !matches_at(bytes, begin_marker_spec(), from) {
        lemma_marker_from_reaches(bytes, from + 1, marker);
    }
}

/// Everything that is not Cairn's, as one byte string.
///
/// `separator_added` says whether the line ending in front of the region
/// belongs to Cairn.
pub fn outside(bytes: &[u8], separator_added: bool) -> (result: Result<Vec<u8>, SpliceError>)
    ensures
        match result {
            Ok(out) => outside_of(bytes@, separator_added) == Ok::<Seq<u8>, SpliceError>(out@),
            Err(problem) => outside_of(bytes@, separator_added) == Err::<Seq<u8>, SpliceError>(
                problem,
            ),
        },
{
    let _ = bytes.len();
    proof {
        lemma_section_bounds(bytes@);
    }
    match find_section(bytes) {
        Err(problem) => Err(problem),
        Ok(None) => {
            let mut out: Vec<u8> = Vec::new();
            push_range(&mut out, bytes, 0, bytes.len());
            assert(bytes@.subrange(0, bytes@.len() as int) =~= bytes@);
            Ok(out)
        },
        Ok(Some(section)) => {
            let start = region_start(bytes, section, separator_added);
            let mut out: Vec<u8> = Vec::new();
            push_range(&mut out, bytes, 0, start);
            push_range(&mut out, bytes, section.end, bytes.len());
            Ok(out)
        },
    }
}

/// Remove Cairn's region entirely.
///
/// `separator_added` comes from the change inventory: it says whether the
/// newline in front of the region was Cairn's or the file's. Removing a region
/// that is not there is not an error: the bytes come back as they were.
pub fn remove(current: &[u8], separator_added: bool) -> (result: Result<Vec<u8>, SpliceError>)
    ensures
        match result {
            Ok(out) => outside_of(current@, separator_added) == Ok::<Seq<u8>, SpliceError>(out@),
            Err(problem) => outside_of(current@, separator_added) == Err::<Seq<u8>, SpliceError>(
                problem,
            ),
        },
{
    outside(current, separator_added)
}

/// Write `body` into Cairn's region, creating the region if it is not there.
///
/// An existing region is spliced in place — never duplicated. Bytes outside
/// the region are copied through untouched.
pub fn apply(original: &[u8], body: &[u8]) -> (result: Result<Spliced, SpliceError>)
    ensures
        match result {
            Ok(spliced) => applied(original@, body@) == Ok::<(Seq<u8>, bool), SpliceError>(
                (spliced.bytes@, spliced.separator_added),
            ),
            Err(problem) => applied(original@, body@) == Err::<(Seq<u8>, bool), SpliceError>(
                problem,
            ),
        },
{
    let ending = detect_line_ending_outside(original);
    let eol = ending.as_bytes();
    let begin = begin_marker();
    let end = end_marker();

    let mut region: Vec<u8> = Vec::new();
    push_range(&mut region, begin, 0, begin.len());
    push_range(&mut region, eol, 0, eol.len());
    push_range(&mut region, body, 0, body.len());
    push_range(&mut region, end, 0, end.len());
    push_range(&mut region, eol, 0, eol.len());
    assert(region@ =~= region_with(body@, eol_bytes(ending)));

    let _ = original.len();
    proof {
        lemma_section_bounds(original@);
    }
    match find_section(original) {
        Err(problem) => Err(problem),
        Ok(Some(section)) => {
            // Splice in place. Whatever sits in front of the marker —
            // including a newline a previous apply contributed — is
            // surroundings now and is copied through untouched.
            let marker_start = find_marker_start(original, section.start);
            let mut bytes: Vec<u8> = Vec::new();
            push_range(&mut bytes, original, 0, marker_start);
            push_range(&mut bytes, region.as_slice(), 0, region.len());
            push_range(&mut bytes, original, section.end, original.len());
            assert(region@.subrange(0, region@.len() as int) =~= region@);
            Ok(Spliced { bytes, separator_added: false })
        },
        Ok(None) => {
            let mut bytes: Vec<u8> = Vec::new();
            push_range(&mut bytes, original, 0, original.len());
            assert(original@.subrange(0, original@.len() as int) =~= original@);
            // A region must begin on its own line. If the file does not end
            // with one, Cairn adds it — and records that it did.
            let separator_added = original.len() > 0 && original[original.len() - 1] != 10u8;
            if separator_added {
                push_range(&mut bytes, eol, 0, eol.len());
            }
            push_range(&mut bytes, region.as_slice(), 0, region.len());
            assert(region@.subrange(0, region@.len() as int) =~= region@);
            assert(eol@.subrange(0, eol@.len() as int) =~= eol@);
            Ok(Spliced { bytes, separator_added })
        },
    }
}


// ---------------------------------------------------------------------------
// Laws
// ---------------------------------------------------------------------------

/// `needle` holds no line feed and no carriage return.
pub open spec fn single_line(needle: Seq<u8>) -> bool {
    forall|k: int| 0 <= k < needle.len() ==> needle[k] != 10 && needle[k] != 13
}

/// Joining `left` and `right` happens where no marker can straddle the
/// join: `left` is empty or ends with a line feed, or `right` starts with a
/// line feed, a carriage return, or the `#` a marker starts with.
pub open spec fn joins_at_line_break(left: Seq<u8>, right: Seq<u8>) -> bool {
    ||| left.len() == 0
    ||| left.last() == 10
    ||| (right.len() > 0 && (right[0] == 10 || right[0] == 13 || right[0] == 35))
}

/// Neither marker appears anywhere in `bytes`.
pub open spec fn free_of_markers(bytes: Seq<u8>) -> bool {
    forall|i: int|
        !matches_at(bytes, begin_marker_spec(), i) && !matches_at(bytes, end_marker_spec(), i)
}

proof fn lemma_marker_facts()
    ensures
        single_line(begin_marker_spec()),
        single_line(end_marker_spec()),
        forall|k: int| 0 < k < begin_marker_spec().len() ==> begin_marker_spec()[k] != 35,
        forall|k: int| 0 < k < end_marker_spec().len() ==> end_marker_spec()[k] != 35,
        begin_marker_spec().len() == 56,
        end_marker_spec().len() == 40,
        begin_marker_spec()[0] == 35,
        end_marker_spec()[0] == 35,
        begin_marker_spec()[2] == 62,
        end_marker_spec()[2] == 60,
{
    reveal(begin_marker_spec);
    reveal(end_marker_spec);
    assert(forall|k: int|
        0 <= k < 56 ==> begin_marker_spec()[k] != 10 && begin_marker_spec()[k] != 13);
    assert(forall|k: int|
        0 <= k < 40 ==> end_marker_spec()[k] != 10 && end_marker_spec()[k] != 13);
    assert(forall|k: int| 0 < k < 56 ==> begin_marker_spec()[k] != 35);
    assert(forall|k: int| 0 < k < 40 ==> end_marker_spec()[k] != 35);
}

/// Where two byte strings meet at a line break, a single-line needle occurs
/// in the whole exactly where it occurs in one of the parts.
proof fn lemma_join(left: Seq<u8>, right: Seq<u8>, needle: Seq<u8>)
    requires
        joins_at_line_break(left, right),
        needle.len() > 0,
        single_line(needle),
        forall|k: int| 0 < k < needle.len() ==> needle[k] != 35,
    ensures
        forall|i: int|
            #[trigger] matches_at(left + right, needle, i) == (matches_at(left, needle, i)
                || matches_at(right, needle, i - left.len())),
{
    let whole = left + right;
    let n = needle.len() as int;
    assert forall|i: int|
        #[trigger] matches_at(whole, needle, i) == (matches_at(left, needle, i) || matches_at(
            right,
            needle,
            i - left.len(),
        )) by {
        if matches_at(left, needle, i) {
            assert(whole.subrange(i, i + n) =~= left.subrange(i, i + n));
        }
        if matches_at(right, needle, i - left.len()) {
            assert(whole.subrange(i, i + n) =~= right.subrange(
                i - left.len(),
                i - left.len() + n,
            ));
        }
        if matches_at(whole, needle, i) {
            let window = whole.subrange(i, i + n);
            if i + n <= left.len() {
                assert(window =~= left.subrange(i, i + n));
            } else if i >= left.len() {
                assert(window =~= right.subrange(i - left.len(), i - left.len() + n));
            } else if left.len() > 0 && left.last() == 10 {
                let k = left.len() - 1 - i;
                assert(window[k] == 10);
                assert(needle[k] != 10);
            } else {
                let k = left.len() - i;
                assert(window[k] == right[0]);
                assert(needle[k] != 10 && needle[k] != 13 && needle[k] != 35);
            }
        }
    }
}

/// A scan that finds nothing means the needle is nowhere from there on.
proof fn lemma_scan_empty_no_match(haystack: Seq<u8>, needle: Seq<u8>, from: int)
    requires
        0 <= from,
        needle.len() > 0,
        scan(haystack, needle, from).len() == 0,
    ensures
        forall|i: int| i >= from ==> !matches_at(haystack, needle, i),
    decreases haystack.len() - from,
{
    if from + needle.len() <= haystack.len() {
        assert(!matches_at(haystack, needle, from));
        lemma_scan_empty_no_match(haystack, needle, from + 1);
    }
}

/// A needle found nowhere from `from` on is scanned as nothing.
proof fn lemma_scan_none(haystack: Seq<u8>, needle: Seq<u8>, from: int)
    requires
        0 <= from,
        needle.len() > 0,
        forall|i: int| i >= from ==> !matches_at(haystack, needle, i),
    ensures
        scan(haystack, needle, from) == Seq::<int>::empty(),
    decreases haystack.len() - from,
{
    if from + needle.len() <= haystack.len() {
        lemma_scan_none(haystack, needle, from + 1);
    }
}

/// A needle found at exactly one position from `from` on is scanned as that
/// position alone.
proof fn lemma_scan_single(haystack: Seq<u8>, needle: Seq<u8>, from: int, at: int)
    requires
        0 <= from <= at,
        needle.len() > 0,
        matches_at(haystack, needle, at),
        forall|i: int| i >= from && i != at ==> !matches_at(haystack, needle, i),
    ensures
        scan(haystack, needle, from) == seq![at],
    decreases at - from,
{
    if from == at {
        lemma_scan_none(haystack, needle, at + needle.len());
        assert(scan(haystack, needle, from) =~= seq![at]);
    } else {
        lemma_scan_single(haystack, needle, from + 1, at);
    }
}

/// Scanning forward for the marker from below a known marker, past nothing
/// else that matches, lands on it.
proof fn lemma_marker_from_lands(bytes: Seq<u8>, from: int, marker: int)
    requires
        from <= marker,
        matches_at(bytes, begin_marker_spec(), marker),
        forall|i: int| from <= i < marker ==> !matches_at(bytes, begin_marker_spec(), i),
    ensures
        marker_from(bytes, from) == marker,
    decreases marker - from,
{
    if from < marker {
        lemma_marker_from_lands(bytes, from + 1, marker);
    }
}

/// With a marker-free prefix ending its last line, a marker-free body, and a
/// line ending `eol`, the only markers in
/// `prefix + region` are the two Cairn wrote.
proof fn lemma_layout(prefix: Seq<u8>, body: Seq<u8>, eol: Seq<u8>)
    requires
        free_of_markers(prefix),
        prefix.len() == 0 || prefix.last() == 10,
        free_of_markers(body),
        eol == seq![10u8] || eol == seq![13u8, 10u8],
    ensures
        occurrences(prefix + region_with(body, eol), begin_marker_spec()) == seq![
            prefix.len() as int,
        ],
        occurrences(prefix + region_with(body, eol), end_marker_spec()) == seq![
            (prefix.len() + 56 + eol.len() + body.len()) as int,
        ],
        forall|i: int|
            matches_at(prefix + region_with(body, eol), begin_marker_spec(), i) <==> i
                == prefix.len(),
{
    lemma_marker_facts();
    let begin = begin_marker_spec();
    let end = end_marker_spec();
    let h1 = prefix + begin;
    let h2 = h1 + eol;
    let h3 = h2 + body;
    let h4 = h3 + end;
    let h5 = h4 + eol;
    lemma_join(prefix, begin, begin);
    lemma_join(prefix, begin, end);
    lemma_join(h1, eol, begin);
    lemma_join(h1, eol, end);
    lemma_join(h2, body, begin);
    lemma_join(h2, body, end);
    lemma_join(h3, end, begin);
    lemma_join(h3, end, end);
    lemma_join(h4, eol, begin);
    lemma_join(h4, eol, end);

    let p = prefix.len() as int;
    let q = h3.len() as int;
    assert(matches_at(begin, begin, 0)) by {
        assert(begin.subrange(0, 56) =~= begin);
    }
    assert(matches_at(end, end, 0)) by {
        assert(end.subrange(0, 40) =~= end);
    }
    assert forall|i: int| !matches_at(begin, end, i) by {
        if matches_at(begin, end, i) {
            assert(begin.subrange(i, i + 40)[0] == end[0]);
            assert(begin.subrange(i, i + 40)[2] == end[2]);
        }
    }
    assert forall|i: int| !matches_at(eol, end, i) && !matches_at(eol, begin, i) by {}
    assert forall|i: int| !matches_at(end, begin, i) by {}
    assert forall|i: int| i != p implies !matches_at(h5, begin, i) by {
        assert(matches_at(begin, begin, i - p) ==> i - p == 0);
    }
    assert(matches_at(h5, begin, p));
    assert forall|i: int| i != q implies !matches_at(h5, end, i) by {
        assert(matches_at(end, end, i - q) ==> i - q == 0);
    }
    assert(matches_at(h5, end, q));
    lemma_scan_single(h5, begin, 0, p);
    lemma_scan_single(h5, end, 0, q);
    assert(h5 =~= prefix + region_with(body, eol));
}

/// A needle whose first byte occurs nowhere else in it cannot overlap
/// itself, so a scan that finds it once from `from` means it occurs nowhere
/// else from there on.
proof fn lemma_single_occurrence(haystack: Seq<u8>, needle: Seq<u8>, from: int, at: int)
    requires
        needle.len() > 0,
        forall|k: int| 0 < k < needle.len() ==> #[trigger] needle[k] != needle[0],
        0 <= from,
        scan(haystack, needle, from) == seq![at],
    ensures
        forall|i: int| i >= from && matches_at(haystack, needle, i) ==> i == at,
    decreases haystack.len() - from,
{
    let n = needle.len() as int;
    if from + n <= haystack.len() {
        if matches_at(haystack, needle, from) {
            assert(scan(haystack, needle, from) == seq![from] + scan(haystack, needle, from + n));
            assert(seq![from] + scan(haystack, needle, from + n) == seq![at]);
            assert((seq![from] + scan(haystack, needle, from + n))[0] == from);
            assert(at == from);
            assert(scan(haystack, needle, from + n).len() == 0);
            lemma_scan_empty_no_match(haystack, needle, from + n);
            assert forall|i: int| i >= from && matches_at(haystack, needle, i) implies i == at by {
                if from < i < from + n {
                    assert(haystack.subrange(from, from + n)[i - from] == haystack[i]);
                    assert(haystack.subrange(i, i + n)[0] == haystack[i]);
                    assert(needle[i - from] != needle[0]);
                    assert(false);
                } else if i >= from + n {
                    assert(!matches_at(haystack, needle, i));
                }
            }
        } else {
            lemma_single_occurrence(haystack, needle, from + 1, at);
        }
    }
}

/// The first occurrence a scan reports after `after` is `close`, when the
/// needle occurs at `close`, nowhere between `after` and `close`, and no
/// earlier occurrence runs over `close`.
proof fn lemma_first_close(haystack: Seq<u8>, needle: Seq<u8>, from: int, after: int, close: int)
    requires
        needle.len() > 0,
        0 <= from <= close,
        after < close,
        matches_at(haystack, needle, close),
        forall|j: int| after < j < close ==> !matches_at(haystack, needle, j),
        forall|j: int| from <= j <= after && matches_at(haystack, needle, j) ==> j + needle.len() <= close,
    ensures
        first_greater(scan(haystack, needle, from), after) == Some(close),
    decreases close - from,
{
    let n = needle.len() as int;
    if matches_at(haystack, needle, from) {
        assert(scan(haystack, needle, from) == seq![from] + scan(haystack, needle, from + n));
        if from < close {
            lemma_first_close(haystack, needle, from + n, after, close);
            assert((seq![from] + scan(haystack, needle, from + n)).drop_first() =~= scan(haystack, needle, from + n));
        }
    } else {
        lemma_first_close(haystack, needle, from + 1, after, close);
    }
}

/// Line endings counted over the first `n` bytes depend on those bytes alone.
proof fn lemma_counts_agree(a: Seq<u8>, b: Seq<u8>, n: int)
    requires
        0 <= n <= a.len(),
        n <= b.len(),
        forall|k: int| 0 <= k < n ==> a[k] == b[k],
    ensures
        crlf_count(a, n) == crlf_count(b, n),
        lf_count(a, n) == lf_count(b, n),
    decreases n,
{
    if n > 0 {
        lemma_counts_agree(a, b, n - 1);
    }
}

/// A carriage return at the end of a byte string ends no line, so it leaves
/// the line ending the string reads as unchanged.
proof fn lemma_ending_with_cr(bytes: Seq<u8>)
    ensures
        line_ending_of(bytes.push(13u8)) == line_ending_of(bytes),
{
    let longer = bytes.push(13u8);
    let n = bytes.len() as int;
    lemma_counts_agree(longer, bytes, n);
    assert(longer[n] == 13);
    assert(crlf_count(longer, n + 1) == crlf_count(longer, n));
    assert(lf_count(longer, n + 1) == lf_count(longer, n));
}

/// A needle found at `i` is scanned, from anywhere up to `i`, with a first
/// position no later than `i`.
proof fn lemma_scan_first(haystack: Seq<u8>, needle: Seq<u8>, from: int, i: int)
    requires
        0 <= from <= i,
        needle.len() > 0,
        matches_at(haystack, needle, i),
    ensures
        scan(haystack, needle, from).len() > 0,
        scan(haystack, needle, from)[0] <= i,
    decreases i - from,
{
    let n = needle.len() as int;
    if matches_at(haystack, needle, from) {
        assert(scan(haystack, needle, from) == seq![from] + scan(haystack, needle, from + n));
    } else {
        lemma_scan_first(haystack, needle, from + 1, i);
        assert(scan(haystack, needle, from) == scan(haystack, needle, from + 1));
    }
}

/// When `o` has a readable section opening at `a`, and `bytes` agrees with
/// `o` before `a` and holds the opening marker at `a`, the first closing
/// marker in `bytes` lies past `a`.
proof fn lemma_no_close_before(o: Seq<u8>, bytes: Seq<u8>, a: int)
    requires
        section_of(o) is Ok,
        section_of(o)->Ok_0 is Some,
        occurrences(o, begin_marker_spec()) == seq![a],
        0 <= a,
        a + 56 <= bytes.len(),
        a <= o.len(),
        forall|k: int| 0 <= k < a ==> bytes[k] == o[k],
        bytes.subrange(a, a + 56) == begin_marker_spec(),
        occurrences(bytes, end_marker_spec()).len() > 0,
    ensures
        occurrences(bytes, end_marker_spec())[0] > a,
{
    lemma_marker_facts();
    let begin = begin_marker_spec();
    let end = end_marker_spec();
    let closes = occurrences(o, end);
    assert(closes.len() == 0 || closes[0] >= a);
    assert forall|j: int| 0 <= j < a implies !matches_at(bytes, end, j) by {
        if matches_at(bytes, end, j) {
            if j + 40 <= a {
                assert(bytes.subrange(j, j + 40) =~= o.subrange(j, j + 40));
                lemma_scan_first(o, end, 0, j);
            } else {
                assert(bytes.subrange(j, j + 40)[a - j] == bytes[a]);
                assert(bytes.subrange(a, a + 56)[0] == bytes[a]);
            }
        }
    }
    let first = occurrences(bytes, end)[0];
    lemma_scan_bounds(bytes, end, 0);
    assert(matches_at(bytes, end, first));
    if first == a {
        assert(bytes.subrange(a, a + 40)[2] == bytes[a + 2]);
        assert(bytes.subrange(a, a + 56)[2] == bytes[a + 2]);
    }
}

/// Past the end of `left`, `left + right` holds a needle exactly where
/// `right` does.
proof fn lemma_match_after(left: Seq<u8>, right: Seq<u8>, needle: Seq<u8>, i: int)
    requires
        i >= left.len(),
    ensures
        matches_at(left + right, needle, i) == matches_at(right, needle, i - left.len()),
{
    let whole = left + right;
    let n = needle.len() as int;
    if i + n <= whole.len() {
        assert(whole.subrange(i, i + n) =~= right.subrange(i - left.len(), i - left.len() + n));
    }
}

/// Putting a region that opens with the marker where the old one opened
/// keeps the opening marker exactly there and nowhere else.
proof fn lemma_opening_kept(o: Seq<u8>, region: Seq<u8>, tail: Seq<u8>, a: int, e: int)
    requires
        0 <= a,
        a + 56 <= o.len(),
        a < e <= o.len(),
        tail == o.subrange(e, o.len() as int),
        forall|i: int| i >= 0 && matches_at(o, begin_marker_spec(), i) ==> i == a,
        matches_at(o, begin_marker_spec(), a),
        region.len() >= 56,
        region.subrange(0, 56) == begin_marker_spec(),
        forall|k: int| matches_at(region, begin_marker_spec(), k) <==> k == 0,
        region.last() == 10,
    ensures
        forall|i: int| matches_at(o.subrange(0, a) + region + tail, begin_marker_spec(), i) <==> i == a,
{
    lemma_marker_facts();
    let begin = begin_marker_spec();
    let left = o.subrange(0, a);
    let bytes = left + region + tail;
    lemma_join(region, tail, begin);
    assert(bytes =~= left + (region + tail));
    assert(bytes.len() == a + region.len() + tail.len());
    assert forall|k: int| 0 <= k implies matches_at(tail, begin, k) == matches_at(o, begin, k + e) by {
        if k + 56 <= tail.len() {
            assert(tail.subrange(k, k + 56) =~= o.subrange(k + e, k + e + 56));
        }
    }
    assert forall|i: int| matches_at(bytes, begin, i) <==> i == a by {
        if 0 <= i && i <= a {
            assert(bytes.subrange(i, i + 56) =~= o.subrange(i, i + 56)) by {
                assert forall|k: int| 0 <= k < 56 implies #[trigger] bytes.subrange(i, i + 56)[k] == o.subrange(i, i + 56)[k] by {
                    if i + k < a {
                        assert(bytes[i + k] == left[i + k]);
                    } else {
                        assert(bytes[i + k] == region[i + k - a]);
                        assert(region.subrange(0, 56)[i + k - a] == begin[i + k - a]);
                        assert(o.subrange(a, a + 56)[i + k - a] == o[i + k]);
                    }
                }
            }
            assert(matches_at(bytes, begin, i) == matches_at(o, begin, i));
        } else if i > a {
            lemma_match_after(left, region + tail, begin, i);
            let k = i - a;
            assert(matches_at(bytes, begin, i) == matches_at(region + tail, begin, k));
            assert(matches_at(region + tail, begin, k) == (matches_at(region, begin, k) || matches_at(
                tail,
                begin,
                k - region.len(),
            )));
            assert(!matches_at(region, begin, k));
            if matches_at(tail, begin, k - region.len()) {
                assert(matches_at(o, begin, k - region.len() + e));
            }
        }
    }
}

/// Writing a region into a file that already has one: everything before the
/// old region's marker and after its end stays, the new region goes
/// between, and the section then found is the new region, from the same
/// line ending in front of the marker.
#[verifier::spinoff_prover]
#[verifier::rlimit(60)]
proof fn lemma_rewritten_section(original: Seq<u8>, body: Seq<u8>)
    requires
        section_of(original) is Ok,
        section_of(original)->Ok_0 is Some,
        free_of_markers(body),
        original.len() + body.len() + 200 <= usize::MAX,
    ensures
        ({
            let section = section_of(original)->Ok_0->Some_0;
            let eol = eol_bytes(line_ending_outside(original));
            let marker = marker_from(original, section.start as int);
            let region = region_with(body, eol);
            let bytes = original.subrange(0, marker) + region + original.subrange(
                section.end as int,
                original.len() as int,
            );
            let lead = bytes.subrange(section.start as int, marker);
            &&& eol == seq![10u8] || eol == seq![13u8, 10u8]
            &&& applied(original, body) == Ok::<(Seq<u8>, bool), SpliceError>((bytes, false))
            &&& section_of(bytes) == Ok::<Option<Section>, SpliceError>(
                Some(
                    Section {
                        start: section.start,
                        end: (marker + region.len()) as usize,
                        preceded_by_newline: section.preceded_by_newline,
                    },
                ),
            )
            &&& section.start <= marker
            &&& bytes.len() <= original.len() + body.len() + 200
            &&& lead == Seq::<u8>::empty() || lead == seq![10u8] || lead == seq![13u8, 10u8]
            &&& bytes.subrange(section.start as int, marker + region.len()) == lead + region
            &&& forall|i: int| matches_at(bytes, begin_marker_spec(), i) <==> i == marker
            &&& marker <= section.end <= original.len()
        }),
{
    lemma_marker_facts();
    let begin = begin_marker_spec();
    let end = end_marker_spec();
    let o = original;
    let opens = occurrences(o, begin);
    let closes = occurrences(o, end);
    let a = opens[0];
    let c = first_greater(closes, a)->Some_0;
    lemma_scan_bounds(o, begin, 0);
    lemma_scan_bounds(o, end, 0);
    assert(opens =~= seq![a]);
    lemma_single_occurrence(o, begin, 0, a);
    let (start, preceded) = section_start(o, a);
    let section = section_of(o)->Ok_0->Some_0;
    assert(0 <= a && a + 56 <= o.len());
    assert(section.start as int == start);
    lemma_marker_from_lands(o, start, a);
    let marker = marker_from(o, start);
    assert(marker == a);
    lemma_first_greater_member(closes, a);
    assert(matches_at(o, end, c));
    let e = section_end(o, c);
    assert(section.end as int == e);
    assert(c + 40 <= e <= o.len());
    // c lies past the opening marker, which holds no `#` after its first byte.
    assert(c >= a + 56) by {
        if c < a + 56 {
            assert(o.subrange(a, a + 56)[c - a] == o[c]);
            assert(o.subrange(c, c + 40)[0] == o[c]);
        }
    }
    let eol = eol_bytes(line_ending_outside(o));
    assert(eol == seq![10u8] || eol == seq![13u8, 10u8]);
    let region = region_with(body, eol);
    let left = o.subrange(0, a);
    let tail = o.subrange(e, o.len() as int);
    let bytes = left + region + tail;
    let q0: int = (56 + eol.len() + body.len()) as int;
    // The region on its own: the opening marker only at its start, the
    // closing one only at q0.
    lemma_layout(Seq::<u8>::empty(), body, eol);
    assert(Seq::<u8>::empty() + region =~= region);
    lemma_scan_bounds(region, end, 0);
    assert(occurrences(region, end) =~= seq![q0]);
    lemma_single_occurrence(region, end, 0, q0);
    assert(region.len() == q0 + 40 + eol.len());
    assert(region.last() == 10);
    lemma_join(region, tail, begin);
    lemma_join(region, tail, end);
    assert(bytes =~= left + (region + tail));
    // The file from its end on holds markers only where the original did.
    assert forall|k: int| 0 <= k implies matches_at(tail, begin, k) == matches_at(o, begin, k + e)
        && matches_at(tail, end, k) == matches_at(o, end, k + e) by {
        if k + 56 <= tail.len() {
            assert(tail.subrange(k, k + 56) =~= o.subrange(k + e, k + e + 56));
        }
        if k + 40 <= tail.len() {
            assert(tail.subrange(k, k + 40) =~= o.subrange(k + e, k + e + 40));
        }
    }
    // The opening marker occurs in the new bytes exactly where it did.
    assert(scan(region, end, 0)[0] == q0);
    assert(matches_at(region, end, q0));
    assert(bytes.len() == a + region.len() + tail.len());
    lemma_opening_kept(o, region, tail, a, e);
    lemma_scan_single(bytes, begin, 0, a);
    // The first closing marker after it is the new region's.
    assert(matches_at(bytes, end, a + q0)) by {
        lemma_match_after(left, region + tail, end, a + q0);
        assert(matches_at(region + tail, end, q0) == (matches_at(region, end, q0) || matches_at(
            tail,
            end,
            q0 - region.len(),
        )));
    }
    assert forall|j: int| a < j < a + q0 implies !matches_at(bytes, end, j) by {
        lemma_match_after(left, region + tail, end, j);
        assert(matches_at(region + tail, end, j - a) == (matches_at(region, end, j - a) || matches_at(
            tail,
            end,
            j - a - region.len(),
        )));
    }
    lemma_first_close(bytes, end, 0, a, a + q0);
    // No closing marker comes before the opening one, in the original or in
    // the rewritten bytes.
    assert(bytes.subrange(a, a + 56) =~= begin) by {
        assert forall|k: int| 0 <= k < 56 implies #[trigger] bytes.subrange(a, a + 56)[k] == begin[k] by {
            assert(bytes[a + k] == region[k]);
        }
    }
    assert forall|k: int| 0 <= k < a implies bytes[k] == o[k] by {
        assert(bytes[k] == left[k]);
    }
    lemma_no_close_before(o, bytes, a);
    assert(section_start(bytes, a) == section_start(o, a)) by {
        if a > 0 {
            assert(bytes[a - 1] == o[a - 1]);
        }
        if a > 1 {
            assert(bytes[a - 2] == o[a - 2]);
        }
    }
    assert(section_end(bytes, a + q0) == a + region.len()) by {
        assert(bytes[a + q0 + 40] == eol[0]);
        if eol.len() == 2 {
            assert(bytes[a + q0 + 41] == 10);
        }
    }
    let lead = bytes.subrange(start, a);
    if start == a - 2 {
        assert(lead =~= seq![13u8, 10u8]);
    } else if start == a - 1 {
        assert(lead =~= seq![10u8]);
    } else {
        assert(lead =~= Seq::<u8>::empty());
    }
    assert(bytes.subrange(start, a + region.len()) =~= lead + region);
}

/// What a first write puts in front of Cairn's region: the file as it was,
/// with a line ending added when its last line had none.
pub open spec fn fresh_prefix(original: Seq<u8>, eol: Seq<u8>) -> Seq<u8> {
    if original.len() > 0 && original.last() != 10 {
        original + eol
    } else {
        original
    }
}

/// Writing a region into a file that has none: the bytes are the file (with
/// its last line ended) followed by the region, and the section then found
/// runs from the line ending in front of the opening marker to the end.
#[verifier::rlimit(40)]
proof fn lemma_fresh_section(original: Seq<u8>, body: Seq<u8>)
    requires
        section_of(original) == Ok::<Option<Section>, SpliceError>(None),
        free_of_markers(body),
        original.len() + body.len() + 200 <= usize::MAX,
    ensures
        ({
            let eol = eol_bytes(line_ending_outside(original));
            let prefix = fresh_prefix(original, eol);
            let bytes = prefix + region_with(body, eol);
            let (start, preceded) = section_start(bytes, prefix.len() as int);
            &&& eol == seq![10u8] || eol == seq![13u8, 10u8]
            &&& applied(original, body) == Ok::<(Seq<u8>, bool), SpliceError>(
                (bytes, original.len() > 0 && original.last() != 10),
            )
            &&& section_of(bytes) == Ok::<Option<Section>, SpliceError>(
                Some(Section { start: start as usize, end: bytes.len() as usize, preceded_by_newline: preceded }),
            )
            &&& 0 <= start <= prefix.len()
            &&& bytes.len() <= original.len() + body.len() + 200
            &&& ({
                let lead = bytes.subrange(start, prefix.len() as int);
                &&& lead == Seq::<u8>::empty() || lead == seq![10u8] || lead == seq![13u8, 10u8]
                &&& bytes.subrange(start, bytes.len() as int) == lead + region_with(body, eol)
            })
        }),
{
    lemma_marker_facts();
    let begin = begin_marker_spec();
    let end = end_marker_spec();
    let eol = eol_bytes(line_ending_outside(original));
    assert(eol == seq![10u8] || eol == seq![13u8, 10u8]);
    lemma_scan_empty_no_match(original, begin, 0);
    lemma_scan_empty_no_match(original, end, 0);
    let separator = original.len() > 0 && original.last() != 10;
    let prefix = fresh_prefix(original, eol);
    if separator {
        lemma_join(original, eol, begin);
        lemma_join(original, eol, end);
    }
    assert forall|i: int| !matches_at(prefix, begin, i) && !matches_at(prefix, end, i) by {
        if separator {
            assert(matches_at(prefix, begin, i) == (matches_at(original, begin, i) || matches_at(
                eol,
                begin,
                i - original.len(),
            )));
            assert(matches_at(prefix, end, i) == (matches_at(original, end, i) || matches_at(
                eol,
                end,
                i - original.len(),
            )));
        }
    }
    assert(prefix.len() == 0 || prefix.last() == 10);
    lemma_layout(prefix, body, eol);
    let region = region_with(body, eol);
    let h5 = prefix + region;
    let p = prefix.len() as int;
    let q = p + 56 + eol.len() + body.len();
    assert(first_greater(seq![q], p) == Some(q));
    assert(occurrences(h5, end)[0] == q);
    let bytes = if separator {
        original + eol + region
    } else {
        original + region
    };
    assert(bytes =~= h5);
    assert(applied(original, body) == Ok::<(Seq<u8>, bool), SpliceError>((bytes, separator)));
    assert(section_end(h5, q) == h5.len()) by {
        assert(h5[q + 40] == eol[0]);
        if eol.len() == 2 {
            assert(h5[q + 41] == 10);
        }
    }
    let (start, preceded) = section_start(h5, p);
    let lead = h5.subrange(start, p);
    if start == p - 2 {
        assert(lead =~= seq![13u8, 10u8]);
    } else if start == p - 1 {
        assert(lead =~= seq![10u8]);
    } else {
        assert(lead =~= Seq::<u8>::empty());
    }
    assert(h5.subrange(start, h5.len() as int) =~= lead + region);
}

/// Writing a new region into a file that already has one changes nothing
/// outside the region: what removing it leaves is what removing the old one
/// would have left.
pub proof fn lemma_reapply_keeps_outside(original: Seq<u8>, body: Seq<u8>, separator_added: bool)
    requires
        section_of(original) is Ok,
        section_of(original)->Ok_0 is Some,
        free_of_markers(body),
        original.len() + body.len() + 200 <= usize::MAX,
    ensures
        applied(original, body) matches Ok((bytes, _)) && outside_of(bytes, separator_added) == outside_of(
            original,
            separator_added,
        ),
{
    lemma_rewritten_section(original, body);
    let section = section_of(original)->Ok_0->Some_0;
    let eol = eol_bytes(line_ending_outside(original));
    let marker = marker_from(original, section.start as int);
    let region = region_with(body, eol);
    let bytes = original.subrange(0, marker) + region + original.subrange(section.end as int, original.len() as int);
    let found = Section {
        start: section.start,
        end: (marker + region.len()) as usize,
        preceded_by_newline: section.preceded_by_newline,
    };
    assert(found.end as int == marker + region.len());
    lemma_marker_from_lands(bytes, section.start as int, marker);
    let rs = region_start_of(original, section, separator_added);
    assert(bytes.subrange(found.end as int, bytes.len() as int) =~= original.subrange(
        section.end as int,
        original.len() as int,
    ));
    if marker >= 1 {
        assert(bytes.subrange(0, marker - 1) =~= original.subrange(0, marker - 1));
    }
    assert(region_start_of(bytes, found, separator_added) == rs);
    assert(rs <= marker);
    assert(bytes.subrange(0, rs) =~= original.subrange(0, rs));
    assert(bytes.subrange(found.end as int, bytes.len() as int) =~= original.subrange(
        section.end as int,
        original.len() as int,
    ));
}

/// Applying twice and then removing gives the file back byte for byte: the
/// second write replaces the first region in place, and removal with what
/// the first write recorded takes exactly what Cairn put there. (The file
/// must hold no section to begin with, as for a single write.)
pub proof fn lemma_apply_twice_then_remove_restores(original: Seq<u8>, first: Seq<u8>, second: Seq<u8>)
    requires
        section_of(original) == Ok::<Option<Section>, SpliceError>(None),
        free_of_markers(first),
        free_of_markers(second),
        original.len() + first.len() + second.len() + 400 <= usize::MAX,
    ensures
        applied(original, first) matches Ok((once, separator_added)) && applied(once, second) matches Ok((twice, _))
            && outside_of(twice, separator_added) == Ok::<Seq<u8>, SpliceError>(original),
{
    lemma_apply_then_remove_restores(original, first);
    lemma_fresh_section(original, first);
    let eol = eol_bytes(line_ending_outside(original));
    let once = fresh_prefix(original, eol) + region_with(first, eol);
    let separator_added = original.len() > 0 && original.last() != 10;
    lemma_reapply_keeps_outside(once, second, separator_added);
}

/// Writing a region into any file whose section can be read: the section
/// then found holds the new region, with at most the line ending in front of
/// its opening marker (`lead`) before it.
pub proof fn lemma_applied_section(original: Seq<u8>, body: Seq<u8>) -> (lead: Seq<u8>)
    requires
        section_of(original) is Ok,
        free_of_markers(body),
        original.len() + body.len() + 200 <= usize::MAX,
    ensures
        lead == Seq::<u8>::empty() || lead == seq![10u8] || lead == seq![13u8, 10u8],
        applied(original, body) matches Ok((bytes, _)) && section_of(bytes) matches Ok(Some(section))
            && section.start <= section.end <= bytes.len() && bytes.len() <= original.len() + body.len() + 200
            && bytes.subrange(section.start as int, section.end as int) == lead + region_with(
            body,
            eol_bytes(line_ending_outside(original)),
        ),
{
    let eol = eol_bytes(line_ending_outside(original));
    let region = region_with(body, eol);
    if section_of(original)->Ok_0 is Some {
        lemma_rewritten_section(original, body);
        let section = section_of(original)->Ok_0->Some_0;
        let marker = marker_from(original, section.start as int);
        let bytes = original.subrange(0, marker) + region + original.subrange(section.end as int, original.len() as int);
        assert(section.end as int <= original.len() && marker <= section.end as int) by {
            lemma_section_bounds(original);
        }
        assert(bytes.len() == marker + region.len() + (original.len() - section.end as int));
        let found = Section {
            start: section.start,
            end: (marker + region.len()) as usize,
            preceded_by_newline: section.preceded_by_newline,
        };
        assert(found.end as int == marker + region.len());
        assert(section_of(bytes) == Ok::<Option<Section>, SpliceError>(Some(found)));
        bytes.subrange(section.start as int, marker)
    } else {
        lemma_fresh_section(original, body);
        let prefix = fresh_prefix(original, eol);
        let bytes = prefix + region;
        let (start, preceded) = section_start(bytes, prefix.len() as int);
        bytes.subrange(start, prefix.len() as int)
    }
}

/// Writing a region into a file that has none and then removing it gives the
/// file back byte for byte.
///
/// The body must not itself hold a marker.
#[verifier::rlimit(50)]
pub proof fn lemma_apply_then_remove_restores(original: Seq<u8>, body: Seq<u8>)
    requires
        section_of(original) == Ok::<Option<Section>, SpliceError>(None),
        free_of_markers(body),
        original.len() + body.len() + 200 <= usize::MAX,
    ensures
        applied(original, body) matches Ok((bytes, separator_added)) && outside_of(
            bytes,
            separator_added,
        ) == Ok::<Seq<u8>, SpliceError>(original),
{
    lemma_marker_facts();
    lemma_fresh_section(original, body);
    let eol = eol_bytes(line_ending_outside(original));
    let separator = original.len() > 0 && original.last() != 10;
    let prefix = fresh_prefix(original, eol);
    let h5 = prefix + region_with(body, eol);
    let p = prefix.len() as int;
    let (start, preceded) = section_start(h5, p);
    let section = Section { start: start as usize, end: h5.len() as usize, preceded_by_newline: preceded };
    assert(section_of(h5) == Ok::<Option<Section>, SpliceError>(Some(section)));
    let rs = region_start_of(h5, section, separator);
    // The region starts where the original ended: at the line ending Cairn
    // added in front of the marker, or at the marker itself.
    assert(matches_at(h5, begin_marker_spec(), p)) by {
        assert(h5.subrange(p, p + 56) =~= begin_marker_spec());
    }
    lemma_marker_from_lands(h5, start, p);
    if separator && preceded {
        assert(h5[p - 1] == 10);
        // With no section in it, the file reads as a whole.
        assert(line_ending_outside(original) == line_ending_of(original));
        let kept = h5.subrange(0, p - 1) + h5.subrange(h5.len() as int, h5.len() as int);
        if eol.len() == 2 {
            assert(h5[p - 2] == 13);
            assert(line_ending_of(original) == LineEnding::Crlf);
            assert(kept =~= original.push(13u8));
            lemma_ending_with_cr(original);
            assert(rs == original.len());
        } else {
            assert(h5[p - 2] == original.last());
            assert(line_ending_of(original) == LineEnding::Lf);
            assert(kept =~= original);
            assert(rs == original.len());
        }
    } else {
        assert(!separator);
        assert(rs == p);
    }
    assert(h5.subrange(0, rs) + h5.subrange(h5.len() as int, h5.len() as int) =~= original);
}


/// Ending a file's last line with the line ending it already reads as does
/// not change what it reads as, unless its last byte is a lone carriage
/// return (which the added line feed would pair with).
proof fn lemma_ending_kept(bytes: Seq<u8>)
    requires
        bytes.len() == 0 || bytes.last() != 13,
    ensures
        line_ending_of(bytes + eol_bytes(line_ending_of(bytes))) == line_ending_of(bytes),
{
    let n = bytes.len() as int;
    let eol = eol_bytes(line_ending_of(bytes));
    let longer = bytes + eol;
    lemma_counts_agree(longer, bytes, n);
    if eol.len() == 1 {
        assert(longer[n] == 10);
        assert(crlf_count(longer, n + 1) == crlf_count(bytes, n));
        assert(lf_count(longer, n + 1) == lf_count(bytes, n) + 1);
    } else {
        assert(longer[n] == 13 && longer[n + 1] == 10);
        assert(crlf_count(longer, n + 1) == crlf_count(bytes, n));
        assert(lf_count(longer, n + 1) == lf_count(bytes, n));
        assert(crlf_count(longer, n + 2) == crlf_count(bytes, n) + 1);
        assert(lf_count(longer, n + 2) == lf_count(bytes, n));
    }
}

/// Writing the same list again into a file Cairn has written changes
/// nothing: the bytes come back as they are, with no separator added. And
/// however often the list is rewritten, the file holds Cairn's opening line
/// exactly once. (The file must hold no section to begin with, and must not
/// end with a lone carriage return: the line feed Cairn adds after one reads
/// as a CRLF pair, which can change the line ending the next write uses.)
#[verifier::rlimit(50)]
pub proof fn lemma_reapply_rewrites_nothing(original: Seq<u8>, body: Seq<u8>, other: Seq<u8>)
    requires
        section_of(original) == Ok::<Option<Section>, SpliceError>(None),
        free_of_markers(body),
        free_of_markers(other),
        original.len() == 0 || original.last() != 13,
        original.len() + 2 * body.len() + other.len() + 400 <= usize::MAX,
    ensures
        applied(original, body) matches Ok((once, _)) && {
            &&& line_ending_outside(once) == line_ending_outside(original)
            &&& applied(once, body) == Ok::<(Seq<u8>, bool), SpliceError>((once, false))
            &&& occurrences(once, begin_marker_spec()).len() == 1
            &&& applied(once, other) is Ok
            &&& occurrences(applied(once, other)->Ok_0.0, begin_marker_spec()).len() == 1
        },
{
    lemma_marker_facts();
    let begin = begin_marker_spec();
    lemma_fresh_section(original, body);
    let eol = eol_bytes(line_ending_outside(original));
    let prefix = fresh_prefix(original, eol);
    let region = region_with(body, eol);
    let once = prefix + region;
    let p = prefix.len() as int;
    let (start, preceded) = section_start(once, p);
    let section = Section { start: start as usize, end: once.len() as usize, preceded_by_newline: preceded };
    assert(section_of(once) == Ok::<Option<Section>, SpliceError>(Some(section)));
    // The opening line is where Cairn wrote it, and nowhere else.
    lemma_scan_empty_no_match(original, begin, 0);
    lemma_scan_empty_no_match(original, end_marker_spec(), 0);
    if original.len() > 0 && original.last() != 10 {
        lemma_join(original, eol, begin);
        lemma_join(original, eol, end_marker_spec());
    }
    assert forall|i: int| !matches_at(prefix, begin, i) && !matches_at(prefix, end_marker_spec(), i) by {
        if original.len() > 0 && original.last() != 10 {
            assert(matches_at(prefix, begin, i) == (matches_at(original, begin, i) || matches_at(
                eol,
                begin,
                i - original.len(),
            )));
            assert(matches_at(prefix, end_marker_spec(), i) == (matches_at(original, end_marker_spec(), i)
                || matches_at(eol, end_marker_spec(), i - original.len())));
        }
    }
    lemma_layout(prefix, body, eol);
    assert(occurrences(once, begin).len() == 1);
    assert(matches_at(once, begin, p));
    lemma_marker_from_lands(once, start, p);
    // What surrounds the region reads with the line ending the file had.
    assert(once.subrange(0, p) + once.subrange(once.len() as int, once.len() as int) =~= prefix);
    assert(outside_of(once, false) == Ok::<Seq<u8>, SpliceError>(prefix));
    assert(line_ending_outside(original) == line_ending_of(original));
    if original.len() > 0 && original.last() != 10 {
        lemma_ending_kept(original);
    }
    assert(line_ending_outside(once) == line_ending_outside(original));
    // Rewriting the region in place puts back the same bytes.
    lemma_rewritten_section(once, body);
    assert(once.subrange(0, p) + region + once.subrange(once.len() as int, once.len() as int) =~= once);
    // Rewriting it with another list keeps one opening line.
    lemma_rewritten_section(once, other);
    let again = applied(once, other)->Ok_0.0;
    lemma_scan_single(again, begin, 0, p);
}
/// The line ending Cairn writes with is read from the bytes around its
/// region, so writing a list, of whatever length, leaves it as it was: the
/// next write uses the same one. (A file with no section must not end with a
/// lone carriage return, which the line feed Cairn adds would pair with.)
pub proof fn lemma_line_ending_ignores_the_region(original: Seq<u8>, body: Seq<u8>)
    requires
        section_of(original) is Ok,
        section_of(original)->Ok_0 is None ==> original.len() == 0 || original.last() != 13,
        free_of_markers(body),
        original.len() + 3 * body.len() + 400 <= usize::MAX,
    ensures
        applied(original, body) matches Ok((bytes, _)) && line_ending_outside(bytes) == line_ending_outside(
            original,
        ),
{
    if section_of(original)->Ok_0 is Some {
        lemma_reapply_keeps_outside(original, body, false);
    } else {
        lemma_reapply_rewrites_nothing(original, body, body);
    }
}

} // verus!
