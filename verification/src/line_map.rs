//! Mapping line numbers between a document and its diff base through the
//! hunks of their diff, so that linked panes show corresponding content.

use vstd::prelude::*;

verus! {

/// A half-open range of line numbers.
#[derive(Debug, Clone, Copy, PartialEq, Eq, Structural)]
pub struct LineRange {
    pub start: u32,
    pub end: u32,
}

/// One change of a diff: lines `before` of the base were replaced by lines
/// `after` of the document.
#[derive(Debug, Clone, Copy, PartialEq, Eq, Structural)]
pub struct Hunk {
    pub before: LineRange,
    pub after: LineRange,
}

impl Hunk {
    pub open spec fn spec_is_pure_insertion(self) -> bool {
        self.before.start == self.before.end
    }

    pub open spec fn spec_is_pure_removal(self) -> bool {
        self.after.start == self.after.end
    }

    /// Lines that were added without removing any.
    pub fn is_pure_insertion(&self) -> (b: bool)
        ensures
            b == self.spec_is_pure_insertion(),
    {
        self.before.start == self.before.end
    }

    /// Lines that were removed without adding any.
    pub fn is_pure_removal(&self) -> (b: bool)
        ensures
            b == self.spec_is_pure_removal(),
    {
        self.after.start == self.after.end
    }
}

/// Both ranges of every hunk are ordered (`start <= end`).
pub open spec fn hunks_ordered(hunks: Seq<Hunk>) -> bool {
    forall|i: int|
        0 <= i < hunks.len() ==> (#[trigger] hunks[i]).before.start <= hunks[i].before.end
            && hunks[i].after.start <= hunks[i].after.end
}

/// A well-formed diff: ordered ranges, hunks sorted without overlap on both
/// sides, and equally long unchanged stretches before and between hunks.
pub open spec fn diff_wf(hunks: Seq<Hunk>) -> bool {
    &&& hunks_ordered(hunks)
    &&& forall|j: int, k: int|
        0 <= j < k < hunks.len() ==> (#[trigger] hunks[j]).before.end <= (#[trigger] hunks[k]).before.start
            && hunks[j].after.end <= hunks[k].after.start
    &&& hunks.len() > 0 ==> hunks[0].before.start == hunks[0].after.start
    &&& forall|k: int|
        0 < k < hunks.len() ==> (#[trigger] hunks[k]).before.start - hunks[k - 1].before.end
            == hunks[k].after.start - hunks[k - 1].after.end
}

pub open spec fn sat_sub(a: int, b: int) -> int {
    if a < b {
        0
    } else {
        a - b
    }
}

pub open spec fn min_int(a: int, b: int) -> int {
    if a <= b {
        a
    } else {
        b
    }
}

/// `(before.end, after.end)` of the hunk preceding hunk `index`, or the
/// start of both files.
pub open spec fn spec_previous_hunk_ends(hunks: Seq<Hunk>, index: int) -> (int, int) {
    if index == 0 {
        (0, 0)
    } else {
        (hunks[index - 1].before.end as int, hunks[index - 1].after.end as int)
    }
}

/// A document line inside hunk `hunk` on the base side: paired lines map
/// one to one, extra lines to the last base line of the hunk, and pure
/// insertions or removals to the hunk's base start.
pub open spec fn spec_within_hunk_to_base(hunk: Hunk, doc_line: int) -> int {
    if hunk.spec_is_pure_insertion() || hunk.spec_is_pure_removal() {
        hunk.before.start as int
    } else {
        let offset = sat_sub(doc_line, hunk.after.start as int);
        let paired = min_int(
            hunk.before.end - hunk.before.start,
            hunk.after.end - hunk.after.start,
        );
        if offset < paired {
            hunk.before.start + offset
        } else {
            sat_sub(hunk.before.end as int, 1)
        }
    }
}

/// A base line inside hunk `hunk` on the document side (mirror of
/// `spec_within_hunk_to_base`).
pub open spec fn spec_within_hunk_to_doc(hunk: Hunk, base_line: int) -> int {
    if hunk.spec_is_pure_removal() || hunk.spec_is_pure_insertion() {
        hunk.after.start as int
    } else {
        let offset = sat_sub(base_line, hunk.before.start as int);
        let paired = min_int(
            hunk.before.end - hunk.before.start,
            hunk.after.end - hunk.after.start,
        );
        if offset < paired {
            hunk.after.start + offset
        } else {
            sat_sub(hunk.after.end as int, 1)
        }
    }
}

/// Document line to base line, scanning hunks from `i` on.
pub open spec fn spec_doc_to_base_from(hunks: Seq<Hunk>, doc_line: int, i: int) -> int
    decreases hunks.len() - i,
{
    if i >= hunks.len() || i < 0 {
        let last = hunks[hunks.len() - 1];
        last.before.end + sat_sub(doc_line, last.after.end as int)
    } else {
        let hunk = hunks[i];
        if doc_line < hunk.after.start {
            let (before_end, after_end) = spec_previous_hunk_ends(hunks, i);
            before_end + sat_sub(doc_line, after_end)
        } else if doc_line < hunk.after.end {
            spec_within_hunk_to_base(hunk, doc_line)
        } else {
            spec_doc_to_base_from(hunks, doc_line, i + 1)
        }
    }
}

/// Base line to document line, scanning hunks from `i` on.
pub open spec fn spec_base_to_doc_from(hunks: Seq<Hunk>, base_line: int, i: int) -> int
    decreases hunks.len() - i,
{
    if i >= hunks.len() || i < 0 {
        let last = hunks[hunks.len() - 1];
        last.after.end + sat_sub(base_line, last.before.end as int)
    } else {
        let hunk = hunks[i];
        if base_line < hunk.before.start {
            let (before_end, after_end) = spec_previous_hunk_ends(hunks, i);
            after_end + sat_sub(base_line, before_end)
        } else if base_line < hunk.before.end {
            spec_within_hunk_to_doc(hunk, base_line)
        } else {
            spec_base_to_doc_from(hunks, base_line, i + 1)
        }
    }
}

/// The base line shown opposite document line `doc_line`: lines before a
/// hunk keep their distance to the previous hunk; lines inside a hunk map
/// into it; with no hunks the line is unchanged.
pub open spec fn spec_map_doc_line_to_base(hunks: Seq<Hunk>, doc_line: int) -> int {
    if hunks.len() == 0 {
        doc_line
    } else {
        spec_doc_to_base_from(hunks, doc_line, 0)
    }
}

/// The document line shown opposite base line `base_line`.
pub open spec fn spec_map_base_line_to_doc(hunks: Seq<Hunk>, base_line: int) -> int {
    if hunks.len() == 0 {
        base_line
    } else {
        spec_base_to_doc_from(hunks, base_line, 0)
    }
}

pub fn previous_hunk_ends(hunks: &[Hunk], index: usize) -> (ends: (u32, u32))
    requires
        index <= hunks.len(),
    ensures
        ends.0 == spec_previous_hunk_ends(hunks@, index as int).0,
        ends.1 == spec_previous_hunk_ends(hunks@, index as int).1,
{
    if index == 0 {
        (0, 0)
    } else {
        let prev = hunks[index - 1];
        (prev.before.end, prev.after.end)
    }
}

pub fn map_line_within_hunk_to_base(hunk: &Hunk, doc_line: u32) -> (l: u32)
    requires
        hunk.before.start <= hunk.before.end,
        hunk.after.start <= hunk.after.end,
    ensures
        l == spec_within_hunk_to_base(*hunk, doc_line as int),
        hunk.after.start <= doc_line < hunk.after.end && doc_line - hunk.after.start < min_int(
            hunk.before.end - hunk.before.start,
            hunk.after.end - hunk.after.start,
        ) ==> l == hunk.before.start + (doc_line - hunk.after.start),
        hunk.after.start <= doc_line < hunk.after.end && doc_line - hunk.after.start >= min_int(
            hunk.before.end - hunk.before.start,
            hunk.after.end - hunk.after.start,
        ) ==> l == (if hunk.before.end > hunk.before.start {
            hunk.before.end - 1
        } else {
            hunk.before.start as int
        }),
{
    if hunk.is_pure_insertion() {
        return hunk.before.start;
    }
    if hunk.is_pure_removal() {
        return hunk.before.start;
    }
    let offset = doc_line.saturating_sub(hunk.after.start);
    let before_len = hunk.before.end - hunk.before.start;
    let after_len = hunk.after.end - hunk.after.start;
    let paired = if before_len <= after_len {
        before_len
    } else {
        after_len
    };
    if offset < paired {
        hunk.before.start + offset
    } else {
        hunk.before.end.saturating_sub(1)
    }
}

pub fn map_line_within_hunk_to_doc(hunk: &Hunk, base_line: u32) -> (l: u32)
    requires
        hunk.before.start <= hunk.before.end,
        hunk.after.start <= hunk.after.end,
    ensures
        l == spec_within_hunk_to_doc(*hunk, base_line as int),
        hunk.before.start <= base_line < hunk.before.end && base_line - hunk.before.start < min_int(
            hunk.before.end - hunk.before.start,
            hunk.after.end - hunk.after.start,
        ) ==> l == hunk.after.start + (base_line - hunk.before.start),
        hunk.before.start <= base_line < hunk.before.end && base_line - hunk.before.start >= min_int(
            hunk.before.end - hunk.before.start,
            hunk.after.end - hunk.after.start,
        ) ==> l == (if hunk.after.end > hunk.after.start {
            hunk.after.end - 1
        } else {
            hunk.after.start as int
        }),
{
    if hunk.is_pure_removal() {
        return hunk.after.start;
    }
    if hunk.is_pure_insertion() {
        return hunk.after.start;
    }
    let offset = base_line.saturating_sub(hunk.before.start);
    let before_len = hunk.before.end - hunk.before.start;
    let after_len = hunk.after.end - hunk.after.start;
    let paired = if before_len <= after_len {
        before_len
    } else {
        after_len
    };
    if offset < paired {
        hunk.after.start + offset
    } else {
        hunk.after.end.saturating_sub(1)
    }
}

/// Maps a document line to the corresponding line of the diff base.
pub fn map_doc_line_to_base(hunks: &[Hunk], doc_line: u32) -> (l: u32)
    requires
        hunks_ordered(hunks@),
        spec_map_doc_line_to_base(hunks@, doc_line as int) <= u32::MAX,
    ensures
        l == spec_map_doc_line_to_base(hunks@, doc_line as int),
{
    if hunks.len() == 0 {
        return doc_line;
    }
    let mut i: usize = 0;
    while i < hunks.len()
        invariant
            i <= hunks.len(),
            hunks.len() > 0,
            hunks_ordered(hunks@),
            spec_map_doc_line_to_base(hunks@, doc_line as int) == spec_doc_to_base_from(
                hunks@,
                doc_line as int,
                i as int,
            ),
            spec_map_doc_line_to_base(hunks@, doc_line as int) <= u32::MAX,
        decreases hunks.len() - i,
    {
        let hunk = hunks[i];
        if doc_line < hunk.after.start {
            let (before_end, after_end) = previous_hunk_ends(hunks, i);
            return before_end + doc_line.saturating_sub(after_end);
        }
        if doc_line < hunk.after.end {
            return map_line_within_hunk_to_base(&hunk, doc_line);
        }
        i += 1;
    }
    let last = hunks[hunks.len() - 1];
    last.before.end + doc_line.saturating_sub(last.after.end)
}

/// Maps a line of the diff base to the corresponding document line.
pub fn map_base_line_to_doc(hunks: &[Hunk], base_line: u32) -> (l: u32)
    requires
        hunks_ordered(hunks@),
        spec_map_base_line_to_doc(hunks@, base_line as int) <= u32::MAX,
    ensures
        l == spec_map_base_line_to_doc(hunks@, base_line as int),
{
    if hunks.len() == 0 {
        return base_line;
    }
    let mut i: usize = 0;
    while i < hunks.len()
        invariant
            i <= hunks.len(),
            hunks.len() > 0,
            hunks_ordered(hunks@),
            spec_map_base_line_to_doc(hunks@, base_line as int) == spec_base_to_doc_from(
                hunks@,
                base_line as int,
                i as int,
            ),
            spec_map_base_line_to_doc(hunks@, base_line as int) <= u32::MAX,
        decreases hunks.len() - i,
    {
        let hunk = hunks[i];
        if base_line < hunk.before.start {
            let (before_end, after_end) = previous_hunk_ends(hunks, i);
            return after_end + base_line.saturating_sub(before_end);
        }
        if base_line < hunk.before.end {
            return map_line_within_hunk_to_doc(&hunk, base_line);
        }
        i += 1;
    }
    let last = hunks[hunks.len() - 1];
    last.after.end + base_line.saturating_sub(last.before.end)
}

/// Document line `l` is not inside the document side of any hunk.
pub open spec fn outside_doc_hunks(hunks: Seq<Hunk>, l: int) -> bool {
    forall|j: int|
        0 <= j < hunks.len() ==> !((#[trigger] hunks[j]).after.start <= l < hunks[j].after.end)
}

/// Base line `b` is not inside the base side of any hunk.
pub open spec fn outside_base_hunks(hunks: Seq<Hunk>, b: int) -> bool {
    forall|j: int|
        0 <= j < hunks.len() ==> !((#[trigger] hunks[j]).before.start <= b < hunks[j].before.end)
}

/// Scanning for document line `l` passes every hunk before `k` and stops at
/// hunk `k` (or runs past the last hunk).
proof fn lemma_doc_scan_stops(hunks: Seq<Hunk>, l: int, k: int, i: int)
    requires
        hunks_ordered(hunks),
        hunks.len() > 0,
        0 <= i <= k <= hunks.len(),
        forall|j: int| 0 <= j < k ==> (#[trigger] hunks[j]).after.end <= l,
        k < hunks.len() ==> l < hunks[k].after.start,
    ensures
        spec_doc_to_base_from(hunks, l, i) == if k == hunks.len() {
            hunks[hunks.len() - 1].before.end + sat_sub(l, hunks[hunks.len() - 1].after.end as int)
        } else {
            spec_previous_hunk_ends(hunks, k).0 + sat_sub(l, spec_previous_hunk_ends(hunks, k).1)
        },
    decreases k - i,
{
    if i < k {
        assert(hunks[i].after.start <= hunks[i].after.end);
        lemma_doc_scan_stops(hunks, l, k, i + 1);
    }
}

/// Mirror of `lemma_doc_scan_stops` for base lines.
proof fn lemma_base_scan_stops(hunks: Seq<Hunk>, b: int, k: int, i: int)
    requires
        hunks_ordered(hunks),
        hunks.len() > 0,
        0 <= i <= k <= hunks.len(),
        forall|j: int| 0 <= j < k ==> (#[trigger] hunks[j]).before.end <= b,
        k < hunks.len() ==> b < hunks[k].before.start,
    ensures
        spec_base_to_doc_from(hunks, b, i) == if k == hunks.len() {
            hunks[hunks.len() - 1].after.end + sat_sub(b, hunks[hunks.len() - 1].before.end as int)
        } else {
            spec_previous_hunk_ends(hunks, k).1 + sat_sub(b, spec_previous_hunk_ends(hunks, k).0)
        },
    decreases k - i,
{
    if i < k {
        assert(hunks[i].before.start <= hunks[i].before.end);
        lemma_base_scan_stops(hunks, b, k, i + 1);
    }
}

proof fn lemma_doc_roundtrip_from(hunks: Seq<Hunk>, l: int, i: int)
    requires
        diff_wf(hunks),
        hunks.len() > 0,
        0 <= l,
        0 <= i <= hunks.len(),
        outside_doc_hunks(hunks, l),
        forall|j: int| 0 <= j < i ==> (#[trigger] hunks[j]).after.end <= l,
    ensures
        spec_map_base_line_to_doc(hunks, spec_map_doc_line_to_base(hunks, l)) == l,
    decreases hunks.len() - i,
{
    if i < hunks.len() && l >= hunks[i].after.start {
        assert(!(hunks[i].after.start <= l < hunks[i].after.end));
        lemma_doc_roundtrip_from(hunks, l, i + 1);
    } else {
        let k = i;
        lemma_doc_scan_stops(hunks, l, k, 0);
        let b = spec_map_doc_line_to_base(hunks, l);
        if k > 0 {
            assert(hunks[k - 1].after.end <= l);
            assert forall|j: int| 0 <= j < k implies (#[trigger] hunks[j]).before.end <= b by {
                if j < k - 1 {
                    assert(hunks[j].before.end <= hunks[k - 1].before.start);
                }
            }
        }
        lemma_base_scan_stops(hunks, b, k, 0);
    }
}

proof fn lemma_base_roundtrip_from(hunks: Seq<Hunk>, b: int, i: int)
    requires
        diff_wf(hunks),
        hunks.len() > 0,
        0 <= b,
        0 <= i <= hunks.len(),
        outside_base_hunks(hunks, b),
        forall|j: int| 0 <= j < i ==> (#[trigger] hunks[j]).before.end <= b,
    ensures
        spec_map_doc_line_to_base(hunks, spec_map_base_line_to_doc(hunks, b)) == b,
    decreases hunks.len() - i,
{
    if i < hunks.len() && b >= hunks[i].before.start {
        assert(!(hunks[i].before.start <= b < hunks[i].before.end));
        lemma_base_roundtrip_from(hunks, b, i + 1);
    } else {
        let k = i;
        lemma_base_scan_stops(hunks, b, k, 0);
        let l = spec_map_base_line_to_doc(hunks, b);
        if k > 0 {
            assert(hunks[k - 1].before.end <= b);
            assert forall|j: int| 0 <= j < k implies (#[trigger] hunks[j]).after.end <= l by {
                if j < k - 1 {
                    assert(hunks[j].after.end <= hunks[k - 1].after.start);
                }
            }
        }
        lemma_doc_scan_stops(hunks, l, k, 0);
    }
}

/// An unchanged document line maps to the base and back to itself: linked
/// panes that scroll through unchanged content stay on the same text.
pub proof fn lemma_unchanged_doc_line_roundtrip(hunks: Seq<Hunk>, doc_line: int)
    requires
        diff_wf(hunks),
        0 <= doc_line,
        outside_doc_hunks(hunks, doc_line),
    ensures
        spec_map_base_line_to_doc(hunks, spec_map_doc_line_to_base(hunks, doc_line)) == doc_line,
{
    if hunks.len() > 0 {
        lemma_doc_roundtrip_from(hunks, doc_line, 0);
    }
}

/// An unchanged base line maps to the document and back to itself.
pub proof fn lemma_unchanged_base_line_roundtrip(hunks: Seq<Hunk>, base_line: int)
    requires
        diff_wf(hunks),
        0 <= base_line,
        outside_base_hunks(hunks, base_line),
    ensures
        spec_map_doc_line_to_base(hunks, spec_map_base_line_to_doc(hunks, base_line)) == base_line,
{
    if hunks.len() > 0 {
        lemma_base_roundtrip_from(hunks, base_line, 0);
    }
}

/// Scanning for document line `l` inside hunk `k` passes the hunks before it.
proof fn lemma_doc_scan_within(hunks: Seq<Hunk>, l: int, k: int, i: int)
    requires
        hunks_ordered(hunks),
        0 <= i <= k < hunks.len(),
        forall|j: int| 0 <= j < k ==> (#[trigger] hunks[j]).after.end <= l,
        hunks[k].after.start <= l < hunks[k].after.end,
    ensures
        spec_doc_to_base_from(hunks, l, i) == spec_within_hunk_to_base(hunks[k], l),
    decreases k - i,
{
    if i < k {
        assert(hunks[i].after.start <= hunks[i].after.end);
        lemma_doc_scan_within(hunks, l, k, i + 1);
    }
}

/// Scanning for base line `b` inside hunk `k` passes the hunks before it.
proof fn lemma_base_scan_within(hunks: Seq<Hunk>, b: int, k: int, i: int)
    requires
        hunks_ordered(hunks),
        0 <= i <= k < hunks.len(),
        forall|j: int| 0 <= j < k ==> (#[trigger] hunks[j]).before.end <= b,
        hunks[k].before.start <= b < hunks[k].before.end,
    ensures
        spec_base_to_doc_from(hunks, b, i) == spec_within_hunk_to_doc(hunks[k], b),
    decreases k - i,
{
    if i < k {
        assert(hunks[i].before.start <= hunks[i].before.end);
        lemma_base_scan_within(hunks, b, k, i + 1);
    }
}

/// Paired lines of a hunk correspond one to one: the line `offset` lines
/// into the document side of hunk `k` (with `offset` below the shorter side's
/// length) maps to the line `offset` lines into its base side, and back.
pub proof fn lemma_paired_lines_roundtrip(hunks: Seq<Hunk>, k: int, offset: int)
    requires
        diff_wf(hunks),
        0 <= k < hunks.len(),
        0 <= offset,
        offset < hunks[k].before.end - hunks[k].before.start,
        offset < hunks[k].after.end - hunks[k].after.start,
    ensures
        spec_map_doc_line_to_base(hunks, hunks[k].after.start + offset) == hunks[k].before.start
            + offset,
        spec_map_base_line_to_doc(hunks, hunks[k].before.start + offset) == hunks[k].after.start
            + offset,
{
    let l = hunks[k].after.start + offset;
    let b = hunks[k].before.start + offset;
    assert forall|j: int| 0 <= j < k implies (#[trigger] hunks[j]).after.end <= l && hunks[j].before.end
        <= b by {
        assert(hunks[j].after.end <= hunks[k].after.start);
        assert(hunks[j].before.end <= hunks[k].before.start);
    }
    lemma_doc_scan_within(hunks, l, k, 0);
    lemma_base_scan_within(hunks, b, k, 0);
}

/// A document line maps to the base and back to itself unless it lies in
/// the unpaired tail of a hunk (the extra lines of a hunk whose document
/// side is longer than its base side).
pub proof fn lemma_doc_line_roundtrip(hunks: Seq<Hunk>, l: int)
    requires
        diff_wf(hunks),
        0 <= l,
        forall|j: int|
            0 <= j < hunks.len() ==> !((#[trigger] hunks[j]).after.start + min_int(
                hunks[j].before.end - hunks[j].before.start,
                hunks[j].after.end - hunks[j].after.start,
            ) <= l < hunks[j].after.end),
    ensures
        spec_map_base_line_to_doc(hunks, spec_map_doc_line_to_base(hunks, l)) == l,
{
    if outside_doc_hunks(hunks, l) {
        lemma_unchanged_doc_line_roundtrip(hunks, l);
    } else {
        let k = choose|k: int| 0 <= k < hunks.len() && (#[trigger] hunks[k]).after.start <= l
            < hunks[k].after.end;
        lemma_paired_lines_roundtrip(hunks, k, l - hunks[k].after.start);
    }
}

/// A base line maps to the document and back to itself unless it lies in
/// the unpaired tail of a hunk.
pub proof fn lemma_base_line_roundtrip(hunks: Seq<Hunk>, b: int)
    requires
        diff_wf(hunks),
        0 <= b,
        forall|j: int|
            0 <= j < hunks.len() ==> !((#[trigger] hunks[j]).before.start + min_int(
                hunks[j].before.end - hunks[j].before.start,
                hunks[j].after.end - hunks[j].after.start,
            ) <= b < hunks[j].before.end),
    ensures
        spec_map_doc_line_to_base(hunks, spec_map_base_line_to_doc(hunks, b)) == b,
{
    if outside_base_hunks(hunks, b) {
        lemma_unchanged_base_line_roundtrip(hunks, b);
    } else {
        let k = choose|k: int| 0 <= k < hunks.len() && (#[trigger] hunks[k]).before.start <= b
            < hunks[k].before.end;
        lemma_paired_lines_roundtrip(hunks, k, b - hunks[k].before.start);
    }
}

/// Inside a hunk, base lines map to document lines as follows: the paired
/// lines (the first `min` of the two side lengths) one to one, and every
/// further base line to the hunk's last document line (to its start when
/// the hunk removes lines only). Document lines map back the same way.
pub proof fn lemma_lines_inside_hunk(hunks: Seq<Hunk>, k: int, line: int)
    requires
        diff_wf(hunks),
        0 <= k < hunks.len(),
    ensures
        ({
            let h = hunks[k];
            let paired = min_int(h.before.end - h.before.start, h.after.end - h.after.start);
            let b = line;
            &&& h.before.start <= b < h.before.end && b - h.before.start < paired
                ==> spec_map_base_line_to_doc(hunks, b) == h.after.start + (b - h.before.start)
            &&& h.before.start <= b < h.before.end && b - h.before.start >= paired
                ==> spec_map_base_line_to_doc(hunks, b) == (if h.after.end > h.after.start {
                h.after.end - 1
            } else {
                h.after.start as int
            })
            &&& h.after.start <= line < h.after.end && line - h.after.start < paired
                ==> spec_map_doc_line_to_base(hunks, line) == h.before.start + (line - h.after.start)
            &&& h.after.start <= line < h.after.end && line - h.after.start >= paired
                ==> spec_map_doc_line_to_base(hunks, line) == (if h.before.end > h.before.start {
                h.before.end - 1
            } else {
                h.before.start as int
            })
        }),
{
    let h = hunks[k];
    if h.before.start <= line < h.before.end {
        assert forall|j: int| 0 <= j < k implies (#[trigger] hunks[j]).before.end <= line by {
            assert(hunks[j].before.end <= hunks[k].before.start);
        }
        lemma_base_scan_within(hunks, line, k, 0);
    }
    if h.after.start <= line < h.after.end {
        assert forall|j: int| 0 <= j < k implies (#[trigger] hunks[j]).after.end <= line by {
            assert(hunks[j].after.end <= hunks[k].after.start);
        }
        lemma_doc_scan_within(hunks, line, k, 0);
    }
}

/// Within a hunk, mapping never goes backwards: of two base lines of the
/// same hunk, the later one maps to a document line at or after the one the
/// earlier maps to, and every one maps into the hunk's document side (its
/// start when that side is empty); the same holds from document to base.
pub proof fn lemma_hunk_maps_monotone(hunks: Seq<Hunk>, k: int, a: int, b: int)
    requires
        diff_wf(hunks),
        0 <= k < hunks.len(),
        a <= b,
    ensures
        ({
            let h = hunks[k];
            &&& h.before.start <= a && b < h.before.end ==> spec_map_base_line_to_doc(hunks, a)
                <= spec_map_base_line_to_doc(hunks, b)
            &&& h.before.start <= a && b < h.before.end ==> h.after.start
                <= spec_map_base_line_to_doc(hunks, b) && (spec_map_base_line_to_doc(hunks, b)
                < h.after.end || spec_map_base_line_to_doc(hunks, b) == h.after.start)
            &&& h.after.start <= a && b < h.after.end ==> spec_map_doc_line_to_base(hunks, a)
                <= spec_map_doc_line_to_base(hunks, b)
            &&& h.after.start <= a && b < h.after.end ==> h.before.start
                <= spec_map_doc_line_to_base(hunks, b) && (spec_map_doc_line_to_base(hunks, b)
                < h.before.end || spec_map_doc_line_to_base(hunks, b) == h.before.start)
        }),
{
    lemma_lines_inside_hunk(hunks, k, a);
    lemma_lines_inside_hunk(hunks, k, b);
}

} // verus!
