//! Which changed lines get word-level diff highlights: the visible window
//! of the document and the pairs of modified lines (document line, base
//! line) inside it.

use vstd::prelude::*;

use crate::line_map::{min_int, Hunk};
use crate::text_lines::TextLines;

verus! {

/// First and last document line of a window of `height` rows starting at
/// character `anchor`.
pub open spec fn spec_diff_window(text: TextLines, anchor: int, height: int) -> (int, int) {
    let first = text.spec_char_to_line(min_int(anchor, text.len_chars as int));
    (first, min_int(first + height, text.spec_len_lines() - 1))
}

pub fn diff_window(text: &TextLines, anchor: usize, height: u16) -> (w: (usize, usize))
    requires
        text.wf(),
        text.spec_len_lines() + height <= usize::MAX,
    ensures
        w.0 == spec_diff_window(*text, anchor as int, height as int).0,
        w.1 == spec_diff_window(*text, anchor as int, height as int).1,
        w.0 <= w.1,
{
    let a = if anchor < text.len_chars {
        anchor
    } else {
        text.len_chars
    };
    let first = text.char_to_line(a);
    let n = text.len_lines();
    let last = if first + (height as usize) < n - 1 {
        first + height as usize
    } else {
        n - 1
    };
    (first, last)
}

/// Paired lines `offset < k` of a modified hunk that lie in `[first, last]`.
pub open spec fn spec_hunk_pairs(hunk: Hunk, first: int, last: int, k: int) -> Seq<(u32, u32)>
    decreases k,
{
    if k <= 0 {
        Seq::empty()
    } else {
        let offset = k - 1;
        let doc_line = hunk.after.start + offset;
        spec_hunk_pairs(hunk, first, last, k - 1) + if doc_line < first || doc_line > last {
            Seq::<(u32, u32)>::empty()
        } else {
            seq![(doc_line as u32, (hunk.before.start + offset) as u32)]
        }
    }
}

/// Number of line pairs of a hunk: the shorter of its two sides.
pub open spec fn spec_paired(hunk: Hunk) -> int {
    min_int(hunk.before.end - hunk.before.start, hunk.after.end - hunk.after.start)
}

/// `(document line, base line)` of modified lines inside `[first, last]`,
/// from the first `n` hunks; pure insertions and removals have no pairs.
pub open spec fn spec_paired_lines(hunks: Seq<Hunk>, first: int, last: int, n: int) -> Seq<(u32, u32)>
    decreases n,
{
    if n <= 0 {
        Seq::empty()
    } else {
        let h = hunks[n - 1];
        spec_paired_lines(hunks, first, last, n - 1) + if h.spec_is_pure_insertion()
            || h.spec_is_pure_removal() {
            Seq::<(u32, u32)>::empty()
        } else {
            spec_hunk_pairs(h, first, last, spec_paired(h))
        }
    }
}

/// `p` is a modified line pair of hunk `h`: its document line `p.0` is one
/// of the first `min(len(h.before), len(h.after))` lines of `h.after`, and its
/// base line `p.1` lies at the same offset from `h.before.start`.
pub open spec fn spec_is_pair_of(h: Hunk, p: (u32, u32)) -> bool {
    &&& h.after.start <= p.0
    &&& p.0 < h.after.start + min_int(
        h.before.end - h.before.start,
        h.after.end - h.after.start,
    )
    &&& p.1 == h.before.start + (p.0 - h.after.start)
}

proof fn lemma_hunk_pairs(h: Hunk, first: int, last: int, m: int)
    requires
        h.before.start <= h.before.end,
        h.after.start <= h.after.end,
        0 <= m <= min_int(h.before.end - h.before.start, h.after.end - h.after.start),
    ensures
        forall|i: int|
            #![trigger spec_hunk_pairs(h, first, last, m)[i]]
            0 <= i < spec_hunk_pairs(h, first, last, m).len() ==> {
                let p = spec_hunk_pairs(h, first, last, m)[i];
                &&& spec_is_pair_of(h, p)
                &&& p.0 < h.after.start + m
                &&& first <= p.0 <= last
            },
        forall|k: int|
            0 <= k < m && first <= h.after.start + k <= last ==> #[trigger] spec_hunk_pairs(
                h,
                first,
                last,
                m,
            ).contains(((h.after.start + k) as u32, (h.before.start + k) as u32)),
    decreases m,
{
    if m > 0 {
        lemma_hunk_pairs(h, first, last, m - 1);
        let prev = spec_hunk_pairs(h, first, last, m - 1);
        let r = spec_hunk_pairs(h, first, last, m);
        assert forall|k: int|
            0 <= k < m && first <= h.after.start + k <= last implies #[trigger] r.contains(
            ((h.after.start + k) as u32, (h.before.start + k) as u32),
        ) by {
            let q = ((h.after.start + k) as u32, (h.before.start + k) as u32);
            if k < m - 1 {
                assert(prev.contains(q));
                let j = choose|j: int| 0 <= j < prev.len() && prev[j] == q;
                assert(r[j] == q);
            } else {
                assert(r[prev.len() as int] == q);
            }
        }
    }
}

/// The pairs offered for word-level highlighting are exactly the paired
/// lines of the modified hunks (neither pure insertions nor pure removals)
/// whose document line lies in the window `[first, last]`: each pair is a
/// document line `h.after.start + k` with the base line `h.before.start + k`
/// of one such hunk `h`, `k` below the shorter side's length, and every such
/// line of the window is offered.
pub proof fn lemma_paired_lines(hunks: Seq<Hunk>, first: int, last: int, n: int)
    requires
        crate::line_map::hunks_ordered(hunks),
        0 <= n <= hunks.len(),
    ensures
        forall|i: int|
            #![trigger spec_paired_lines(hunks, first, last, n)[i]]
            0 <= i < spec_paired_lines(hunks, first, last, n).len() ==> {
                let p = spec_paired_lines(hunks, first, last, n)[i];
                &&& first <= p.0 <= last
                &&& exists|j: int|
                    0 <= j < n && !hunks[j].spec_is_pure_insertion()
                        && !hunks[j].spec_is_pure_removal() && #[trigger] spec_is_pair_of(
                        hunks[j],
                        p,
                    )
            },
        forall|j: int, k: int|
            0 <= j < n && !hunks[j].spec_is_pure_insertion() && !hunks[j].spec_is_pure_removal()
                && 0 <= k < min_int(
                hunks[j].before.end - hunks[j].before.start,
                hunks[j].after.end - hunks[j].after.start,
            ) && first <= hunks[j].after.start + k <= last ==> #[trigger] spec_paired_lines(
                hunks,
                first,
                last,
                n,
            ).contains(((hunks[j].after.start + k) as u32, (hunks[j].before.start + k) as u32)),
    decreases n,
{
    if n > 0 {
        lemma_paired_lines(hunks, first, last, n - 1);
        let prev = spec_paired_lines(hunks, first, last, n - 1);
        let r = spec_paired_lines(hunks, first, last, n);
        let h = hunks[n - 1];
        assert(h.before.start <= h.before.end && h.after.start <= h.after.end);
        let pure = h.spec_is_pure_insertion() || h.spec_is_pure_removal();
        let tail = if pure {
            Seq::<(u32, u32)>::empty()
        } else {
            spec_hunk_pairs(h, first, last, spec_paired(h))
        };
        assert(r == prev + tail);
        if !pure {
            lemma_hunk_pairs(h, first, last, spec_paired(h));
        }
        assert forall|i: int| 0 <= i < r.len() implies first <= #[trigger] r[i].0 <= last
            && exists|j: int|
            0 <= j < n && !hunks[j].spec_is_pure_insertion() && !hunks[j].spec_is_pure_removal()
                && #[trigger] spec_is_pair_of(hunks[j], r[i]) by {
            if i < prev.len() {
                assert(r[i] == prev[i]);
                let j = choose|j: int|
                    0 <= j < n - 1 && !hunks[j].spec_is_pure_insertion()
                        && !hunks[j].spec_is_pure_removal() && #[trigger] spec_is_pair_of(
                        hunks[j],
                        prev[i],
                    );
                assert(spec_is_pair_of(hunks[j], r[i]));
            } else {
                assert(r[i] == tail[i - prev.len()]);
                assert(spec_is_pair_of(hunks[n - 1], r[i]));
            }
        }
        assert forall|j: int, k: int|
            0 <= j < n && !hunks[j].spec_is_pure_insertion() && !hunks[j].spec_is_pure_removal()
                && 0 <= k < min_int(
                hunks[j].before.end - hunks[j].before.start,
                hunks[j].after.end - hunks[j].after.start,
            ) && first <= hunks[j].after.start + k <= last implies #[trigger] r.contains(
            ((hunks[j].after.start + k) as u32, (hunks[j].before.start + k) as u32),
        ) by {
            let q = ((hunks[j].after.start + k) as u32, (hunks[j].before.start + k) as u32);
            if j < n - 1 {
                assert(prev.contains(q));
                let t = choose|t: int| 0 <= t < prev.len() && prev[t] == q;
                assert(r[t] == q);
            } else {
                assert(hunks[j] == h);
                assert(tail.contains(q));
                let t = choose|t: int| 0 <= t < tail.len() && tail[t] == q;
                assert(r[prev.len() + t] == q);
            }
        }
    }
}

/// The modified line pairs to highlight word by word in the window
/// `[first_line, last_line]`.
pub fn paired_lines_in_window(hunks: &[Hunk], first_line: usize, last_line: usize) -> (pairs: Vec<
    (u32, u32),
>)
    requires
        crate::line_map::hunks_ordered(hunks@),
        first_line <= last_line <= u32::MAX,
    ensures
        pairs@ == spec_paired_lines(hunks@, first_line as int, last_line as int, hunks@.len() as int),
        forall|i: int|
            #![trigger pairs@[i]]
            0 <= i < pairs@.len() ==> first_line <= pairs@[i].0 <= last_line && exists|j: int|
                0 <= j < hunks@.len() && !hunks@[j].spec_is_pure_insertion()
                    && !hunks@[j].spec_is_pure_removal() && #[trigger] spec_is_pair_of(
                    hunks@[j],
                    pairs@[i],
                ),
{
    proof {
        lemma_paired_lines(hunks@, first_line as int, last_line as int, hunks@.len() as int);
    }
    let first = first_line as u32;
    let last = last_line as u32;
    let mut pairs: Vec<(u32, u32)> = Vec::new();
    let mut i: usize = 0;
    while i < hunks.len()
        invariant
            i <= hunks@.len(),
            crate::line_map::hunks_ordered(hunks@),
            first == first_line,
            last == last_line,
            pairs@ == spec_paired_lines(hunks@, first_line as int, last_line as int, i as int),
        decreases hunks.len() - i,
    {
        let hunk = hunks[i];
        assert(hunk == hunks@[i as int]);
        if !(hunk.is_pure_insertion() || hunk.is_pure_removal()) {
            let before_len = hunk.before.end - hunk.before.start;
            let after_len = hunk.after.end - hunk.after.start;
            let paired = if before_len <= after_len {
                before_len
            } else {
                after_len
            };
            let ghost start = pairs@;
            let mut offset: u32 = 0;
            while offset < paired
                invariant
                    offset <= paired,
                    paired == spec_paired(hunk),
                    hunk.before.start <= hunk.before.end,
                    hunk.after.start <= hunk.after.end,
                    first == first_line,
                    last == last_line,
                    pairs@ == start + spec_hunk_pairs(
                        hunk,
                        first_line as int,
                        last_line as int,
                        offset as int,
                    ),
                decreases paired - offset,
            {
                let doc_line = hunk.after.start + offset;
                if !(doc_line < first || doc_line > last) {
                    let base_line = hunk.before.start + offset;
                    pairs.push((doc_line, base_line));
                }
                offset += 1;
                assert(pairs@ =~= start + spec_hunk_pairs(
                    hunk,
                    first_line as int,
                    last_line as int,
                    offset as int,
                ));
            }
        }
        i += 1;
    }
    pairs
}

/// The pairs among the first `n` whose two lines both exist and differ:
/// only those get word-level highlights.
pub open spec fn spec_changed_pairs(
    pairs: Seq<(u32, u32)>,
    doc: Seq<Seq<char>>,
    base: Seq<Seq<char>>,
    n: int,
) -> Seq<(u32, u32)>
    decreases n,
{
    if n <= 0 {
        Seq::empty()
    } else {
        let (d, b) = pairs[n - 1];
        spec_changed_pairs(pairs, doc, base, n - 1) + if d < doc.len() && b < base.len() && doc[d as int]
            != base[b as int] {
            seq![(d, b)]
        } else {
            Seq::<(u32, u32)>::empty()
        }
    }
}

/// Keeps the `(document line, base line)` pairs whose lines differ
/// (`doc_lines` and `base_lines` are the two texts' lines).
pub fn changed_line_pairs(pairs: &[(u32, u32)], doc_lines: &[String], base_lines: &[String]) -> (r:
    Vec<(u32, u32)>)
    ensures
        r@ == spec_changed_pairs(
            pairs@,
            doc_lines@.map_values(|l: String| l@),
            base_lines@.map_values(|l: String| l@),
            pairs@.len() as int,
        ),
{
    let ghost doc = doc_lines@.map_values(|l: String| l@);
    let ghost base = base_lines@.map_values(|l: String| l@);
    let mut r: Vec<(u32, u32)> = Vec::new();
    let mut i: usize = 0;
    while i < pairs.len()
        invariant
            i <= pairs@.len(),
            doc == doc_lines@.map_values(|l: String| l@),
            base == base_lines@.map_values(|l: String| l@),
            r@ == spec_changed_pairs(pairs@, doc, base, i as int),
        decreases pairs.len() - i,
    {
        let (d, b) = pairs[i];
        let du = d as usize;
        let bu = b as usize;
        if du < doc_lines.len() && bu < base_lines.len() {
            assert(doc[du as int] == doc_lines@[du as int]@);
            assert(base[bu as int] == base_lines@[bu as int]@);
            if doc_lines[du] != base_lines[bu] {
                r.push((d, b));
            }
        }
        i += 1;
    }
    r
}

/// The modified lines of the visible window whose words are to be diffed:
/// `None` when the document has no diff hunks or the theme has no diff
/// highlight, else the `(document line, base line)` pairs whose texts
/// differ. `text` is the document's line structure, `doc_lines` and
/// `base_lines` the lines of the document and of its diff base.
pub fn lines_to_highlight(
    text: &TextLines,
    doc_lines: &[String],
    base_lines: &[String],
    hunks: &[Hunk],
    has_highlight: bool,
    anchor: usize,
    height: u16,
) -> (r: Option<Vec<(u32, u32)>>)
    requires
        text.wf(),
        crate::line_map::hunks_ordered(hunks@),
        text.spec_len_lines() <= u32::MAX,
        text.spec_len_lines() + height <= usize::MAX,
    ensures
        hunks@.len() == 0 || !has_highlight ==> r is None,
        hunks@.len() > 0 && has_highlight ==> (r matches Some(pairs) && {
            let (first, last) = spec_diff_window(*text, anchor as int, height as int);
            pairs@ == spec_changed_pairs(
                spec_paired_lines(hunks@, first, last, hunks@.len() as int),
                doc_lines@.map_values(|l: String| l@),
                base_lines@.map_values(|l: String| l@),
                spec_paired_lines(hunks@, first, last, hunks@.len() as int).len() as int,
            )
        }),
{
    if hunks.len() == 0 || !has_highlight {
        return None;
    }
    let (first, last) = diff_window(text, anchor, height);
    let pairs = paired_lines_in_window(hunks, first, last);
    Some(changed_line_pairs(pairs.as_slice(), doc_lines, base_lines))
}

/// A changed document line and the character ranges of its changed words
/// (offsets within the line), as the word diff reports them.
pub open spec fn spec_words_view(words: Seq<(u32, Vec<(usize, usize)>)>) -> Seq<(u32, Seq<(usize, usize)>)> {
    words.map_values(|w: (u32, Vec<(usize, usize)>)| (w.0, w.1@))
}

/// The word ranges of the first `n` changed lines, moved to document
/// character positions by adding each line's start.
pub open spec fn spec_highlight_ranges(
    text: TextLines,
    words: Seq<(u32, Seq<(usize, usize)>)>,
    n: int,
) -> Seq<(int, int)>
    decreases n,
{
    if n <= 0 {
        Seq::empty()
    } else {
        let (line, ranges) = words[n - 1];
        let start = text.spec_line_to_char(line as int);
        spec_highlight_ranges(text, words, n - 1) + Seq::new(
            ranges.len(),
            |j: int| (start + ranges[j].0, start + ranges[j].1),
        )
    }
}

/// The highlights of the changed words: `None` when no line has any.
pub fn highlight_ranges(text: &TextLines, words: &[(u32, Vec<(usize, usize)>)]) -> (r: Option<
    Vec<(usize, usize)>,
>)
    requires
        text.wf(),
        forall|i: int| 0 <= i < words@.len() ==> (#[trigger] words@[i]).0 < text.spec_len_lines(),
        forall|i: int, j: int|
            0 <= i < words@.len() && 0 <= j < words@[i].1@.len() ==> text.spec_line_to_char(
                words@[i].0 as int,
            ) + (#[trigger] words@[i].1@[j]).0 <= usize::MAX && text.spec_line_to_char(
                words@[i].0 as int,
            ) + words@[i].1@[j].1 <= usize::MAX,
    ensures
        ({
            let all = spec_highlight_ranges(*text, spec_words_view(words@), words@.len() as int);
            &&& all.len() == 0 ==> r is None
            &&& all.len() > 0 ==> (r matches Some(v) && v@.len() == all.len() && forall|k: int|
                0 <= k < all.len() ==> (#[trigger] v@[k]).0 == all[k].0 && v@[k].1 == all[k].1)
        }),
{
    let ghost wv = spec_words_view(words@);
    let mut out: Vec<(usize, usize)> = Vec::new();
    let mut i: usize = 0;
    while i < words.len()
        invariant
            text.wf(),
            i <= words@.len(),
            wv == spec_words_view(words@),
            forall|a: int| 0 <= a < words@.len() ==> (#[trigger] words@[a]).0 < text.spec_len_lines(),
            forall|a: int, b: int|
                0 <= a < words@.len() && 0 <= b < words@[a].1@.len() ==> text.spec_line_to_char(
                    words@[a].0 as int,
                ) + (#[trigger] words@[a].1@[b]).0 <= usize::MAX && text.spec_line_to_char(
                    words@[a].0 as int,
                ) + words@[a].1@[b].1 <= usize::MAX,
            out@.len() == spec_highlight_ranges(*text, wv, i as int).len(),
            forall|k: int|
                0 <= k < out@.len() ==> (#[trigger] out@[k]).0 == spec_highlight_ranges(
                    *text,
                    wv,
                    i as int,
                )[k].0 && out@[k].1 == spec_highlight_ranges(*text, wv, i as int)[k].1,
        decreases words.len() - i,
    {
        let line = words[i].0;
        let ranges = &words[i].1;
        assert(wv[i as int] == (line, ranges@));
        let start = text.line_to_char(line as usize);
        let ghost before = spec_highlight_ranges(*text, wv, i as int);
        let ghost next = spec_highlight_ranges(*text, wv, i + 1);
        assert(next == before + Seq::new(
            ranges@.len(),
            |j: int| (start + ranges@[j].0, start + ranges@[j].1),
        ));
        let mut j: usize = 0;
        while j < ranges.len()
            invariant
                j <= ranges@.len(),
                ranges@ == words@[i as int].1@,
                start == text.spec_line_to_char(line as int),
                line == words@[i as int].0,
                i < words@.len(),
                forall|b: int|
                    0 <= b < words@[i as int].1@.len() ==> start + (#[trigger] words@[i as int].1@[b]).0
                        <= usize::MAX && start + words@[i as int].1@[b].1 <= usize::MAX,
                next == before + Seq::new(
                    ranges@.len(),
                    |jj: int| (start + ranges@[jj].0, start + ranges@[jj].1),
                ),
                out@.len() == before.len() + j,
                forall|k: int|
                    0 <= k < out@.len() ==> (#[trigger] out@[k]).0 == next[k].0 && out@[k].1
                        == next[k].1,
            decreases ranges.len() - j,
        {
            let (a, b) = ranges[j];
            assert(ranges@[j as int] == words@[i as int].1@[j as int]);
            out.push((start + a, start + b));
            j += 1;
        }
        i += 1;
    }
    if out.len() == 0 {
        None
    } else {
        Some(out)
    }
}

} // verus!
