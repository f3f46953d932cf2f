//! Cursor movement and scrolling inside the virtual hex dump document.

use vstd::prelude::*;
use vstd::arithmetic::div_mod::lemma_fundamental_div_mod_converse;

use crate::hex_layout::{
    char_to_line_col, display_len_chars, len_fits, line_col_to_char, line_count, line_to_char,
    min_int, min_usize, spec_char_to_line_col, spec_line_col_to_char, spec_line_count,
    spec_line_to_char, spec_max_char, LINE_WIDTH,
};

verus! {

/// A selection range over character indices of the dump document.
#[derive(Debug, Clone, Copy, PartialEq, Eq, Structural)]
pub struct Range {
    pub anchor: usize,
    pub head: usize,
    pub old_visual_position: Option<VisualPosition>,
}

/// Remembered visual `(row, column)` used for vertical motion.
#[derive(Debug, Clone, Copy, PartialEq, Eq, Structural)]
pub struct VisualPosition {
    pub row: u32,
    pub col: u32,
}

impl Range {
    pub fn point(head: usize) -> (r: Range)
        ensures
            r == (Range { anchor: head, head, old_visual_position: None }),
    {
        Range { anchor: head, head, old_visual_position: None }
    }
}

#[derive(Debug, Clone, Copy, PartialEq, Eq, Structural)]
pub enum Direction {
    Forward,
    Backward,
}

#[derive(Debug, Clone, Copy, PartialEq, Eq, Structural)]
pub enum Movement {
    Move,
    Extend,
}

/// Scroll position of a view: first visible character, visual lines skipped
/// below it, and columns scrolled horizontally.
#[derive(Debug, Clone, Copy, PartialEq, Eq, Structural)]
pub struct ViewPosition {
    pub anchor: usize,
    pub horizontal_offset: usize,
    pub vertical_offset: usize,
}

/// A position relative to the viewport.
#[derive(Debug, Clone, Copy, PartialEq, Eq, Structural)]
pub struct Position {
    pub row: usize,
    pub col: usize,
}

/// Clamps both ends of a range to the last character of the dump document.
pub open spec fn spec_clamp_range(range: Range, byte_len: int) -> Range {
    Range {
        anchor: min_int(range.anchor as int, spec_max_char(byte_len)) as usize,
        head: min_int(range.head as int, spec_max_char(byte_len)) as usize,
        old_visual_position: range.old_visual_position,
    }
}

/// The per-range transform applied when a selection is clamped to the dump.
pub fn clamp_range(range: Range, byte_len: usize) -> (r: Range)
    requires
        len_fits(byte_len as int),
    ensures
        r == spec_clamp_range(range, byte_len as int),
{
    let max = display_len_chars(byte_len) - 1;
    Range {
        anchor: min_usize(range.anchor, max),
        head: min_usize(range.head, max),
        old_visual_position: range.old_visual_position,
    }
}

/// Clamps every range of a selection to the dump document (anchor and head
/// to its last character), in order.
pub fn clamp_selection(ranges: &[Range], byte_len: usize) -> (r: Vec<Range>)
    requires
        len_fits(byte_len as int),
    ensures
        r@.len() == ranges@.len(),
        forall|i: int| 0 <= i < ranges@.len() ==> #[trigger] r@[i] == spec_clamp_range(ranges@[i], byte_len as int),
{
    let mut r: Vec<Range> = Vec::new();
    let mut i: usize = 0;
    while i < ranges.len()
        invariant
            len_fits(byte_len as int),
            i <= ranges@.len(),
            r@.len() == i,
            forall|j: int| 0 <= j < i ==> #[trigger] r@[j] == spec_clamp_range(ranges@[j], byte_len as int),
        decreases ranges.len() - i,
    {
        r.push(clamp_range(ranges[i], byte_len));
        i += 1;
    }
    r
}

/// `(line, column)` of the range head after clamping it to the document.
pub open spec fn spec_head_line_col(range: Range, byte_len: int) -> (int, int) {
    spec_char_to_line_col(min_int(range.head as int, spec_max_char(byte_len)), byte_len)
}

/// Horizontal move forward: columns wrap onto following lines; past the last
/// line the cursor stops on the last column.
pub open spec fn spec_forward_line_col(line: int, col: int, count: int, lines: int) -> (int, int) {
    let c = min_int(col + count, usize::MAX as int);
    let steps = c / 76;
    if steps <= lines - 1 - line {
        (line + steps, c % 76)
    } else {
        (lines - 1, 75)
    }
}

/// Horizontal move backward: columns wrap onto previous lines and stop at
/// the start of the document.
pub open spec fn spec_backward_line_col(line: int, col: int, count: int) -> (int, int) {
    let p = line * 76 + col - count;
    let p = if p < 0 {
        0
    } else {
        p
    };
    (p / 76, p % 76)
}

pub open spec fn spec_move_target(
    line: int,
    col: int,
    dir: Direction,
    count: int,
    lines: int,
    vertical: bool,
) -> (int, int) {
    if vertical {
        match dir {
            Direction::Forward => (min_int(line + count, lines - 1), col),
            Direction::Backward => (if line - count < 0 {
                0
            } else {
                line - count
            }, col),
        }
    } else {
        match dir {
            Direction::Forward => spec_forward_line_col(line, col, count, lines),
            Direction::Backward => spec_backward_line_col(line, col, count),
        }
    }
}

pub open spec fn spec_move_range(
    range: Range,
    dir: Direction,
    count: int,
    behaviour: Movement,
    byte_len: int,
    vertical: bool,
) -> Range {
    let (line, col) = spec_head_line_col(range, byte_len);
    let (new_line, new_col) = spec_move_target(
        line,
        col,
        dir,
        count,
        spec_line_count(byte_len),
        vertical,
    );
    let cursor = spec_line_col_to_char(new_line, new_col, byte_len) as usize;
    match behaviour {
        Movement::Move => Range { anchor: cursor, head: cursor, old_visual_position: None },
        Movement::Extend => Range { anchor: range.anchor, head: cursor, old_visual_position: None },
    }
}

fn forward_line_col(line: usize, col: usize, count: usize, lines: usize) -> (lc: (usize, usize))
    requires
        line < lines,
        col < 76,
    ensures
        lc.0 == spec_forward_line_col(line as int, col as int, count as int, lines as int).0,
        lc.1 == spec_forward_line_col(line as int, col as int, count as int, lines as int).1,
{
    let c0 = col.saturating_add(count);
    let mut c = c0;
    let mut l = line;
    while c >= LINE_WIDTH && l + 1 < lines
        invariant
            line <= l < lines,
            c + 76 * (l - line) == c0,
        decreases c,
    {
        c -= LINE_WIDTH;
        l += 1;
    }
    proof {
        let k = l - line;
        if c < 76 {
            lemma_fundamental_div_mod_converse(c0 as int, 76, k as int, c as int);
        } else {
            assert(c0 / 76 > k) by {
                lemma_fundamental_div_mod_converse(
                    c0 as int,
                    76,
                    (c0 as int) / 76,
                    (c0 as int) % 76,
                );
            }
        }
    }
    if c >= LINE_WIDTH {
        c = LINE_WIDTH - 1;
    }
    (l, c)
}

fn backward_line_col(line: usize, col: usize, count: usize) -> (lc: (usize, usize))
    requires
        col < 76,
        line * 76 + col <= usize::MAX,
    ensures
        lc.0 == spec_backward_line_col(line as int, col as int, count as int).0,
        lc.1 == spec_backward_line_col(line as int, col as int, count as int).1,
{
    let mut c = col;
    let mut l = line;
    let mut i: usize = 0;
    let ghost p0 = line * 76 + col;
    while i < count
        invariant_except_break
            c < 76,
            i <= count,
            l * 76 + c == p0 - i,
        ensures
            c < 76,
            l * 76 + c == (if p0 - count < 0 {
                0
            } else {
                p0 - count
            }),
        decreases count - i,
    {
        if c == 0 {
            if l == 0 {
                break;
            }
            l -= 1;
            c = LINE_WIDTH - 1;
        } else {
            c -= 1;
        }
        i += 1;
    }
    proof {
        lemma_fundamental_div_mod_converse(l * 76 + c, 76, l as int, c as int);
    }
    (l, c)
}

/// Where a move puts the head, in `(line, column)` of the dump: a vertical
/// move changes the line by `count` (forward: down, stopping at the last
/// line; backward: up, stopping at the first) and keeps the column; a
/// horizontal move advances or goes back `count` cells in reading order
/// (line by line, 76 columns each), stopping at the first and last cell.
/// Moving puts the anchor on the head; extending keeps the anchor.
pub proof fn lemma_move_range_target(
    range: Range,
    dir: Direction,
    count: int,
    behaviour: Movement,
    byte_len: int,
    vertical: bool,
)
    requires
        len_fits(byte_len),
        0 <= byte_len,
        0 <= count,
    ensures
        ({
            let start = spec_char_to_line_col(min_int(range.head as int, spec_max_char(byte_len)), byte_len);
            let (l, c) = start;
            let lines = spec_line_count(byte_len);
            let r = spec_move_range(range, dir, count, behaviour, byte_len, vertical);
            let (nl, nc) = spec_char_to_line_col(r.head as int, byte_len);
            &&& vertical && dir == Direction::Forward ==> nl == min_int(l + count, lines - 1) && nc == c
            &&& vertical && dir == Direction::Backward ==> nl == (if l - count < 0 {
                0
            } else {
                l - count
            }) && nc == c
            &&& !vertical && dir == Direction::Forward ==> nl * 76 + nc == min_int(
                l * 76 + c + count,
                lines * 76 - 1,
            )
            &&& !vertical && dir == Direction::Backward ==> nl * 76 + nc == (if l * 76 + c - count
                < 0 {
                0
            } else {
                l * 76 + c - count
            })
            &&& behaviour == Movement::Move ==> r.anchor == r.head
            &&& behaviour == Movement::Extend ==> r.anchor == range.anchor
        }),
{
    let lines = spec_line_count(byte_len);
    let (l, c) = spec_char_to_line_col(min_int(range.head as int, spec_max_char(byte_len)), byte_len);
    assert(0 <= l < lines && 0 <= c < 76);
    let (tl, tc) = spec_move_target(l, c, dir, count, lines, vertical);
    if !vertical && dir == Direction::Forward {
        let cc = min_int(c + count, usize::MAX as int);
        let steps = cc / 76;
        assert(cc == steps * 76 + cc % 76 && 0 <= cc % 76 < 76) by (nonlinear_arith)
            requires
                cc >= 0,
                steps == cc / 76,
        ;
        if steps <= lines - 1 - l {
            assert(cc == c + count) by {
                assert(lines * 77 <= usize::MAX);
                assert(steps * 76 <= (lines - 1 - l) * 76) by (nonlinear_arith)
                    requires
                        steps <= lines - 1 - l,
                ;
            }
            assert((l + steps) * 76 + cc % 76 == l * 76 + c + count) by (nonlinear_arith)
                requires
                    cc == steps * 76 + cc % 76,
                    cc == c + count,
            ;
            assert(l * 76 + c + count <= lines * 76 - 1) by (nonlinear_arith)
                requires
                    steps <= lines - 1 - l,
                    cc == steps * 76 + cc % 76,
                    cc == c + count,
                    cc % 76 < 76,
            ;
        } else {
            assert(l * 76 + c + count >= lines * 76) by (nonlinear_arith)
                requires
                    steps > lines - 1 - l,
                    cc == steps * 76 + cc % 76,
                    cc <= c + count,
                    cc % 76 >= 0,
            ;
        }
    }
    if !vertical && dir == Direction::Backward {
        let p0 = l * 76 + c - count;
        let p = if p0 < 0 {
            0
        } else {
            p0
        };
        let q = p / 76;
        assert(p == q * 76 + p % 76 && 0 <= p % 76 < 76) by (nonlinear_arith)
            requires
                p >= 0,
                q == p / 76,
        ;
        assert(q <= l) by (nonlinear_arith)
            requires
                0 <= p <= l * 76 + c,
                c < 76,
                p == q * 76 + p % 76,
                0 <= p % 76,
        ;
    }
    assert(0 <= tl < lines && 0 <= tc < 76);
    crate::hex_layout::lemma_line_col_roundtrip(tl, tc, byte_len);
    crate::hex_layout::lemma_stride_mul_le(tl, lines - 1);
}

/// Moves a range horizontally (wrapping across lines) or vertically
/// (keeping the column), moving or extending the selection.
pub fn move_range(
    range: Range,
    dir: Direction,
    count: usize,
    behaviour: Movement,
    byte_len: usize,
    vertical: bool,
) -> (r: Range)
    requires
        len_fits(byte_len as int),
        vertical && dir == Direction::Forward ==> spec_head_line_col(range, byte_len as int).0
            + count <= usize::MAX,
    ensures
        r == spec_move_range(range, dir, count as int, behaviour, byte_len as int, vertical),
        r.head <= spec_max_char(byte_len as int),
        ({
            let (l, c) = spec_char_to_line_col(
                min_int(range.head as int, spec_max_char(byte_len as int)),
                byte_len as int,
            );
            let (nl, nc) = spec_char_to_line_col(r.head as int, byte_len as int);
            &&& vertical && dir == Direction::Forward ==> nl == min_int(
                l + count,
                spec_line_count(byte_len as int) - 1,
            ) && nc == c
            &&& vertical && dir == Direction::Backward ==> nl == (if l - count < 0 {
                0
            } else {
                l - count
            }) && nc == c
        }),
{
    proof {
        lemma_move_range_target(range, dir, count as int, behaviour, byte_len as int, vertical);
    }
    let max = display_len_chars(byte_len) - 1;
    let cursor = min_usize(range.head, max);
    let (line, col) = char_to_line_col(cursor, byte_len);
    let lines = line_count(byte_len);
    proof {
        crate::hex_layout::lemma_stride_mul_le(line as int, lines as int - 1);
    }
    let (new_line, new_col) = if vertical {
        match dir {
            Direction::Forward => (min_usize(line + count, lines - 1), col),
            Direction::Backward => (line.saturating_sub(count), col),
        }
    } else {
        match dir {
            Direction::Forward => forward_line_col(line, col, count, lines),
            Direction::Backward => backward_line_col(line, col, count),
        }
    };
    let cursor = line_col_to_char(new_line, new_col, byte_len);
    match behaviour {
        Movement::Move => Range::point(cursor),
        Movement::Extend => Range { anchor: range.anchor, head: cursor, old_visual_position: None },
    }
}

/// Line reached from `line` by `delta` lines, clamped to the document.
pub open spec fn spec_clamp_line(line: int, delta: int, lines: int) -> int {
    let l = line + delta;
    if l < 0 {
        0
    } else if l > lines - 1 {
        lines - 1
    } else {
        l
    }
}

fn clamp_line(line: usize, delta: isize, lines: usize) -> (l: usize)
    requires
        1 <= lines,
        lines * 77 <= usize::MAX,
        line < lines,
        line + delta <= isize::MAX,
    ensures
        l == spec_clamp_line(line as int, delta as int, lines as int),
{
    let sum = line as isize + delta;
    let upper = lines as isize - 1;
    if sum < 0 {
        0
    } else if sum > upper {
        upper as usize
    } else {
        sum as usize
    }
}

pub open spec fn spec_anchor_line(view_offset: ViewPosition, byte_len: int) -> int {
    spec_char_to_line_col(min_int(view_offset.anchor as int, spec_max_char(byte_len)), byte_len).0
}

/// The view scrolled by `delta` lines: anchored at the start of the clamped
/// target line, with no vertical offset and the same horizontal offset.
pub open spec fn spec_scroll_view(view_offset: ViewPosition, byte_len: int, delta: int) -> ViewPosition {
    ViewPosition {
        anchor: spec_line_to_char(
            spec_clamp_line(spec_anchor_line(view_offset, byte_len), delta, spec_line_count(byte_len)),
            byte_len,
        ) as usize,
        vertical_offset: 0,
        horizontal_offset: view_offset.horizontal_offset,
    }
}

/// Scrolling is undone by scrolling back: when the target line of a scroll
/// by `delta` lies inside the dump, the view lands on the start of that
/// line, and scrolling by `-delta` from there lands on the start of the
/// line the view started from.
pub proof fn lemma_scroll_back(view_offset: ViewPosition, byte_len: int, delta: int)
    requires
        len_fits(byte_len),
        0 <= byte_len,
        0 <= spec_anchor_line(view_offset, byte_len) + delta < spec_line_count(byte_len),
    ensures
        ({
            let al = spec_anchor_line(view_offset, byte_len);
            let there = spec_scroll_view(view_offset, byte_len, delta);
            &&& there.anchor == (al + delta) * 77
            &&& spec_anchor_line(there, byte_len) == al + delta
            &&& spec_scroll_view(there, byte_len, -delta).anchor == spec_line_to_char(al, byte_len)
        }),
{
    let al = spec_anchor_line(view_offset, byte_len);
    let lines = spec_line_count(byte_len);
    let t = al + delta;
    crate::hex_layout::lemma_line_col_roundtrip(t, 0, byte_len);
    crate::hex_layout::lemma_stride_mul_le(t, lines - 1);
    let a0 = min_int(view_offset.anchor as int, spec_max_char(byte_len));
    assert(0 <= al < lines) by {
        assert(0 <= a0);
    }
}

/// Scroll the hex viewport by `line_delta` lines.
pub fn scroll_view(view_offset: ViewPosition, byte_len: usize, line_delta: isize) -> (v:
    ViewPosition)
    requires
        len_fits(byte_len as int),
        spec_anchor_line(view_offset, byte_len as int) + line_delta <= isize::MAX,
    ensures
        v == spec_scroll_view(view_offset, byte_len as int, line_delta as int),
        v.anchor <= spec_max_char(byte_len as int),
        v.anchor % 77 == 0,
{
    let max_char = display_len_chars(byte_len) - 1;
    let lines = line_count(byte_len);
    let (anchor_line, _) = char_to_line_col(min_usize(view_offset.anchor, max_char), byte_len);
    let new_line = clamp_line(anchor_line, line_delta, lines);
    ViewPosition {
        anchor: line_to_char(new_line, byte_len),
        vertical_offset: 0,
        horizontal_offset: view_offset.horizontal_offset,
    }
}

/// Move a cursor by `line_delta` lines, keeping its column.
pub fn move_cursor_lines(range: Range, byte_len: usize, line_delta: isize, extend: bool) -> (r:
    Range)
    requires
        len_fits(byte_len as int),
        spec_head_line_col(range, byte_len as int).0 + line_delta <= isize::MAX,
    ensures
        ({
            let (line, col) = spec_head_line_col(range, byte_len as int);
            let new_line = spec_clamp_line(line, line_delta as int, spec_line_count(byte_len as int));
            let cursor = spec_line_col_to_char(new_line, col, byte_len as int) as usize;
            r == if extend {
                Range { anchor: range.anchor, head: cursor, old_visual_position: None }
            } else {
                Range { anchor: cursor, head: cursor, old_visual_position: None }
            }
        }),
        r.head <= spec_max_char(byte_len as int),
{
    let max = display_len_chars(byte_len) - 1;
    let cursor = min_usize(range.head, max);
    let (line, col) = char_to_line_col(cursor, byte_len);
    let lines = line_count(byte_len);
    let new_line = clamp_line(line, line_delta, lines);
    let new_cursor = line_col_to_char(new_line, col, byte_len);
    if extend {
        Range { anchor: range.anchor, head: new_cursor, old_visual_position: None }
    } else {
        Range::point(new_cursor)
    }
}

pub open spec fn sat_sub(a: int, b: int) -> int {
    if a - b < 0 {
        0
    } else {
        a - b
    }
}

/// Where a character index appears inside the viewport, if it is visible:
/// `None` for an index past the end or on a line or column outside the
/// viewport (above its first shown line included).
pub open spec fn spec_cursor_screen_pos(
    byte_len: int,
    offset: ViewPosition,
    cursor: int,
    viewport_height: int,
    viewport_width: int,
) -> Option<Position> {
    let max_char = spec_max_char(byte_len);
    if cursor > max_char {
        None
    } else {
        let (line, col) = spec_char_to_line_col(cursor, byte_len);
        let first_line = spec_anchor_line(offset, byte_len);
        if line < first_line + offset.vertical_offset {
            None
        } else if line - first_line - offset.vertical_offset >= viewport_height {
            None
        } else if col < offset.horizontal_offset {
            None
        } else if col - offset.horizontal_offset >= viewport_width {
            None
        } else {
            Some(
                Position {
                    row: (line - first_line - offset.vertical_offset) as usize,
                    col: (col - offset.horizontal_offset) as usize,
                },
            )
        }
    }
}

/// Map a virtual hex char index to a position relative to the hex viewport.
pub fn cursor_screen_pos(
    byte_len: usize,
    offset: ViewPosition,
    cursor: usize,
    viewport_height: usize,
    viewport_width: usize,
) -> (p: Option<Position>)
    requires
        len_fits(byte_len as int),
    ensures
        p == spec_cursor_screen_pos(
            byte_len as int,
            offset,
            cursor as int,
            viewport_height as int,
            viewport_width as int,
        ),
{
    let max_char = display_len_chars(byte_len) - 1;
    if cursor > max_char {
        return None;
    }
    let (line, col) = char_to_line_col(cursor, byte_len);
    let anchor = min_usize(offset.anchor, max_char);
    let (first_line, _) = char_to_line_col(anchor, byte_len);
    if line < first_line {
        return None;
    }
    let line_row = line - first_line;
    if line_row < offset.vertical_offset {
        return None;
    }
    let screen_row = line_row - offset.vertical_offset;
    if screen_row >= viewport_height {
        return None;
    }
    let screen_col = match col.checked_sub(offset.horizontal_offset) {
        Some(c) => c,
        None => {
            return None;
        },
    };
    if screen_col >= viewport_width {
        return None;
    }
    Some(Position { row: screen_row, col: screen_col })
}

/// Line of the (clamped) cursor.
pub open spec fn spec_cursor_line(byte_len: int, cursor: int) -> int {
    spec_char_to_line_col(min_int(cursor, spec_max_char(byte_len)), byte_len).0
}

/// Margins kept before and after the cursor along one axis of `size` cells.
pub open spec fn spec_margins(scrolloff: int, size: int, center: bool) -> (int, int) {
    if center {
        (0, 0)
    } else {
        (min_int(scrolloff, sat_sub(size, 1) / 2), min_int(scrolloff, size / 2))
    }
}

/// Vertical part of scrolling to the cursor: the new anchor and vertical
/// offset. The view moves when the cursor line is above the top margin or
/// below the bottom margin (centring: when it is not the middle row); the
/// cursor line is then put on the margin row (or the middle row).
pub open spec fn spec_scroll_vertical(
    byte_len: int,
    view_offset: ViewPosition,
    height: int,
    cursor: int,
    scrolloff: int,
    center: bool,
) -> (int, int) {
    let line = spec_cursor_line(byte_len, cursor);
    let aline = spec_anchor_line(view_offset, byte_len);
    let top = aline + view_offset.vertical_offset;
    let (st, sb) = spec_margins(scrolloff, height, center);
    let new_anchor = if center {
        line < aline || line - aline != height / 2
    } else {
        line < top + st || line - top + sb >= height
    };
    let target_row = if center {
        height / 2
    } else if line < top + st {
        st
    } else {
        height - sb - 1
    };
    if new_anchor {
        (spec_line_to_char(sat_sub(line, target_row), byte_len), 0)
    } else {
        (view_offset.anchor as int, view_offset.vertical_offset as int)
    }
}

/// Horizontal part of scrolling to the cursor column: the new horizontal
/// offset.
pub open spec fn spec_scroll_horizontal(
    col: int,
    horizontal_offset: int,
    width: int,
    scrolloff: int,
    center: bool,
) -> int {
    let (sl, sr) = spec_margins(scrolloff, width, center);
    let last_col = horizontal_offset + sat_sub(width, 1);
    if col > sat_sub(last_col, sr) {
        horizontal_offset + (col - sat_sub(last_col, sr))
    } else if col < horizontal_offset + sl {
        sat_sub(col, sl)
    } else {
        horizontal_offset
    }
}

/// New scroll position that keeps the cursor visible with `scrolloff` lines
/// and columns of margin (or centred), `None` when nothing has to move.
pub open spec fn spec_scroll_to_cursor(
    byte_len: int,
    view_offset: ViewPosition,
    width: int,
    height: int,
    cursor: int,
    scrolloff: int,
    center: bool,
) -> Option<ViewPosition> {
    let col = spec_char_to_line_col(min_int(cursor, spec_max_char(byte_len)), byte_len).1;
    let (anchor, vertical_offset) = spec_scroll_vertical(
        byte_len,
        view_offset,
        height,
        cursor,
        scrolloff,
        center,
    );
    let horizontal_offset = spec_scroll_horizontal(
        col,
        view_offset.horizontal_offset as int,
        width,
        scrolloff,
        center,
    );
    let offset = ViewPosition {
        anchor: anchor as usize,
        horizontal_offset: horizontal_offset as usize,
        vertical_offset: vertical_offset as usize,
    };
    if !center && offset == view_offset {
        None
    } else {
        Some(offset)
    }
}

fn margins(scrolloff: usize, size: usize, center: bool) -> (m: (usize, usize))
    ensures
        m.0 == spec_margins(scrolloff as int, size as int, center).0,
        m.1 == spec_margins(scrolloff as int, size as int, center).1,
        m.0 <= size / 2,
        m.1 <= size / 2,
{
    if center {
        (0, 0)
    } else {
        (min_usize(scrolloff, size.saturating_sub(1) / 2), min_usize(scrolloff, size / 2))
    }
}

fn scroll_vertical(
    byte_len: usize,
    view_offset: ViewPosition,
    height: usize,
    cursor: usize,
    scrolloff: usize,
    center: bool,
) -> (r: (usize, usize))
    requires
        len_fits(byte_len as int),
        view_offset.vertical_offset + height <= usize::MAX,
        height > 0 || center || spec_cursor_line(byte_len as int, cursor as int) < spec_anchor_line(
            view_offset,
            byte_len as int,
        ) + view_offset.vertical_offset,
    ensures
        r.0 == spec_scroll_vertical(
            byte_len as int,
            view_offset,
            height as int,
            cursor as int,
            scrolloff as int,
            center,
        ).0,
        r.1 == spec_scroll_vertical(
            byte_len as int,
            view_offset,
            height as int,
            cursor as int,
            scrolloff as int,
            center,
        ).1,
{
    let max_char = display_len_chars(byte_len) - 1;
    let cursor = min_usize(cursor, max_char);
    let (line, _) = char_to_line_col(cursor, byte_len);
    let anchor = min_usize(view_offset.anchor, max_char);
    let (anchor_line, _) = char_to_line_col(anchor, byte_len);
    let (scrolloff_top, scrolloff_bottom) = margins(scrolloff, height, center);
    let vo = view_offset.vertical_offset;
    let above = line < anchor_line || line - anchor_line < vo + scrolloff_top;
    let new_anchor = if center {
        line < anchor_line || line - anchor_line != height / 2
    } else if above {
        true
    } else {
        line - anchor_line - vo + scrolloff_bottom >= height
    };
    if new_anchor {
        let target_row = if center {
            height / 2
        } else if above {
            scrolloff_top
        } else {
            height - scrolloff_bottom - 1
        };
        let first_line = line.saturating_sub(target_row);
        (line_to_char(first_line, byte_len), 0)
    } else {
        (view_offset.anchor, view_offset.vertical_offset)
    }
}

fn scroll_horizontal(
    col: usize,
    horizontal_offset: usize,
    width: usize,
    scrolloff: usize,
    center: bool,
) -> (h: usize)
    requires
        col < 76,
        horizontal_offset + width <= usize::MAX + 1,
    ensures
        h == spec_scroll_horizontal(
            col as int,
            horizontal_offset as int,
            width as int,
            scrolloff as int,
            center,
        ),
{
    let (scrolloff_left, scrolloff_right) = margins(scrolloff, width, center);
    let last_col = horizontal_offset + width.saturating_sub(1);
    if col > last_col.saturating_sub(scrolloff_right) {
        horizontal_offset + (col - last_col.saturating_sub(scrolloff_right))
    } else if col < horizontal_offset + scrolloff_left {
        col.saturating_sub(scrolloff_left)
    } else {
        horizontal_offset
    }
}

/// Keep the primary cursor visible in the hex viewport (soft-wrap disabled).
pub fn scroll_to_cursor(
    byte_len: usize,
    view_offset: ViewPosition,
    viewport_width: u16,
    viewport_height: u16,
    cursor: usize,
    scrolloff: usize,
    center: bool,
) -> (r: Option<ViewPosition>)
    requires
        len_fits(byte_len as int),
        view_offset.vertical_offset + viewport_height <= usize::MAX,
        view_offset.horizontal_offset + viewport_width <= usize::MAX + 1,
        viewport_height > 0 || center || spec_cursor_line(byte_len as int, cursor as int)
            < spec_anchor_line(view_offset, byte_len as int) + view_offset.vertical_offset,
    ensures
        r == spec_scroll_to_cursor(
            byte_len as int,
            view_offset,
            viewport_width as int,
            viewport_height as int,
            cursor as int,
            scrolloff as int,
            center,
        ),
{
    let max_char = display_len_chars(byte_len) - 1;
    let (_, col) = char_to_line_col(min_usize(cursor, max_char), byte_len);
    let (anchor, vertical_offset) = scroll_vertical(
        byte_len,
        view_offset,
        viewport_height as usize,
        cursor,
        scrolloff,
        center,
    );
    let horizontal_offset = scroll_horizontal(
        col,
        view_offset.horizontal_offset,
        viewport_width as usize,
        scrolloff,
        center,
    );
    let offset = ViewPosition { anchor, horizontal_offset, vertical_offset };
    if !center && offset == view_offset {
        None
    } else {
        Some(offset)
    }
}

/// Centring with the cursor line already `height / 2` lines below the
/// anchor line keeps the view, even when its vertical offset hides that line.
pub open spec fn spec_centred_but_shifted(
    byte_len: int,
    view_offset: ViewPosition,
    height: int,
    cursor: int,
    center: bool,
) -> bool {
    let line = spec_cursor_line(byte_len, cursor);
    let aline = spec_anchor_line(view_offset, byte_len);
    center && line >= aline && line - aline == height / 2 && view_offset.vertical_offset > height
        / 2
}

proof fn lemma_vertical_shows_cursor(
    byte_len: int,
    view_offset: ViewPosition,
    height: int,
    cursor: int,
    scrolloff: int,
    center: bool,
)
    requires
        len_fits(byte_len),
        0 <= byte_len,
        1 <= height,
        0 <= scrolloff,
        0 <= cursor <= spec_max_char(byte_len),
        !spec_centred_but_shifted(byte_len, view_offset, height, cursor, center),
    ensures
        ({
            let (anchor, voff) = spec_scroll_vertical(
                byte_len,
                view_offset,
                height,
                cursor,
                scrolloff,
                center,
            );
            let first = spec_char_to_line_col(min_int(anchor, spec_max_char(byte_len)), byte_len).0;
            let line = spec_char_to_line_col(cursor, byte_len).0;
            &&& 0 <= voff
            &&& first + voff <= line
            &&& line - first - voff < height
        }),
{
    let line = spec_char_to_line_col(cursor, byte_len).0;
    let lines = spec_line_count(byte_len);
    let (st, sb) = spec_margins(scrolloff, height, center);
    let top = spec_anchor_line(view_offset, byte_len) + view_offset.vertical_offset;
    let target_row = if center {
        height / 2
    } else if line < top + st {
        st
    } else {
        height - sb - 1
    };
    let first = sat_sub(line, target_row);
    assert(0 <= first < lines);
    crate::hex_layout::lemma_line_col_roundtrip(first, 0, byte_len);
    crate::hex_layout::lemma_stride_mul_le(first, lines - 1);
}

proof fn lemma_horizontal_shows_cursor(
    col: int,
    horizontal_offset: int,
    width: int,
    scrolloff: int,
    center: bool,
)
    requires
        0 <= col,
        0 <= horizontal_offset,
        1 <= width,
        0 <= scrolloff,
    ensures
        ({
            let h = spec_scroll_horizontal(col, horizontal_offset, width, scrolloff, center);
            0 <= h <= col && col - h < width
        }),
{
}

/// After `scroll_to_cursor` (its new position, or the old one when it
/// returns `None`), the cursor is visible in a non-empty viewport. Centring
/// keeps a view whose cursor line already is the middle line below the
/// anchor line, so a view that is also shifted down by more than half its
/// height (`spec_centred_but_shifted`) is left out.
pub proof fn lemma_scroll_to_cursor_shows_cursor(
    byte_len: int,
    view_offset: ViewPosition,
    width: int,
    height: int,
    cursor: int,
    scrolloff: int,
    center: bool,
)
    requires
        len_fits(byte_len),
        0 <= byte_len,
        1 <= width,
        1 <= height,
        0 <= scrolloff,
        0 <= cursor <= spec_max_char(byte_len),
        view_offset.vertical_offset + height <= usize::MAX,
        view_offset.horizontal_offset + width <= usize::MAX + 1,
        !spec_centred_but_shifted(byte_len, view_offset, height, cursor, center),
    ensures
        ({
            let next = match spec_scroll_to_cursor(
                byte_len,
                view_offset,
                width,
                height,
                cursor,
                scrolloff,
                center,
            ) {
                Some(o) => o,
                None => view_offset,
            };
            spec_cursor_screen_pos(byte_len, next, cursor, height, width) is Some
        }),
{
    let col = spec_char_to_line_col(cursor, byte_len).1;
    lemma_vertical_shows_cursor(byte_len, view_offset, height, cursor, scrolloff, center);
    lemma_horizontal_shows_cursor(
        col,
        view_offset.horizontal_offset as int,
        width,
        scrolloff,
        center,
    );
    let (anchor, voff) = spec_scroll_vertical(
        byte_len,
        view_offset,
        height,
        cursor,
        scrolloff,
        center,
    );
    assert(0 <= anchor <= usize::MAX) by {
        let lines = spec_line_count(byte_len);
        let line = spec_char_to_line_col(cursor, byte_len).0;
        crate::hex_layout::lemma_stride_mul_le(min_int(line, lines - 1), lines - 1);
    }
}

} // verus!
