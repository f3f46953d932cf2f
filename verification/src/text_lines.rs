//! Line structure of a document text: where each line starts, and the
//! conversions between character indices and `(line, column)` positions.

use vstd::prelude::*;

verus! {

/// A text given by the character index where each line starts and its
/// length in characters. Line `l` spans `[line_starts[l], line_starts[l + 1])`
/// (the last line runs to the end); a line includes its line break.
pub struct TextLines {
    pub line_starts: Vec<usize>,
    pub len_chars: usize,
}

impl TextLines {
    /// At least one line, the first starting at 0, lines starting in
    /// increasing order inside the text.
    pub open spec fn wf(&self) -> bool {
        let s = self.line_starts@;
        &&& s.len() >= 1
        &&& s[0] == 0
        &&& forall|i: int, j: int| 0 <= i < j < s.len() ==> s[i] < s[j]
        &&& s.last() <= self.len_chars
    }

    pub open spec fn spec_len_lines(&self) -> int {
        self.line_starts@.len() as int
    }

    /// Start of line `line`; one past the last line is the end of the text.
    pub open spec fn spec_line_to_char(&self, line: int) -> int {
        if line >= self.line_starts@.len() {
            self.len_chars as int
        } else {
            self.line_starts@[line] as int
        }
    }

    /// Line containing character `c`: the number of lines starting at or
    /// before it, minus one.
    pub open spec fn spec_char_to_line(&self, c: int) -> int {
        choose|l: int|
            0 <= l < self.line_starts@.len() && #[trigger] self.line_starts@[l] <= c && (l + 1
                == self.line_starts@.len() || c < self.line_starts@[l + 1])
    }

    pub fn len_lines(&self) -> (n: usize)
        ensures
            n == self.spec_len_lines(),
    {
        self.line_starts.len()
    }

    pub fn line_to_char(&self, line: usize) -> (c: usize)
        requires
            self.wf(),
            line <= self.spec_len_lines(),
        ensures
            c == self.spec_line_to_char(line as int),
            c <= self.len_chars,
    {
        if line >= self.line_starts.len() {
            self.len_chars
        } else {
            self.line_starts[line]
        }
    }

    pub fn char_to_line(&self, c: usize) -> (line: usize)
        requires
            self.wf(),
            c <= self.len_chars,
        ensures
            line == self.spec_char_to_line(c as int),
            line < self.spec_len_lines(),
            self.line_starts@[line as int] <= c,
            line + 1 < self.spec_len_lines() ==> c < self.line_starts@[line + 1],
    {
        let n = self.line_starts.len();
        let mut lo: usize = 0;
        let mut hi: usize = n;
        while lo + 1 < hi
            invariant
                self.wf(),
                n == self.line_starts@.len(),
                0 <= lo < hi <= n,
                self.line_starts@[lo as int] <= c,
                hi < n ==> c < self.line_starts@[hi as int],
            decreases hi - lo,
        {
            let mid = lo + (hi - lo) / 2;
            if self.line_starts[mid] <= c {
                lo = mid;
            } else {
                hi = mid;
            }
        }
        proof {
            let l = lo as int;
            assert(l + 1 == n || c < self.line_starts@[l + 1]);
            let ch = self.spec_char_to_line(c as int);
            if ch < l {
                assert(self.line_starts@[ch + 1] <= self.line_starts@[l]);
            } else if ch > l {
                assert(self.line_starts@[l + 1] <= self.line_starts@[ch]);
            }
        }
        lo
    }
}

/// `(line, column)` of character `c`.
pub open spec fn spec_char_pos(text: TextLines, c: int) -> (int, int) {
    let line = text.spec_char_to_line(c);
    (line, c - text.spec_line_to_char(line))
}

/// Convert a char index into `(line, character)`, the column counted in
/// characters from the start of the line.
pub fn char_pos(text: &TextLines, char_idx: usize) -> (p: (usize, usize))
    requires
        text.wf(),
        char_idx <= text.len_chars,
    ensures
        p.0 == spec_char_pos(*text, char_idx as int).0,
        p.1 == spec_char_pos(*text, char_idx as int).1,
{
    let line = text.char_to_line(char_idx);
    (line, char_idx - text.line_to_char(line))
}

pub open spec fn sat_sub(a: int, b: int) -> int {
    if a < b {
        0
    } else {
        a - b
    }
}

pub open spec fn min_int(a: int, b: int) -> int {
    if a <= b {
        a
    } else {
        b
    }
}

/// Character at column `col` of line `line`, both clamped: the line to the
/// last one, the column to the line's last character (its line break, if
/// it has one).
pub open spec fn spec_char_at_line_col(text: TextLines, line: int, col: int) -> int {
    let line = min_int(line, text.spec_len_lines() - 1);
    let start = text.spec_line_to_char(line);
    let end = min_int(text.spec_line_to_char(line + 1), text.len_chars as int);
    let line_len = sat_sub(end, start);
    start + min_int(col, sat_sub(line_len, 1))
}

pub fn char_at_line_col(text: &TextLines, line: u32, col_in_line: usize) -> (c: usize)
    requires
        text.wf(),
    ensures
        c == spec_char_at_line_col(*text, line as int, col_in_line as int),
        c <= text.len_chars,
{
    let n = text.len_lines();
    let line = if (line as usize) < n - 1 {
        line as usize
    } else {
        n - 1
    };
    let line_start = text.line_to_char(line);
    let next = text.line_to_char(line + 1);
    let line_end = if next < text.len_chars {
        next
    } else {
        text.len_chars
    };
    let line_len = line_end.saturating_sub(line_start);
    let max_col = line_len.saturating_sub(1);
    line_start + if col_in_line < max_col {
        col_in_line
    } else {
        max_col
    }
}

} // verus!
