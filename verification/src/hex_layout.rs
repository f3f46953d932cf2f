//! Geometry of the hex dump: how raw bytes are laid out on formatted lines
//! and how character positions of the virtual dump document map to lines,
//! columns, fields and byte indices.

use vstd::prelude::*;

verus! {

/// Bytes shown on one dump line.
pub const BYTES_PER_LINE: usize = 16;

/// End of the offset field and its two-space separator (`"00000000  "`).
pub const OFFSET_END: usize = 10;

/// First column of the ASCII column (after the `"  "` separator).
pub const ASCII_START: usize = 60;

/// Characters per formatted dump line (excluding the newline).
pub const LINE_WIDTH: usize = 76;

/// Characters per dump line including its newline.
pub const LINE_STRIDE: usize = 77;

/// Number of dump lines for a buffer of `byte_len` bytes (an empty buffer
/// still shows one line).
pub open spec fn spec_line_count(byte_len: int) -> int {
    if byte_len <= 0 {
        1
    } else {
        (byte_len + 15) / 16
    }
}

/// The virtual document of a buffer of this length is addressable with `usize`.
pub open spec fn len_fits(byte_len: int) -> bool {
    spec_line_count(byte_len) * 77 <= usize::MAX
}

/// Length in characters of the joined dump text (lines of `LINE_WIDTH`
/// characters separated by newlines).
pub open spec fn spec_display_len_chars(byte_len: int) -> int {
    spec_line_count(byte_len) * 77 - 1
}

/// Largest valid character index of the virtual dump document.
pub open spec fn spec_max_char(byte_len: int) -> int {
    spec_display_len_chars(byte_len) - 1
}

pub open spec fn min_int(a: int, b: int) -> int {
    if a <= b {
        a
    } else {
        b
    }
}

pub open spec fn spec_line_to_char(line: int, byte_len: int) -> int {
    min_int(line, spec_line_count(byte_len) - 1) * 77
}

pub open spec fn spec_line_col_to_char(line: int, col: int, byte_len: int) -> int {
    min_int(line, spec_line_count(byte_len) - 1) * 77 + min_int(col, 75)
}

/// `(line, column)` of a virtual character index: the index is first clamped
/// to the last character; a newline position maps to the start of the next
/// line, or to the last column of the last line.
pub open spec fn spec_char_to_line_col(char_idx: int, byte_len: int) -> (int, int) {
    let c = min_int(char_idx, spec_max_char(byte_len));
    let lines = spec_line_count(byte_len);
    let line = c / 77;
    let col = c % 77;
    if line >= lines {
        (lines - 1, 75)
    } else if col >= 76 {
        if line + 1 < lines {
            (line + 1, 0)
        } else {
            (line, 75)
        }
    } else {
        (line, col)
    }
}

/// Scaling by the line stride is monotone.
pub proof fn lemma_stride_mul_le(a: int, b: int)
    requires
        0 <= a <= b,
    ensures
        a * 77 <= b * 77,
{
    assert(a * 77 <= b * 77) by (nonlinear_arith)
        requires
            0 <= a <= b,
    ;
}

pub fn min_usize(a: usize, b: usize) -> (r: usize)
    ensures
        r == min_int(a as int, b as int),
{
    if a <= b {
        a
    } else {
        b
    }
}

pub fn line_count(byte_len: usize) -> (lines: usize)
    ensures
        lines == spec_line_count(byte_len as int),
        1 <= lines,
{
    if byte_len == 0 {
        1
    } else {
        let q = byte_len / BYTES_PER_LINE;
        if byte_len % BYTES_PER_LINE != 0 {
            q + 1
        } else {
            q
        }
    }
}

/// Virtual document length matching the formatted dump layout without
/// materializing lines.
pub fn display_len_chars(byte_len: usize) -> (len: usize)
    requires
        len_fits(byte_len as int),
    ensures
        len == spec_display_len_chars(byte_len as int),
        len >= 76,
{
    let lines = line_count(byte_len);
    lines * (LINE_WIDTH + 1) - 1
}

fn max_char(byte_len: usize) -> (m: usize)
    requires
        len_fits(byte_len as int),
    ensures
        m == spec_max_char(byte_len as int),
{
    display_len_chars(byte_len) - 1
}

pub fn line_to_char(line: usize, byte_len: usize) -> (c: usize)
    requires
        len_fits(byte_len as int),
    ensures
        c == spec_line_to_char(line as int, byte_len as int),
        c <= spec_max_char(byte_len as int),
{
    let lines = line_count(byte_len);
    let l = min_usize(line, lines - 1);
    proof {
        lemma_stride_mul_le(l as int, lines as int - 1);
    }
    l * LINE_STRIDE
}

pub fn line_col_to_char(line: usize, col: usize, byte_len: usize) -> (c: usize)
    requires
        len_fits(byte_len as int),
    ensures
        c == spec_line_col_to_char(line as int, col as int, byte_len as int),
        c <= spec_max_char(byte_len as int),
{
    let lines = line_count(byte_len);
    let line = min_usize(line, lines - 1);
    let col = min_usize(col, LINE_WIDTH - 1);
    proof {
        lemma_stride_mul_le(line as int, lines as int - 1);
    }
    line * LINE_STRIDE + col
}

pub fn char_to_line_col(char_idx: usize, byte_len: usize) -> (lc: (usize, usize))
    requires
        len_fits(byte_len as int),
    ensures
        lc.0 == spec_char_to_line_col(char_idx as int, byte_len as int).0,
        lc.1 == spec_char_to_line_col(char_idx as int, byte_len as int).1,
        lc.0 < spec_line_count(byte_len as int),
        lc.1 < LINE_WIDTH,
{
    let max_char = max_char(byte_len);
    let char_idx = min_usize(char_idx, max_char);
    let lines = line_count(byte_len);
    let per_line = LINE_WIDTH + 1;
    let mut line = char_idx / per_line;
    let mut col = char_idx % per_line;
    if line >= lines {
        line = lines - 1;
        col = LINE_WIDTH - 1;
    } else if col >= LINE_WIDTH {
        if line + 1 < lines {
            line += 1;
            col = 0;
        } else {
            col = LINE_WIDTH - 1;
        }
    }
    (line, col)
}

/// What a column of a dump line shows.
#[derive(Debug, Clone, Copy, PartialEq, Eq, Structural)]
pub enum HexField {
    Offset,
    Hex { byte_in_line: usize, nibble: u8 },
    Ascii { byte_in_line: usize },
    Gap,
}

/// Where to insert/overwrite: an existing byte or the end-of-file slot.
#[derive(Debug, Clone, Copy, PartialEq, Eq, Structural)]
pub enum ByteSlot {
    Existing(usize),
    Eof,
}

/// Column of nibble `nibble` of byte `byte_in_line` (an extra space
/// separates the two halves of a line).
pub open spec fn spec_hex_col(byte_in_line: int, nibble: int) -> int {
    10 + byte_in_line * 3 + (if byte_in_line >= 8 { 1int } else { 0int }) + nibble
}

pub open spec fn spec_col_to_hex(col: int) -> Option<(usize, u8)> {
    if col < 10 || col >= 60 {
        None
    } else {
        let rel = col - 10;
        let rel = if rel >= 24 { rel - 1 } else { rel };
        let byte_in_line = rel / 3;
        let rem = rel % 3;
        if byte_in_line >= 16 || rem == 2 {
            None
        } else {
            Some((byte_in_line as usize, rem as u8))
        }
    }
}

pub open spec fn spec_field_at_col(col: int) -> HexField {
    if col < 8 {
        HexField::Offset
    } else if col < 10 {
        HexField::Gap
    } else if col < 60 {
        match spec_col_to_hex(col) {
            Some((byte_in_line, nibble)) => HexField::Hex { byte_in_line, nibble },
            None => HexField::Gap,
        }
    } else if col - 60 < 16 {
        HexField::Ascii { byte_in_line: (col - 60) as usize }
    } else {
        HexField::Gap
    }
}

pub open spec fn int_pair(p: (usize, usize)) -> (int, int) {
    (p.0 as int, p.1 as int)
}

pub open spec fn spec_byte_index_to_hex_cursor(byte_index: int, nibble: int) -> (int, int) {
    (byte_index / 16, spec_hex_col(byte_index % 16, nibble))
}

pub open spec fn spec_byte_index_to_ascii_cursor(byte_index: int) -> (int, int) {
    (byte_index / 16, 60 + byte_index % 16)
}

pub fn hex_col(byte_in_line: usize, nibble: usize) -> (col: usize)
    requires
        byte_in_line < BYTES_PER_LINE,
        nibble < 2,
    ensures
        col == spec_hex_col(byte_in_line as int, nibble as int),
        OFFSET_END <= col < ASCII_START,
{
    OFFSET_END + byte_in_line * 3 + if byte_in_line >= 8 {
        1
    } else {
        0
    } + nibble
}

pub fn col_to_hex(col: usize) -> (r: Option<(usize, u8)>)
    ensures
        r == spec_col_to_hex(col as int),
{
    if col < OFFSET_END || col >= ASCII_START {
        return None;
    }
    let mut rel = col - OFFSET_END;
    if rel >= 24 {
        rel -= 1;
    }
    let byte_in_line = rel / 3;
    let rem = rel % 3;
    if byte_in_line >= BYTES_PER_LINE || rem == 2 {
        return None;
    }
    Some((byte_in_line, rem as u8))
}

pub fn field_at_col(col: usize) -> (f: HexField)
    ensures
        f == spec_field_at_col(col as int),
{
    if col < 8 {
        HexField::Offset
    } else if col < OFFSET_END {
        HexField::Gap
    } else if col < ASCII_START {
        match col_to_hex(col) {
            Some((byte_in_line, nibble)) => HexField::Hex { byte_in_line, nibble },
            None => HexField::Gap,
        }
    } else {
        let byte_in_line = col - ASCII_START;
        if byte_in_line < BYTES_PER_LINE {
            HexField::Ascii { byte_in_line }
        } else {
            HexField::Gap
        }
    }
}

/// Byte index for a hex/ASCII field on a dump line.
pub fn raw_byte_index(line: usize, byte_in_line: usize) -> (i: usize)
    requires
        line * 16 + byte_in_line <= usize::MAX,
    ensures
        i == line * 16 + byte_in_line,
{
    line * BYTES_PER_LINE + byte_in_line
}

pub fn byte_slot(raw_index: usize, len: usize) -> (s: ByteSlot)
    ensures
        raw_index < len ==> s == ByteSlot::Existing(raw_index),
        raw_index >= len ==> s == ByteSlot::Eof,
{
    if raw_index < len {
        ByteSlot::Existing(raw_index)
    } else {
        ByteSlot::Eof
    }
}

pub fn byte_index_to_hex_cursor(byte_index: usize, nibble: usize) -> (lc: (usize, usize))
    requires
        nibble < 2,
    ensures
        lc.0 == spec_byte_index_to_hex_cursor(byte_index as int, nibble as int).0,
        lc.1 == spec_byte_index_to_hex_cursor(byte_index as int, nibble as int).1,
{
    let line = byte_index / BYTES_PER_LINE;
    let byte_in_line = byte_index % BYTES_PER_LINE;
    (line, hex_col(byte_in_line, nibble))
}

pub fn byte_index_to_ascii_cursor(byte_index: usize) -> (lc: (usize, usize))
    ensures
        lc.0 == spec_byte_index_to_ascii_cursor(byte_index as int).0,
        lc.1 == spec_byte_index_to_ascii_cursor(byte_index as int).1,
{
    let line = byte_index / BYTES_PER_LINE;
    let byte_in_line = byte_index % BYTES_PER_LINE;
    (line, ASCII_START + byte_in_line)
}

/// Cursor after completing a hex nibble in overwrite mode: the low nibble of
/// the same byte, else the high nibble of the next byte, else the EOF slot.
pub fn next_hex_overwrite_cursor(byte_index: usize, nibble: usize, len: usize) -> (lc: (usize, usize))
    requires
        nibble < 2,
        nibble != 0 ==> byte_index < usize::MAX,
    ensures
        nibble == 0 ==> int_pair(lc) == spec_byte_index_to_hex_cursor(byte_index as int, 1),
        nibble != 0 && byte_index + 1 < len ==> int_pair(lc) == spec_byte_index_to_hex_cursor(
            byte_index + 1,
            0,
        ),
        nibble != 0 && byte_index + 1 >= len ==> int_pair(lc) == spec_byte_index_to_hex_cursor(len as int, 0),
{
    if nibble == 0 {
        byte_index_to_hex_cursor(byte_index, 1)
    } else if byte_index + 1 < len {
        byte_index_to_hex_cursor(byte_index + 1, 0)
    } else {
        byte_index_to_hex_cursor(len, 0)
    }
}

/// Cursor after an ASCII edit in overwrite mode.
pub fn next_ascii_overwrite_cursor(byte_index: usize, len: usize) -> (lc: (usize, usize))
    requires
        byte_index < usize::MAX,
    ensures
        byte_index + 1 < len ==> int_pair(lc) == spec_byte_index_to_ascii_cursor(byte_index + 1),
        byte_index + 1 >= len ==> int_pair(lc) == spec_byte_index_to_hex_cursor(len as int, 0),
{
    if byte_index + 1 < len {
        byte_index_to_ascii_cursor(byte_index + 1)
    } else {
        byte_index_to_hex_cursor(len, 0)
    }
}

/// Cursor after appending one byte at EOF.
pub fn cursor_after_append(len: usize) -> (lc: (usize, usize))
    ensures
        int_pair(lc) == spec_byte_index_to_hex_cursor(len as int, 0),
{
    byte_index_to_hex_cursor(len, 0)
}

/// Cursor after deleting the byte at `index` from a buffer of `new_len` bytes.
pub fn cursor_after_delete(index: usize, new_len: usize) -> (lc: (usize, usize))
    ensures
        new_len == 0 ==> lc == (0usize, OFFSET_END),
        new_len > 0 ==> int_pair(lc) == spec_byte_index_to_hex_cursor(
            min_int(index as int, new_len - 1),
            0,
        ),
{
    if new_len == 0 {
        (0, hex_col(0, 0))
    } else {
        byte_index_to_hex_cursor(min_usize(index, new_len - 1), 0)
    }
}

/// Every hex column maps back to the byte and nibble it was computed from.
pub proof fn lemma_hex_col_roundtrip(byte_in_line: int, nibble: int)
    requires
        0 <= byte_in_line < 16,
        0 <= nibble < 2,
    ensures
        spec_col_to_hex(spec_hex_col(byte_in_line, nibble)) == Some(
            (byte_in_line as usize, nibble as u8),
        ),
        spec_field_at_col(spec_hex_col(byte_in_line, nibble)) == (HexField::Hex {
            byte_in_line: byte_in_line as usize,
            nibble: nibble as u8,
        }),
{
}

/// A column recognised as a hex nibble is exactly that nibble's column.
pub proof fn lemma_col_to_hex_inverse(col: int)
    requires
        spec_col_to_hex(col) is Some,
    ensures
        ({
            let p = spec_col_to_hex(col).unwrap();
            spec_hex_col(p.0 as int, p.1 as int) == col
        }),
{
}

/// The cursor placed on a byte's hex nibble (or ASCII cell) reads back, through
/// `field_at_col` and `raw_byte_index`, as that same byte and nibble.
pub proof fn lemma_byte_cursor_roundtrip(byte_index: int, nibble: int)
    requires
        0 <= byte_index,
        0 <= nibble < 2,
    ensures
        ({
            let (line, col) = spec_byte_index_to_hex_cursor(byte_index, nibble);
            &&& spec_field_at_col(col) == (HexField::Hex {
                byte_in_line: (byte_index % 16) as usize,
                nibble: nibble as u8,
            })
            &&& line * 16 + byte_index % 16 == byte_index
        }),
        ({
            let (line, col) = spec_byte_index_to_ascii_cursor(byte_index);
            &&& spec_field_at_col(col) == (HexField::Ascii {
                byte_in_line: (byte_index % 16) as usize,
            })
            &&& line * 16 + byte_index % 16 == byte_index
        }),
{
    lemma_hex_col_roundtrip(byte_index % 16, nibble);
}

/// Converting a valid `(line, column)` to a character index and back is the
/// identity.
pub proof fn lemma_line_col_roundtrip(line: int, col: int, byte_len: int)
    requires
        0 <= line < spec_line_count(byte_len),
        0 <= col < 76,
    ensures
        spec_char_to_line_col(spec_line_col_to_char(line, col, byte_len), byte_len) == (line, col),
        spec_line_to_char(line, byte_len) == spec_line_col_to_char(line, 0, byte_len),
{
}

} // verus!
