//! Formatting raw bytes as hexyl-style dump lines and parsing such lines
//! back into bytes.

use vstd::prelude::*;
use vstd::utf8::encode_utf8;
use vstd::utf8::is_ascii_chars;
use vstd::utf8::is_ascii_chars_encode_utf8;

use crate::hex_layout::{
    hex_col, line_count, min_int, spec_hex_col, spec_line_count, BYTES_PER_LINE,
    LINE_WIDTH,
};
use crate::text::{hex_digit, spec_hex_digit};

verus! {

/// Byte categories matching hexyl's color groups.
#[derive(Debug, Clone, Copy, PartialEq, Eq, Structural)]
pub enum ByteCategory {
    Null,
    AsciiPrintable,
    AsciiWhitespace,
    AsciiOther,
    NonAscii,
}

/// ASCII whitespace as `u8::is_ascii_whitespace` defines it: space, tab,
/// line feed, form feed and carriage return.
pub open spec fn spec_is_ascii_whitespace(b: u8) -> bool {
    b == 0x20 || b == 0x09 || b == 0x0a || b == 0x0c || b == 0x0d
}

/// Graphic ASCII (`!` through `~`), as `u8::is_ascii_graphic` defines it.
pub open spec fn spec_is_ascii_graphic(b: u8) -> bool {
    0x21 <= b <= 0x7e
}

pub open spec fn spec_byte_category(b: u8) -> ByteCategory {
    if b == 0 {
        ByteCategory::Null
    } else if b <= 0x7f && spec_is_ascii_whitespace(b) {
        ByteCategory::AsciiWhitespace
    } else if b <= 0x7f && spec_is_ascii_graphic(b) {
        ByteCategory::AsciiPrintable
    } else if b <= 0x7f {
        ByteCategory::AsciiOther
    } else {
        ByteCategory::NonAscii
    }
}

pub fn byte_category(byte: u8) -> (c: ByteCategory)
    ensures
        c == spec_byte_category(byte),
{
    if byte == 0 {
        ByteCategory::Null
    } else if byte <= 0x7f && (byte == 0x20 || byte == 0x09 || byte == 0x0a || byte == 0x0c
        || byte == 0x0d) {
        ByteCategory::AsciiWhitespace
    } else if byte <= 0x7f && 0x21 <= byte && byte <= 0x7e {
        ByteCategory::AsciiPrintable
    } else if byte <= 0x7f {
        ByteCategory::AsciiOther
    } else {
        ByteCategory::NonAscii
    }
}

/// Character shown in the ASCII column: graphic characters and the space as
/// themselves, everything else as `.`.
pub open spec fn spec_ascii_char(b: u8) -> char {
    if spec_is_ascii_graphic(b) || b == 0x20 {
        b as char
    } else {
        '.'
    }
}

pub fn ascii_char(byte: u8) -> (c: char)
    ensures
        c == spec_ascii_char(byte),
{
    if (0x21 <= byte && byte <= 0x7e) || byte == 0x20 {
        byte as char
    } else {
        '.'
    }
}

/// Lowercase hexadecimal digits of `n`, without leading zeros.
pub open spec fn spec_hex_digits(n: nat) -> Seq<char>
    decreases n,
{
    if n < 16 {
        seq![spec_hex_digit(n as int)]
    } else {
        spec_hex_digits(n / 16).push(spec_hex_digit((n % 16) as int))
    }
}

/// `n` in lowercase hexadecimal, zero-padded to at least `width` digits
/// (the `{:0width$x}` format).
pub open spec fn spec_hex_padded(n: nat, width: nat) -> Seq<char> {
    let digits = spec_hex_digits(n);
    if digits.len() >= width {
        digits
    } else {
        Seq::new((width - digits.len()) as nat, |i: int| '0') + digits
    }
}

/// The two lowercase hex digits of a byte (`{:02x}`).
pub open spec fn spec_byte_hex(b: u8) -> Seq<char> {
    seq![spec_hex_digit((b / 16) as int), spec_hex_digit((b % 16) as int)]
}

/// Cell `i` of the hex column: an extra separating space before the ninth
/// byte, then the byte's two digits and a space, or three spaces past the
/// end of the chunk.
pub open spec fn spec_hex_cell(chunk: Seq<u8>, i: int) -> Seq<char> {
    (if i == 8 {
        seq![' ']
    } else {
        Seq::<char>::empty()
    }) + (if i < chunk.len() {
        spec_byte_hex(chunk[i]) + seq![' ']
    } else {
        seq![' ', ' ', ' ']
    })
}

/// The first `n` cells of the hex column.
pub open spec fn spec_hex_area(chunk: Seq<u8>, n: nat) -> Seq<char>
    decreases n,
{
    if n == 0 {
        Seq::empty()
    } else {
        spec_hex_area(chunk, (n - 1) as nat) + spec_hex_cell(chunk, n - 1)
    }
}

/// The first `n` characters of the ASCII column, padded with spaces past the
/// end of the chunk.
pub open spec fn spec_ascii_area(chunk: Seq<u8>, n: nat) -> Seq<char>
    decreases n,
{
    if n == 0 {
        Seq::empty()
    } else {
        spec_ascii_area(chunk, (n - 1) as nat).push(
            if n - 1 < chunk.len() {
                spec_ascii_char(chunk[n - 1])
            } else {
                ' '
            },
        )
    }
}

/// One dump line: offset, hex column, ASCII column.
pub open spec fn spec_format_line(offset: nat, chunk: Seq<u8>) -> Seq<char> {
    spec_hex_padded(offset, 8) + seq![' ', ' '] + spec_hex_area(chunk, 16) + seq![' ']
        + spec_ascii_area(chunk, 16)
}

/// The bytes shown on dump line `line`.
pub open spec fn spec_chunk(bytes: Seq<u8>, line: int) -> Seq<u8> {
    bytes.subrange(min_int(line * 16, bytes.len() as int), min_int(line * 16 + 16, bytes.len() as int))
}

/// The dump document as its sequence of lines (without line terminators).
pub open spec fn spec_bytes_to_rope(bytes: Seq<u8>) -> Seq<Seq<char>> {
    Seq::new(
        spec_line_count(bytes.len() as int) as nat,
        |i: int| spec_format_line((i * 16) as nat, spec_chunk(bytes, i)),
    )
}

pub open spec fn spec_is_hex_digit(b: u8) -> bool {
    (0x30 <= b <= 0x39) || (0x61 <= b <= 0x66) || (0x41 <= b <= 0x46)
}

pub open spec fn spec_hex_value(b: u8) -> int {
    if 0x30 <= b <= 0x39 {
        b - 0x30
    } else if 0x61 <= b <= 0x66 {
        b - 0x61 + 10
    } else {
        b - 0x41 + 10
    }
}

/// Parsing two bytes as a base-16 `u8` (`u8::from_str_radix(.., 16)` on their
/// UTF-8 text): two hex digits, or a `+` sign followed by one hex digit.
pub open spec fn spec_parse_u8_hex2(hi: u8, lo: u8) -> Option<u8> {
    if spec_is_hex_digit(hi) && spec_is_hex_digit(lo) {
        Some((spec_hex_value(hi) * 16 + spec_hex_value(lo)) as u8)
    } else if hi == 0x2b && spec_is_hex_digit(lo) {
        Some(spec_hex_value(lo) as u8)
    } else {
        None
    }
}

/// The byte written in the hex cell `byte_in_line` of a line given by its
/// UTF-8 bytes, if that cell holds one.
pub open spec fn spec_parse_hex_pair(line: Seq<u8>, byte_in_line: int) -> Option<u8> {
    let c0 = spec_hex_col(byte_in_line, 0);
    if c0 + 1 < line.len() {
        spec_parse_u8_hex2(line[c0], line[c0 + 1])
    } else {
        None
    }
}

/// Bytes parsed from the hex cells of one line, starting at cell `from` and
/// stopping at the first cell that holds no byte.
pub open spec fn spec_parse_line_from(line: Seq<u8>, from: int) -> Seq<u8>
    decreases 16 - from,
{
    if from >= 16 || from < 0 {
        Seq::empty()
    } else {
        match spec_parse_hex_pair(line, from) {
            Some(b) => seq![b] + spec_parse_line_from(line, from + 1),
            None => Seq::empty(),
        }
    }
}

/// Bytes parsed from the first `n` lines.
pub open spec fn spec_lines_to_bytes(lines: Seq<Seq<u8>>, n: nat) -> Seq<u8>
    decreases n,
{
    if n == 0 {
        Seq::empty()
    } else {
        spec_lines_to_bytes(lines, (n - 1) as nat) + spec_parse_line_from(lines[n - 1], 0)
    }
}

/// Bytes parsed from a dump document given by its lines.
pub open spec fn spec_rope_to_bytes(lines: Seq<Seq<char>>) -> Seq<u8> {
    spec_lines_to_bytes(lines.map_values(|l: Seq<char>| encode_utf8(l)), lines.len())
}

fn hex_digit_count(n: usize) -> (k: usize)
    ensures
        k == spec_hex_digits(n as nat).len(),
        1 <= k <= n + 1,
    decreases n,
{
    if n < 16 {
        1
    } else {
        let k = hex_digit_count(n / 16);
        k + 1
    }
}

fn push_hex_digits(out: &mut String, n: usize)
    ensures
        final(out)@ == old(out)@ + spec_hex_digits(n as nat),
    decreases n,
{
    if n >= 16 {
        push_hex_digits(out, n / 16);
    }
    out.push(hex_digit((n % 16) as u8));
}

/// Appends `n` in lowercase hexadecimal, zero-padded to `width` digits.
pub(crate) fn push_hex_padded(out: &mut String, n: usize, width: usize)
    ensures
        final(out)@ == old(out)@ + spec_hex_padded(n as nat, width as nat),
{
    let k = hex_digit_count(n);
    if k < width {
        let ghost start = out@;
        let mut i: usize = 0;
        while i < width - k
            invariant
                k < width,
                i <= width - k,
                out@ == start + Seq::new(i as nat, |j: int| '0'),
            decreases width - k - i,
        {
            out.push('0');
            i += 1;
            assert(out@ =~= start + Seq::new(i as nat, |j: int| '0'));
        }
        push_hex_digits(out, n);
        assert(out@ =~= start + spec_hex_padded(n as nat, width as nat));
    } else {
        push_hex_digits(out, n);
    }
}

/// Formats one dump line: the 8-digit offset, the 16 hex cells and the ASCII
/// column, padded to the full line width when the chunk is short.
pub fn format_line(offset: usize, chunk: &[u8]) -> (line: String)
    ensures
        line@ == spec_format_line(offset as nat, chunk@),
        offset < 0x1_0000_0000 ==> line@.len() == LINE_WIDTH,
{
    proof {
        if offset < 0x1_0000_0000 {
            lemma_format_line_len(offset as nat, chunk@);
        }
    }
    let mut line = String::new();
    push_hex_padded(&mut line, offset, 8);
    line.push(' ');
    line.push(' ');
    let ghost head = line@;
    let mut i: usize = 0;
    while i < BYTES_PER_LINE
        invariant
            i <= 16,
            line@ == head + spec_hex_area(chunk@, i as nat),
        decreases 16 - i,
    {
        let ghost before = line@;
        if i == 8 {
            line.push(' ');
        }
        if i < chunk.len() {
            let byte = chunk[i];
            line.push(hex_digit(byte / 16));
            line.push(hex_digit(byte % 16));
            line.push(' ');
        } else {
            line.push(' ');
            line.push(' ');
            line.push(' ');
        }
        assert(line@ =~= before + spec_hex_cell(chunk@, i as int));
        i += 1;
        assert(line@ =~= head + spec_hex_area(chunk@, i as nat));
    }
    line.push(' ');
    let ghost mid = line@;
    let mut i: usize = 0;
    while i < BYTES_PER_LINE
        invariant
            i <= 16,
            line@ == mid + spec_ascii_area(chunk@, i as nat),
        decreases 16 - i,
    {
        if i < chunk.len() {
            line.push(ascii_char(chunk[i]));
        } else {
            line.push(' ');
        }
        i += 1;
        assert(line@ =~= mid + spec_ascii_area(chunk@, i as nat));
    }
    line
}

fn hex_value(b: u8) -> (v: Option<u8>)
    ensures
        spec_is_hex_digit(b) ==> v == Some(spec_hex_value(b) as u8),
        !spec_is_hex_digit(b) ==> v is None,
        v matches Some(x) ==> x < 16,
{
    if 0x30 <= b && b <= 0x39 {
        Some(b - 0x30)
    } else if 0x61 <= b && b <= 0x66 {
        Some(b - 0x61 + 10)
    } else if 0x41 <= b && b <= 0x46 {
        Some(b - 0x41 + 10)
    } else {
        None
    }
}

/// Parses two bytes as a base-16 `u8`, with the rules of `u8::from_str_radix`.
pub(crate) fn parse_u8_hex2(hi: u8, lo: u8) -> (r: Option<u8>)
    ensures
        r == spec_parse_u8_hex2(hi, lo),
{
    match (hex_value(hi), hex_value(lo)) {
        (Some(h), Some(l)) => Some(h * 16 + l),
        (None, Some(l)) => {
            if hi == 0x2b {
                Some(l)
            } else {
                None
            }
        },
        _ => None,
    }
}

/// The byte in hex cell `byte_in_line` of a dump line, if the cell holds two
/// hex digits (columns are byte offsets into the line's UTF-8 text).
pub fn parse_hex_pair(line: &str, byte_in_line: usize) -> (r: Option<u8>)
    requires
        byte_in_line < BYTES_PER_LINE,
    ensures
        r == spec_parse_hex_pair(encode_utf8(line@), byte_in_line as int),
{
    let bytes = line.as_bytes();
    let c0 = hex_col(byte_in_line, 0);
    let c1 = hex_col(byte_in_line, 1);
    if c1 >= bytes.len() {
        return None;
    }
    parse_u8_hex2(bytes[c0], bytes[c1])
}

/// Parses formatted hex-dump lines back into raw bytes: each line
/// contributes the bytes of its leading run of filled hex cells.
pub fn rope_to_bytes(lines: &[String]) -> (bytes: Vec<u8>)
    ensures
        bytes@ == spec_rope_to_bytes(lines@.map_values(|l: String| l@)),
{
    let ghost text = lines@.map_values(|l: String| l@);
    let ghost enc = text.map_values(|l: Seq<char>| encode_utf8(l));
    let mut bytes: Vec<u8> = Vec::new();
    let mut i: usize = 0;
    while i < lines.len()
        invariant
            i <= lines.len(),
            text == lines@.map_values(|l: String| l@),
            enc == text.map_values(|l: Seq<char>| encode_utf8(l)),
            bytes@ == spec_lines_to_bytes(enc, i as nat),
        decreases lines.len() - i,
    {
        let line = lines[i].as_str();
        assert(encode_utf8(line@) == enc[i as int]);
        let ghost target = spec_lines_to_bytes(enc, (i + 1) as nat);
        let mut b: usize = 0;
        let mut done = false;
        while b < BYTES_PER_LINE && !done
            invariant
                b <= 16,
                encode_utf8(line@) == enc[i as int],
                bytes@ + spec_parse_line_from(enc[i as int], b as int) == target,
                done ==> spec_parse_line_from(enc[i as int], b as int) == Seq::<u8>::empty(),
            decreases 16 - b + (if done { 0int } else { 1int }),
        {
            match parse_hex_pair(line, b) {
                Some(byte) => {
                    bytes.push(byte);
                    b += 1;
                    assert(bytes@ + spec_parse_line_from(enc[i as int], b as int) =~= target);
                },
                None => {
                    done = true;
                },
            }
        }
        assert(bytes@ =~= target);
        i += 1;
    }
    bytes
}

/// Formats dump line `line` of a buffer.
pub fn format_line_for_bytes(bytes: &[u8], line: usize) -> (s: String)
    requires
        line * 16 <= bytes.len(),
        line * 16 + 16 <= usize::MAX,
    ensures
        s@ == spec_format_line((line * 16) as nat, spec_chunk(bytes@, line as int)),
        line < spec_line_count(bytes.len() as int) ==> s@ == spec_bytes_to_rope(bytes@)[line as int],
{
    let offset = line * BYTES_PER_LINE;
    let end = if offset + BYTES_PER_LINE <= bytes.len() {
        offset + BYTES_PER_LINE
    } else {
        bytes.len()
    };
    let chunk = slice_range(bytes, offset, end);
    assert(chunk@ =~= spec_chunk(bytes@, line as int));
    format_line(offset, chunk)
}

/// The subslice `s[from..to]`.
fn slice_range(s: &[u8], from: usize, to: usize) -> (r: &[u8])
    requires
        from <= to <= s.len(),
    ensures
        r@ == s@.subrange(from as int, to as int),
{
    let (head, _) = s.split_at(to);
    let (_, tail) = head.split_at(from);
    tail
}

/// The dump document of a buffer, one formatted line per 16 bytes (an empty
/// buffer gives one blank line); joining the lines with newlines gives the
/// text the viewer shows.
pub fn bytes_to_rope(bytes: &[u8]) -> (lines: Vec<String>)
    requires
        spec_line_count(bytes.len() as int) * 16 <= usize::MAX,
    ensures
        lines@.map_values(|l: String| l@) == spec_bytes_to_rope(bytes@),
{
    let n = line_count(bytes.len());
    let mut formatted: Vec<String> = Vec::new();
    let mut line: usize = 0;
    while line < n
        invariant
            n == spec_line_count(bytes.len() as int),
            line <= n,
            n * 16 <= usize::MAX,
            formatted@.len() == line,
            forall|j: int|
                0 <= j < line ==> #[trigger] formatted@[j]@ == spec_bytes_to_rope(bytes@)[j],
        decreases n - line,
    {
        proof {
            lemma_line_offset_in_bounds(bytes.len() as int, line as int);
            assert(line * 16 + 16 <= n * 16) by (nonlinear_arith)
                requires
                    line < n,
            ;
        }
        let s = format_line_for_bytes(bytes, line);
        formatted.push(s);
        line += 1;
    }
    assert(formatted@.map_values(|l: String| l@) =~= spec_bytes_to_rope(bytes@));
    formatted
}

/// Every dump line starts at an offset inside the buffer.
proof fn lemma_line_offset_in_bounds(len: int, line: int)
    requires
        0 <= len,
        0 <= line < spec_line_count(len),
    ensures
        line * 16 <= len,
        len > 0 ==> line * 16 < len,
{
}

/// Position of byte `k`'s first hex digit inside the hex column.
pub open spec fn spec_hex_area_pos(k: int) -> int {
    3 * k + (if k >= 8 { 1int } else { 0int })
}

pub(crate) proof fn lemma_hex_area_len(chunk: Seq<u8>, n: nat)
    requires
        n <= 16,
    ensures
        spec_hex_area(chunk, n).len() == 3 * n + (if n > 8 { 1int } else { 0int }),
    decreases n,
{
    if n > 0 {
        lemma_hex_area_len(chunk, (n - 1) as nat);
    }
}

/// The two characters of cell `k` of the hex column sit at `spec_hex_area_pos(k)`,
/// followed by a space.
pub(crate) proof fn lemma_hex_area_index(chunk: Seq<u8>, n: nat, k: int)
    requires
        0 <= k < n <= 16,
    ensures
        spec_hex_area(chunk, n)[spec_hex_area_pos(k)] == (if k < chunk.len() {
            spec_hex_digit((chunk[k] / 16) as int)
        } else {
            ' '
        }),
        spec_hex_area(chunk, n)[spec_hex_area_pos(k) + 1] == (if k < chunk.len() {
            spec_hex_digit((chunk[k] % 16) as int)
        } else {
            ' '
        }),
        spec_hex_area(chunk, n)[spec_hex_area_pos(k) + 2] == ' ',
    decreases n,
{
    lemma_hex_area_len(chunk, (n - 1) as nat);
    lemma_hex_area_len(chunk, n);
    let prev = spec_hex_area(chunk, (n - 1) as nat);
    let cell = spec_hex_cell(chunk, n - 1);
    assert(spec_hex_area(chunk, n) == prev + cell);
    if k < n - 1 {
        lemma_hex_area_index(chunk, (n - 1) as nat, k);
    }
}

proof fn lemma_hex_digits_ascii(n: nat)
    ensures
        forall|i: int|
            0 <= i < spec_hex_digits(n).len() ==> '\0' <= #[trigger] spec_hex_digits(n)[i]
                <= '\u{7f}',
    decreases n,
{
    if n >= 16 {
        lemma_hex_digits_ascii(n / 16);
        let prefix = spec_hex_digits(n / 16);
        let d = spec_hex_digit((n % 16) as int);
        assert('\0' <= d <= '\u{7f}');
        assert forall|i: int|
            0 <= i < spec_hex_digits(n).len() implies '\0' <= #[trigger] spec_hex_digits(n)[i]
                <= '\u{7f}' by {
            if i < prefix.len() {
                assert(spec_hex_digits(n)[i] == prefix[i]);
            }
        }
    } else {
        let d = spec_hex_digit(n as int);
        assert('\0' <= d <= '\u{7f}');
    }
}

proof fn lemma_hex_area_ascii(chunk: Seq<u8>, n: nat)
    ensures
        forall|i: int|
            0 <= i < spec_hex_area(chunk, n).len() ==> '\0' <= #[trigger] spec_hex_area(chunk, n)[i]
                <= '\u{7f}',
    decreases n,
{
    if n > 0 {
        lemma_hex_area_ascii(chunk, (n - 1) as nat);
        let prev = spec_hex_area(chunk, (n - 1) as nat);
        let cell = spec_hex_cell(chunk, n - 1);
        assert forall|i: int| 0 <= i < cell.len() implies '\0' <= #[trigger] cell[i] <= '\u{7f}' by {
        }
        assert forall|i: int|
            0 <= i < spec_hex_area(chunk, n).len() implies '\0' <= #[trigger] spec_hex_area(
            chunk,
            n,
        )[i] <= '\u{7f}' by {
            if i < prev.len() {
                assert(spec_hex_area(chunk, n)[i] == prev[i]);
            } else {
                assert(spec_hex_area(chunk, n)[i] == cell[i - prev.len()]);
            }
        }
    }
}

pub(crate) proof fn lemma_ascii_area_ascii(chunk: Seq<u8>, n: nat)
    ensures
        spec_ascii_area(chunk, n).len() == n,
        forall|i: int|
            0 <= i < n ==> #[trigger] spec_ascii_area(chunk, n)[i] == (if i < chunk.len() {
                spec_ascii_char(chunk[i])
            } else {
                ' '
            }),
        forall|i: int|
            0 <= i < spec_ascii_area(chunk, n).len() ==> '\0' <= #[trigger] spec_ascii_area(chunk, n)[i]
                <= '\u{7f}',
    decreases n,
{
    if n > 0 {
        lemma_ascii_area_ascii(chunk, (n - 1) as nat);
    }
}

/// `n < 16^8` has at most eight hex digits, so its 8-wide padding is exact.
pub(crate) proof fn lemma_hex_padded_8(n: nat)
    requires
        n < 0x1_0000_0000,
    ensures
        spec_hex_padded(n, 8).len() == 8,
{
    assert(pow16(8) == 0x1_0000_0000) by {
        reveal_with_fuel(pow16, 9);
    }
    lemma_hex_digits_len_lt(n, 8);
}

/// `n < 16^k` implies at most `k` hex digits.
proof fn lemma_hex_digits_len_lt(n: nat, k: nat)
    requires
        k >= 1,
        n < pow16(k),
    ensures
        spec_hex_digits(n).len() <= k,
    decreases k,
{
    if n >= 16 {
        if k == 1 {
            assert(pow16(1) == 16) by {
                reveal_with_fuel(pow16, 2);
            }
        } else {
            assert(pow16(k) == 16 * pow16((k - 1) as nat));
            assert(n / 16 < pow16((k - 1) as nat)) by (nonlinear_arith)
                requires
                    n < pow16(k),
                    pow16(k) == 16 * pow16((k - 1) as nat),
            ;
            lemma_hex_digits_len_lt(n / 16, (k - 1) as nat);
        }
    }
}

pub open spec fn pow16(k: nat) -> nat
    decreases k,
{
    if k == 0 {
        1
    } else {
        16 * pow16((k - 1) as nat)
    }
}

/// A formatted line is plain ASCII, so its UTF-8 bytes are its characters.
proof fn lemma_format_line_ascii(offset: nat, chunk: Seq<u8>)
    ensures
        is_ascii_chars(spec_format_line(offset, chunk)),
{
    let digits = spec_hex_digits(offset);
    let padded = spec_hex_padded(offset, 8);
    lemma_hex_digits_ascii(offset);
    lemma_hex_area_ascii(chunk, 16);
    lemma_ascii_area_ascii(chunk, 16);
    assert forall|i: int| 0 <= i < padded.len() implies '\0' <= #[trigger] padded[i] <= '\u{7f}' by {
        if digits.len() < 8 {
            let zeros = Seq::new((8 - digits.len()) as nat, |j: int| '0');
            if i >= zeros.len() {
                assert(padded[i] == digits[i - zeros.len()]);
            }
        }
    }
    let line = spec_format_line(offset, chunk);
    let a = padded + seq![' ', ' '];
    let b = a + spec_hex_area(chunk, 16);
    let c = b + seq![' '];
    assert(line == c + spec_ascii_area(chunk, 16));
    assert forall|i: int| 0 <= i < line.len() implies '\0' <= #[trigger] line[i] <= '\u{7f}' by {
        if i < c.len() {
            assert(line[i] == c[i]);
            if i < b.len() {
                assert(c[i] == b[i]);
                if i < a.len() {
                    assert(b[i] == a[i]);
                    if i < padded.len() {
                        assert(a[i] == padded[i]);
                    }
                } else {
                    assert(b[i] == spec_hex_area(chunk, 16)[i - a.len()]);
                }
            }
        } else {
            assert(line[i] == spec_ascii_area(chunk, 16)[i - c.len()]);
        }
    }
}

proof fn lemma_hex_digit_roundtrip(d: int)
    requires
        0 <= d < 16,
    ensures
        spec_is_hex_digit(spec_hex_digit(d) as u8),
        spec_hex_value(spec_hex_digit(d) as u8) == d,
{
}

/// Per-cell round trip: reading hex cell `k` back (`parse_hex_pair`) from a
/// line formatted by `format_line` at an offset below 2^32 gives the byte
/// written there, or nothing past the end of the chunk.
pub proof fn lemma_parse_formatted_cell(offset: nat, chunk: Seq<u8>, k: int)
    requires
        offset < 0x1_0000_0000,
        0 <= k < 16,
    ensures
        spec_parse_hex_pair(encode_utf8(spec_format_line(offset, chunk)), k) == (if k
            < chunk.len() {
            Some(chunk[k])
        } else {
            None
        }),
{
    let line = spec_format_line(offset, chunk);
    let padded = spec_hex_padded(offset, 8);
    lemma_hex_padded_8(offset);
    lemma_hex_area_len(chunk, 16);
    lemma_format_line_ascii(offset, chunk);
    is_ascii_chars_encode_utf8(line);
    lemma_hex_area_index(chunk, 16, k);
    let a = padded + seq![' ', ' '];
    let area = spec_hex_area(chunk, 16);
    let b = a + area;
    let c = b + seq![' '];
    assert(line == c + spec_ascii_area(chunk, 16));
    let p = spec_hex_area_pos(k);
    assert(spec_hex_col(k, 0) == 10 + p);
    assert(line[10 + p] == area[p]) by {
        assert(c[10 + p] == b[10 + p]);
        assert(b[10 + p] == area[p]);
    }
    assert(line[10 + p + 1] == area[p + 1]) by {
        assert(c[10 + p + 1] == b[10 + p + 1]);
        assert(b[10 + p + 1] == area[p + 1]);
    }
    let enc = encode_utf8(line);
    assert(enc[10 + p] == line[10 + p] as u8);
    assert(enc[10 + p + 1] == line[10 + p + 1] as u8);
    if k < chunk.len() {
        let x = chunk[k];
        lemma_hex_digit_roundtrip((x / 16) as int);
        lemma_hex_digit_roundtrip((x % 16) as int);
        assert(((x / 16) as int) * 16 + ((x % 16) as int) == x as int);
    }
}

/// Per-line round trip: the bytes read back from one formatted line (offset
/// below 2^32, at most 16 bytes), from cell `from` on, are the chunk's bytes
/// from `from` on.
pub proof fn lemma_parse_formatted_line_from(offset: nat, chunk: Seq<u8>, from: int)
    requires
        offset < 0x1_0000_0000,
        chunk.len() <= 16,
        0 <= from <= chunk.len(),
    ensures
        spec_parse_line_from(encode_utf8(spec_format_line(offset, chunk)), from) == chunk.subrange(
            from,
            chunk.len() as int,
        ),
    decreases 16 - from,
{
    let enc = encode_utf8(spec_format_line(offset, chunk));
    if from < 16 {
        lemma_parse_formatted_cell(offset, chunk, from);
        if from < chunk.len() {
            lemma_parse_formatted_line_from(offset, chunk, from + 1);
            assert(seq![chunk[from]] + chunk.subrange(from + 1, chunk.len() as int) =~= chunk.subrange(
                from,
                chunk.len() as int,
            ));
        } else {
            assert(chunk.subrange(from, chunk.len() as int) =~= Seq::<u8>::empty());
        }
    } else {
        assert(chunk.subrange(from, chunk.len() as int) =~= Seq::<u8>::empty());
    }
}

proof fn lemma_lines_to_bytes_prefix(bytes: Seq<u8>, n: nat)
    requires
        bytes.len() <= 0x1_0000_0000,
        n <= spec_line_count(bytes.len() as int),
    ensures
        spec_lines_to_bytes(
            spec_bytes_to_rope(bytes).map_values(|l: Seq<char>| encode_utf8(l)),
            n,
        ) == bytes.subrange(0, min_int((n * 16) as int, bytes.len() as int)),
    decreases n,
{
    let enc = spec_bytes_to_rope(bytes).map_values(|l: Seq<char>| encode_utf8(l));
    if n == 0 {
        assert(bytes.subrange(0, 0) =~= Seq::<u8>::empty());
    } else {
        let i = n - 1;
        lemma_lines_to_bytes_prefix(bytes, (n - 1) as nat);
        lemma_line_offset_in_bounds(bytes.len() as int, i);
        let chunk = spec_chunk(bytes, i);
        assert(enc[i] == encode_utf8(spec_format_line((i * 16) as nat, chunk)));
        lemma_parse_formatted_line_from((i * 16) as nat, chunk, 0);
        assert(chunk.subrange(0, chunk.len() as int) =~= chunk);
        assert(bytes.subrange(0, min_int(i * 16, bytes.len() as int)) + chunk =~= bytes.subrange(
            0,
            min_int((n * 16) as int, bytes.len() as int),
        ));
    }
}

/// Formatting a buffer as a dump document and parsing the document back
/// gives the buffer again (for buffers up to 4 GiB, whose offsets fit the
/// eight-digit offset column).
pub proof fn lemma_bytes_rope_roundtrip(bytes: Seq<u8>)
    requires
        bytes.len() <= 0x1_0000_0000,
    ensures
        spec_rope_to_bytes(spec_bytes_to_rope(bytes)) == bytes,
{
    let n = spec_line_count(bytes.len() as int);
    lemma_lines_to_bytes_prefix(bytes, n as nat);
    assert(spec_bytes_to_rope(bytes).len() == n);
    assert(bytes.subrange(0, min_int((n * 16) as int, bytes.len() as int)) =~= bytes);
}

/// The first `n` lines joined with newlines: the text of the dump document.
pub open spec fn spec_join_lines(lines: Seq<Seq<char>>, n: nat) -> Seq<char>
    decreases n,
{
    if n == 0 {
        Seq::empty()
    } else if n == 1 {
        lines[0]
    } else {
        spec_join_lines(lines, (n - 1) as nat) + seq!['\n'] + lines[n - 1]
    }
}

/// A line formatted at an offset below 2^32 is exactly `LINE_WIDTH` wide.
proof fn lemma_format_line_len(offset: nat, chunk: Seq<u8>)
    requires
        offset < 0x1_0000_0000,
    ensures
        spec_format_line(offset, chunk).len() == 76,
{
    lemma_hex_padded_8(offset);
    lemma_hex_area_len(chunk, 16);
    lemma_ascii_area_ascii(chunk, 16);
}

proof fn lemma_join_index(lines: Seq<Seq<char>>, n: nat)
    requires
        n <= lines.len(),
        forall|i: int| 0 <= i < lines.len() ==> (#[trigger] lines[i]).len() == 76,
    ensures
        n > 0 ==> spec_join_lines(lines, n).len() == n * 77 - 1,
        forall|l: int, c: int|
            0 <= l < n && 0 <= c < 76 ==> #[trigger] spec_join_lines(lines, n)[l * 77 + c]
                == lines[l][c],
        forall|l: int| 0 <= l && l + 1 < n ==> #[trigger] spec_join_lines(lines, n)[l * 77 + 76] == '\n',
    decreases n,
{
    if n > 1 {
        lemma_join_index(lines, (n - 1) as nat);
        let prev = spec_join_lines(lines, (n - 1) as nat);
        let last = lines[n - 1];
        let joined = spec_join_lines(lines, n);
        assert(joined == prev + seq!['\n'] + last);
        assert forall|l: int, c: int| 0 <= l < n && 0 <= c < 76 implies #[trigger] joined[l * 77 + c]
            == lines[l][c] by {
            if l < n - 1 {
                assert(joined[l * 77 + c] == prev[l * 77 + c]);
            } else {
                assert(joined[l * 77 + c] == last[c]);
            }
        }
        assert forall|l: int| 0 <= l && l + 1 < n implies #[trigger] joined[l * 77 + 76] == '\n' by {
            if l + 1 < n - 1 {
                assert(joined[l * 77 + 76] == prev[l * 77 + 76]);
            }
        }
    }
}

/// The virtual addressing of the dump matches its text: every line is
/// `LINE_WIDTH` characters, the joined text is `display_len_chars` long, and
/// character `l * 77 + c` (for `c < LINE_WIDTH`) is column `c` of line `l`,
/// which `char_to_line_col` reports; the remaining positions hold the
/// newlines. Holds for buffers up to 4 GiB.
pub proof fn lemma_virtual_addressing(bytes: Seq<u8>)
    requires
        bytes.len() <= 0x1_0000_0000,
    ensures
        ({
            let lines = spec_bytes_to_rope(bytes);
            let n = lines.len();
            let text = spec_join_lines(lines, n);
            &&& forall|i: int| 0 <= i < n ==> (#[trigger] lines[i]).len() == 76
            &&& text.len() == crate::hex_layout::spec_display_len_chars(bytes.len() as int)
            &&& forall|l: int, c: int|
                0 <= l < n && 0 <= c < 76 ==> #[trigger] text[l * 77 + c] == lines[l][c]
                    && crate::hex_layout::spec_char_to_line_col(l * 77 + c, bytes.len() as int)
                    == (l, c)
            &&& forall|l: int| 0 <= l && l + 1 < n ==> #[trigger] text[l * 77 + 76] == '\n'
        }),
{
    let lines = spec_bytes_to_rope(bytes);
    let n = lines.len();
    assert forall|i: int| 0 <= i < n implies (#[trigger] lines[i]).len() == 76 by {
        lemma_line_offset_in_bounds(bytes.len() as int, i);
        lemma_format_line_len((i * 16) as nat, spec_chunk(bytes, i));
    }
    lemma_join_index(lines, n);
    assert forall|l: int, c: int| 0 <= l < n && 0 <= c < 76 implies #[trigger] crate::hex_layout::spec_char_to_line_col(
        l * 77 + c,
        bytes.len() as int,
    ) == (l, c) by {
        crate::hex_layout::lemma_line_col_roundtrip(l, c, bytes.len() as int);
    }
}

/// The virtual length of the dump (`display_len_chars`) is the length of
/// its text: the formatted lines joined by newlines (buffers up to 4 GiB).
pub proof fn lemma_display_len_is_text_len(bytes: Seq<u8>)
    requires
        bytes.len() <= 0x1_0000_0000,
    ensures
        spec_join_lines(spec_bytes_to_rope(bytes), spec_bytes_to_rope(bytes).len())
            .len() == crate::hex_layout::spec_display_len_chars(bytes.len() as int),
{
    lemma_virtual_addressing(bytes);
}

pub open spec fn spec_starts_with(buffer: Seq<u8>, prefix: Seq<u8>) -> bool {
    prefix.len() <= buffer.len() && buffer.subrange(0, prefix.len() as int) == prefix
}

/// Byte-order marks of UTF-8, UTF-32 (BE, LE) and UTF-16 (BE, LE) text.
pub open spec fn spec_starts_with_bom(buffer: Seq<u8>) -> bool {
    spec_starts_with(buffer, seq![0xEFu8, 0xBBu8, 0xBFu8]) || spec_starts_with(
        buffer,
        seq![0x00u8, 0x00u8, 0xFEu8, 0xFFu8],
    ) || spec_starts_with(buffer, seq![0xFFu8, 0xFEu8, 0x00u8, 0x00u8]) || spec_starts_with(
        buffer,
        seq![0xFEu8, 0xFFu8],
    ) || spec_starts_with(buffer, seq![0xFFu8, 0xFEu8])
}

/// Binary heuristic: text with a byte-order mark is never binary; otherwise
/// a NUL byte in the first 1024 bytes, or a PDF or PNG signature, marks binary.
pub open spec fn spec_is_binary(buffer: Seq<u8>) -> bool {
    if spec_starts_with_bom(buffer) {
        false
    } else {
        buffer.subrange(0, min_int(buffer.len() as int, 1024)).contains(0u8) || spec_starts_with(
            buffer,
            seq![0x25u8, 0x50u8, 0x44u8, 0x46u8],
        ) || spec_starts_with(buffer, seq![0x89u8, 0x50u8, 0x4Eu8, 0x47u8])
    }
}

/// Text with a byte-order mark is never binary, whatever follows the mark:
/// UTF-8 (EF BB BF), UTF-32 BE (00 00 FE FF), UTF-32 LE (FF FE 00 00),
/// UTF-16 BE (FE FF) or UTF-16 LE (FF FE).
pub open spec fn spec_has_bom_bytes(b: Seq<u8>) -> bool {
    ||| (b.len() >= 3 && b[0] == 0xEF && b[1] == 0xBB && b[2] == 0xBF)
    ||| (b.len() >= 4 && b[0] == 0x00 && b[1] == 0x00 && b[2] == 0xFE && b[3] == 0xFF)
    ||| (b.len() >= 4 && b[0] == 0xFF && b[1] == 0xFE && b[2] == 0x00 && b[3] == 0x00)
    ||| (b.len() >= 2 && b[0] == 0xFE && b[1] == 0xFF)
    ||| (b.len() >= 2 && b[0] == 0xFF && b[1] == 0xFE)
}

/// What makes a buffer binary: text starting with a byte-order mark never
/// is; a PDF or PNG signature is; and so is a NUL byte among the first 1024
/// bytes of a buffer without a byte-order mark, while a NUL byte only after
/// them does not count.
pub proof fn lemma_binary_detection(buffer: Seq<u8>)
    ensures
        spec_has_bom_bytes(buffer) ==> !spec_is_binary(buffer),
        buffer.len() >= 4 && buffer[0] == 0x25 && buffer[1] == 0x50 && buffer[2] == 0x44
            && buffer[3] == 0x46 ==> spec_is_binary(buffer),
        buffer.len() >= 4 && buffer[0] == 0x89 && buffer[1] == 0x50 && buffer[2] == 0x4E
            && buffer[3] == 0x47 ==> spec_is_binary(buffer),
        forall|i: int|
            0 <= i < buffer.len() && i < 1024 && buffer[i] == 0 && !spec_has_bom_bytes(buffer)
                ==> #[trigger] spec_is_binary(buffer),
        (forall|i: int|
            0 <= i < buffer.len() ==> buffer[i] != 0 && buffer[i] != 0x25 && buffer[i] != 0x89)
            ==> !spec_is_binary(buffer),
{
    let b = buffer;
    if b.len() >= 3 && b[0] == 0xEF && b[1] == 0xBB && b[2] == 0xBF {
        assert(b.subrange(0, 3) =~= seq![0xEFu8, 0xBBu8, 0xBFu8]);
    }
    if b.len() >= 4 && b[0] == 0x00 && b[1] == 0x00 && b[2] == 0xFE && b[3] == 0xFF {
        assert(b.subrange(0, 4) =~= seq![0x00u8, 0x00u8, 0xFEu8, 0xFFu8]);
    }
    if b.len() >= 4 && b[0] == 0xFF && b[1] == 0xFE && b[2] == 0x00 && b[3] == 0x00 {
        assert(b.subrange(0, 4) =~= seq![0xFFu8, 0xFEu8, 0x00u8, 0x00u8]);
    }
    if b.len() >= 2 && b[0] == 0xFE && b[1] == 0xFF {
        assert(b.subrange(0, 2) =~= seq![0xFEu8, 0xFFu8]);
    }
    if b.len() >= 2 && b[0] == 0xFF && b[1] == 0xFE {
        assert(b.subrange(0, 2) =~= seq![0xFFu8, 0xFEu8]);
    }
    if b.len() >= 4 && b[0] == 0x25 && b[1] == 0x50 && b[2] == 0x44 && b[3] == 0x46 {
        assert(b.subrange(0, 4) =~= seq![0x25u8, 0x50u8, 0x44u8, 0x46u8]);
    }
    if b.len() >= 4 && b[0] == 0x89 && b[1] == 0x50 && b[2] == 0x4E && b[3] == 0x47 {
        assert(b.subrange(0, 4) =~= seq![0x89u8, 0x50u8, 0x4Eu8, 0x47u8]);
    }
    assert forall|i: int|
        0 <= i < buffer.len() && i < 1024 && buffer[i] == 0 && !spec_has_bom_bytes(buffer)
            implies #[trigger] spec_is_binary(buffer) by {
        let scan = b.subrange(0, min_int(b.len() as int, 1024));
        assert(scan[i] == 0);
        assert(scan.contains(0u8));
        if spec_starts_with_bom(b) {
            if spec_starts_with(b, seq![0xEFu8, 0xBBu8, 0xBFu8]) {
                assert(b.subrange(0, 3)[0] == b[0]);
                assert(b.subrange(0, 3)[1] == b[1]);
                assert(b.subrange(0, 3)[2] == b[2]);
            } else if spec_starts_with(b, seq![0x00u8, 0x00u8, 0xFEu8, 0xFFu8]) {
                assert(b.subrange(0, 4)[0] == b[0] && b.subrange(0, 4)[1] == b[1]);
                assert(b.subrange(0, 4)[2] == b[2] && b.subrange(0, 4)[3] == b[3]);
            } else if spec_starts_with(b, seq![0xFFu8, 0xFEu8, 0x00u8, 0x00u8]) {
                assert(b.subrange(0, 4)[0] == b[0] && b.subrange(0, 4)[1] == b[1]);
                assert(b.subrange(0, 4)[2] == b[2] && b.subrange(0, 4)[3] == b[3]);
            } else if spec_starts_with(b, seq![0xFEu8, 0xFFu8]) {
                assert(b.subrange(0, 2)[0] == b[0] && b.subrange(0, 2)[1] == b[1]);
            } else {
                assert(b.subrange(0, 2)[0] == b[0] && b.subrange(0, 2)[1] == b[1]);
            }
        }
    }
    if forall|i: int| 0 <= i < buffer.len() ==> buffer[i] != 0 && buffer[i] != 0x25 && buffer[i]
        != 0x89 {
        let scan = b.subrange(0, min_int(b.len() as int, 1024));
        assert(!scan.contains(0u8)) by {
            if scan.contains(0u8) {
                let j = choose|j: int| 0 <= j < scan.len() && scan[j] == 0u8;
                assert(b[j] == scan[j]);
            }
        }
        if b.len() >= 4 {
            assert(b.subrange(0, 4)[0] == b[0]);
        }
    }
}

fn starts_with(buffer: &[u8], prefix: &[u8]) -> (b: bool)
    ensures
        b == spec_starts_with(buffer@, prefix@),
{
    if prefix.len() > buffer.len() {
        return false;
    }
    let mut i: usize = 0;
    while i < prefix.len()
        invariant
            i <= prefix.len() <= buffer.len(),
            forall|j: int| 0 <= j < i ==> buffer@[j] == prefix@[j],
        decreases prefix.len() - i,
    {
        if buffer[i] != prefix[i] {
            assert(buffer@.subrange(0, prefix.len() as int)[i as int] != prefix@[i as int]);
            return false;
        }
        i += 1;
    }
    assert(buffer@.subrange(0, prefix.len() as int) =~= prefix@);
    true
}

/// Heuristic binary check over a leading chunk (NUL byte or known magic).
pub fn is_binary(buffer: &[u8]) -> (b: bool)
    ensures
        b == spec_is_binary(buffer@),
        spec_has_bom_bytes(buffer@) ==> !b,
{
    proof {
        lemma_binary_detection(buffer@);
    }
    let boms: [&[u8]; 5] = [
        &[0xEF, 0xBB, 0xBF],
        &[0x00, 0x00, 0xFE, 0xFF],
        &[0xFF, 0xFE, 0x00, 0x00],
        &[0xFE, 0xFF],
        &[0xFF, 0xFE],
    ];
    assert(boms[0]@ == seq![0xEFu8, 0xBBu8, 0xBFu8]);
    assert(boms[1]@ == seq![0x00u8, 0x00u8, 0xFEu8, 0xFFu8]);
    assert(boms[2]@ == seq![0xFFu8, 0xFEu8, 0x00u8, 0x00u8]);
    assert(boms[3]@ == seq![0xFEu8, 0xFFu8]);
    assert(boms[4]@ == seq![0xFFu8, 0xFEu8]);
    if starts_with(buffer, boms[0]) || starts_with(buffer, boms[1]) || starts_with(buffer, boms[2])
        || starts_with(buffer, boms[3]) || starts_with(buffer, boms[4]) {
        return false;
    }
    let scan_len = if buffer.len() < 1024 {
        buffer.len()
    } else {
        1024
    };
    let mut i: usize = 0;
    while i < scan_len
        invariant
            scan_len == min_int(buffer.len() as int, 1024),
            !spec_starts_with_bom(buffer@),
            spec_has_bom_bytes(buffer@) ==> !spec_is_binary(buffer@),
            i <= scan_len,
            forall|j: int| 0 <= j < i ==> buffer@[j] != 0u8,
        decreases scan_len - i,
    {
        if buffer[i] == 0 {
            assert(buffer@.subrange(0, scan_len as int)[i as int] == 0u8);
            assert(buffer@.subrange(0, scan_len as int).contains(0u8));
            return true;
        }
        i += 1;
    }
    assert(!buffer@.subrange(0, scan_len as int).contains(0u8)) by {
        if buffer@.subrange(0, scan_len as int).contains(0u8) {
            let j = choose|j: int|
                0 <= j < scan_len && buffer@.subrange(0, scan_len as int)[j] == 0u8;
            assert(buffer@[j] == 0u8);
        }
    }
    let pdf: &[u8] = &[0x25, 0x50, 0x44, 0x46];
    let png: &[u8] = &[0x89, 0x50, 0x4E, 0x47];
    assert(pdf@ == seq![0x25u8, 0x50u8, 0x44u8, 0x46u8]);
    assert(png@ == seq![0x89u8, 0x50u8, 0x4Eu8, 0x47u8]);
    starts_with(buffer, pdf) || starts_with(buffer, png)
}

} // verus!
