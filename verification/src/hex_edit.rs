//! In-place byte editing in the hex view: typing a hex digit over a nibble
//! or a character over the ASCII column, and entering or leaving the view.

use vstd::prelude::*;

use crate::hex_layout::{
    field_at_col, hex_col, spec_field_at_col, spec_hex_col, HexField, ASCII_START, BYTES_PER_LINE,
};

verus! {

/// Why a typed key did not edit a byte.
#[derive(Debug, Clone, Copy, PartialEq, Eq, Structural)]
pub enum HexEditStatus {
    ExpectedHexDigit,
    ExpectedAscii,
    MoveToHexOrAscii,
}

impl HexEditStatus {
    /// The status line shown to the user.
    pub fn message(&self) -> (m: &'static str)
        ensures
            *self == HexEditStatus::ExpectedHexDigit ==> m@ == "expected hex digit"@,
            *self == HexEditStatus::ExpectedAscii ==> m@ == "expected ASCII character"@,
            *self == HexEditStatus::MoveToHexOrAscii ==> m@ == "move cursor to hex or ASCII column"@,
    {
        match self {
            HexEditStatus::ExpectedHexDigit => "expected hex digit",
            HexEditStatus::ExpectedAscii => "expected ASCII character",
            HexEditStatus::MoveToHexOrAscii => "move cursor to hex or ASCII column",
        }
    }
}

/// What typing a character in the hex view does.
#[derive(Debug, Clone, Copy, PartialEq, Eq, Structural)]
pub enum HexEditOutcome {
    /// The document is not a hex dump: the key is left to normal editing.
    NotHexDump,
    /// The key is consumed and a status message is shown.
    Status(HexEditStatus),
    /// The key is consumed; the cursor is past the last byte.
    Ignored,
    /// Byte `byte_index` becomes `byte` and the cursor moves to `(line, col)`.
    SetByte { byte_index: usize, byte: u8, line: usize, col: usize },
}

impl HexEditOutcome {
    /// Whether the hex view consumed the key.
    pub fn handled(&self) -> (b: bool)
        ensures
            b == !(*self is NotHexDump),
    {
        match self {
            HexEditOutcome::NotHexDump => false,
            _ => true,
        }
    }
}

/// Value of a base-16 digit character (`char::to_digit(16)`).
pub open spec fn spec_hex_digit_value(c: char) -> Option<u8> {
    if '0' <= c <= '9' {
        Some((c as int - 48) as u8)
    } else if 'a' <= c <= 'f' {
        Some((c as int - 87) as u8)
    } else if 'A' <= c <= 'F' {
        Some((c as int - 55) as u8)
    } else {
        None
    }
}

pub fn hex_digit_value(c: char) -> (d: Option<u8>)
    ensures
        d == spec_hex_digit_value(c),
        d matches Some(v) ==> v < 16,
{
    if '0' <= c && c <= '9' {
        Some((c as u32 - 48) as u8)
    } else if 'a' <= c && c <= 'f' {
        Some((c as u32 - 87) as u8)
    } else if 'A' <= c && c <= 'F' {
        Some((c as u32 - 55) as u8)
    } else {
        None
    }
}

/// The byte with one nibble replaced by `digit` (nibble 0 is the high one).
pub open spec fn spec_set_nibble(old: u8, nibble: int, digit: u8) -> u8 {
    if nibble == 0 {
        (digit * 16 + old % 16) as u8
    } else {
        ((old / 16) * 16 + digit) as u8
    }
}

/// Typing `c` with the cursor at `(line, col)` of the dump of `bytes`: a hex
/// digit replaces the nibble under the cursor and moves to the next nibble
/// (staying on the last nibble of a line or of the buffer); an ASCII
/// character replaces the byte under the cursor in the ASCII column and
/// moves right within the line and buffer. Positions past the last byte
/// change nothing.
pub open spec fn spec_apply_hex_char(
    is_hex_dump: bool,
    bytes: Seq<u8>,
    line: int,
    col: int,
    c: char,
) -> HexEditOutcome {
    if !is_hex_dump {
        HexEditOutcome::NotHexDump
    } else {
        match spec_field_at_col(col) {
            HexField::Hex { byte_in_line, nibble } => match spec_hex_digit_value(c) {
                None => HexEditOutcome::Status(HexEditStatus::ExpectedHexDigit),
                Some(digit) => {
                    let byte_index = line * 16 + byte_in_line;
                    if byte_index >= bytes.len() {
                        HexEditOutcome::Ignored
                    } else {
                        let next_col = if nibble == 0 {
                            spec_hex_col(byte_in_line as int, 1)
                        } else if byte_in_line + 1 < 16 && byte_index + 1 < bytes.len() {
                            spec_hex_col(byte_in_line + 1, 0)
                        } else {
                            spec_hex_col(byte_in_line as int, 1)
                        };
                        HexEditOutcome::SetByte {
                            byte_index: byte_index as usize,
                            byte: spec_set_nibble(bytes[byte_index], nibble as int, digit),
                            line: line as usize,
                            col: next_col as usize,
                        }
                    }
                },
            },
            HexField::Ascii { byte_in_line } => if !(c <= '\u{7f}') {
                HexEditOutcome::Status(HexEditStatus::ExpectedAscii)
            } else {
                let byte_index = line * 16 + byte_in_line;
                if byte_index >= bytes.len() {
                    HexEditOutcome::Ignored
                } else {
                    let next_col = if byte_in_line + 1 < 16 && byte_index + 1 < bytes.len() {
                        60 + byte_in_line + 1
                    } else {
                        col
                    };
                    HexEditOutcome::SetByte {
                        byte_index: byte_index as usize,
                        byte: c as u8,
                        line: line as usize,
                        col: next_col as usize,
                    }
                }
            },
            _ => HexEditOutcome::Status(HexEditStatus::MoveToHexOrAscii),
        }
    }
}

/// The byte index `line * 16 + byte_in_line` that typing `c` computes fits
/// in `usize` (it is computed only in a hex dump, on a hex cell with a hex
/// digit or an ASCII cell with an ASCII character).
pub open spec fn spec_edit_index_fits(is_hex_dump: bool, line: int, col: int, c: char) -> bool {
    is_hex_dump ==> match spec_field_at_col(col) {
        HexField::Hex { byte_in_line, nibble } => spec_hex_digit_value(c) is Some ==> line * 16
            + byte_in_line <= usize::MAX,
        HexField::Ascii { byte_in_line } => c <= '\u{7f}' ==> line * 16 + byte_in_line
            <= usize::MAX,
        _ => true,
    }
}

/// Applies a typed character to the hex view (the cursor is at `(line,
/// col)` of the dump of `bytes`); see `spec_apply_hex_char`.
pub fn apply_hex_char(is_hex_dump: bool, bytes: &[u8], line: usize, col: usize, c: char) -> (o:
    HexEditOutcome)
    requires
        spec_edit_index_fits(is_hex_dump, line as int, col as int, c),
    ensures
        o == spec_apply_hex_char(is_hex_dump, bytes@, line as int, col as int, c),
{
    if !is_hex_dump {
        return HexEditOutcome::NotHexDump;
    }
    let hex_len = bytes.len();
    match field_at_col(col) {
        HexField::Hex { byte_in_line, nibble } => {
            let digit = match hex_digit_value(c) {
                Some(d) => d,
                None => {
                    return HexEditOutcome::Status(HexEditStatus::ExpectedHexDigit);
                },
            };
            let byte_index = line * BYTES_PER_LINE + byte_in_line;
            if byte_index >= hex_len {
                return HexEditOutcome::Ignored;
            }
            let old = bytes[byte_index];
            let new_byte = if nibble == 0 {
                digit * 16 + old % 16
            } else {
                (old / 16) * 16 + digit
            };
            let next_col = if nibble == 0 {
                hex_col(byte_in_line, 1)
            } else if byte_in_line + 1 < BYTES_PER_LINE && byte_index + 1 < hex_len {
                hex_col(byte_in_line + 1, 0)
            } else {
                hex_col(byte_in_line, 1)
            };
            HexEditOutcome::SetByte { byte_index, byte: new_byte, line, col: next_col }
        },
        HexField::Ascii { byte_in_line } => {
            if !(c <= '\u{7f}') {
                return HexEditOutcome::Status(HexEditStatus::ExpectedAscii);
            }
            let byte_index = line * BYTES_PER_LINE + byte_in_line;
            if byte_index >= hex_len {
                return HexEditOutcome::Ignored;
            }
            let next_col = if byte_in_line + 1 < BYTES_PER_LINE && byte_index + 1 < hex_len {
                ASCII_START + byte_in_line + 1
            } else {
                col
            };
            HexEditOutcome::SetByte { byte_index, byte: c as u32 as u8, line, col: next_col }
        },
        _ => HexEditOutcome::Status(HexEditStatus::MoveToHexOrAscii),
    }
}

/// Replace-mode key in the hex view.
pub fn replace_key(is_hex_dump: bool, bytes: &[u8], line: usize, col: usize, ch: char) -> (o:
    HexEditOutcome)
    requires
        spec_edit_index_fits(is_hex_dump, line as int, col as int, ch),
    ensures
        o == spec_apply_hex_char(is_hex_dump, bytes@, line as int, col as int, ch),
{
    apply_hex_char(is_hex_dump, bytes, line, col, ch)
}

/// Insert-mode key in the hex view: bytes are overwritten, never inserted,
/// so it does exactly what `replace_key` does (both ensure
/// `spec_apply_hex_char`).
pub fn insert_char(is_hex_dump: bool, bytes: &[u8], line: usize, col: usize, c: char) -> (o:
    HexEditOutcome)
    requires
        spec_edit_index_fits(is_hex_dump, line as int, col as int, c),
    ensures
        o == spec_apply_hex_char(is_hex_dump, bytes@, line as int, col as int, c),
{
    apply_hex_char(is_hex_dump, bytes, line, col, c)
}

/// Typing two hex digits with the cursor on a byte's high nibble sets the
/// byte to their value: the first digit moves the cursor onto the low
/// nibble of the same byte, the second completes it.
pub proof fn lemma_two_hex_digits_set_byte(bytes: Seq<u8>, byte_index: int, hi: char, lo: char)
    requires
        0 <= byte_index < bytes.len(),
        byte_index + 16 <= usize::MAX,
        spec_hex_digit_value(hi) is Some,
        spec_hex_digit_value(lo) is Some,
    ensures
        ({
            let line = byte_index / 16;
            let col = spec_hex_col(byte_index % 16, 0);
            let first = spec_apply_hex_char(true, bytes, line, col, hi);
            &&& first is SetByte
            &&& first->byte_index == byte_index
            &&& first->line == line
            &&& first->col == spec_hex_col(byte_index % 16, 1)
            &&& ({
                let second = spec_apply_hex_char(
                    true,
                    bytes.update(byte_index, first->byte),
                    line,
                    first->col as int,
                    lo,
                );
                &&& second is SetByte
                &&& second->byte_index == byte_index
                &&& second->byte == spec_hex_digit_value(hi)->0 * 16 + spec_hex_digit_value(lo)->0
            })
        }),
{
    crate::hex_layout::lemma_hex_col_roundtrip(byte_index % 16, 0);
    crate::hex_layout::lemma_hex_col_roundtrip(byte_index % 16, 1);
    let h = spec_hex_digit_value(hi)->0;
    let l = spec_hex_digit_value(lo)->0;
    let old = bytes[byte_index];
    let b1 = spec_set_nibble(old, 0, h);
    assert(b1 / 16 == h && b1 == h * 16 + old % 16);
}

/// Entering or leaving the hex view.
#[derive(Debug, Clone, Copy, PartialEq, Eq, Structural)]
pub enum HexToggle {
    Enter,
    Exit,
}

/// The hex view toggles: a hex dump is left, any other document is shown
/// as a hex dump.
pub fn toggle(is_hex_dump: bool) -> (t: HexToggle)
    ensures
        is_hex_dump ==> t == HexToggle::Exit,
        !is_hex_dump ==> t == HexToggle::Enter,
{
    if is_hex_dump {
        HexToggle::Exit
    } else {
        HexToggle::Enter
    }
}

/// Message when a hex view without a file path cannot be left.
pub fn irregular_file_message() -> (m: &'static str)
    ensures
        m@ == "can't leave hex view without a file path"@,
{
    "can't leave hex view without a file path"
}

/// Why leaving the hex view failed: reading the file back failed (with the
/// I/O error's message), or the document has no regular file to go back to.
pub enum ExitHexError {
    Io(String),
    IrregularFile,
}

/// The error the toggle command reports when leaving the hex view fails.
pub fn exit_error_message(err: ExitHexError) -> (m: String)
    ensures
        match err {
            ExitHexError::Io(msg) => m@ == msg@,
            ExitHexError::IrregularFile => m@ == "can't leave hex view without a file path"@,
        },
{
    match err {
        ExitHexError::Io(msg) => msg,
        ExitHexError::IrregularFile => String::from_str(irregular_file_message()),
    }
}

} // verus!
