use helix_fork::color::{parse_hexyl_color, Color};
use helix_fork::hex_format::{
    byte_category, bytes_to_rope, format_line, rope_to_bytes, ByteCategory,
};
use helix_fork::hex_layout::{
    byte_index_to_hex_cursor, byte_slot, char_to_line_col, cursor_after_append, display_len_chars,
    field_at_col, line_col_to_char, next_ascii_overwrite_cursor, next_hex_overwrite_cursor,
    ByteSlot, HexField, ASCII_START, BYTES_PER_LINE,
};
use helix_fork::hex_motion::{move_range, scroll_view, Direction, Movement, Range, ViewPosition};
use helix_fork::text_lines::TextLines;

/// The dump document's lines joined with newlines, as the editor shows it.
fn joined(lines: &[String]) -> String {
    lines.join("\n")
}

/// Line structure of a text, as the editor's rope would report it.
fn text_lines(text: &str) -> TextLines {
    let mut line_starts = vec![0usize];
    for (i, c) in text.chars().enumerate() {
        if c == '\n' {
            line_starts.push(i + 1);
        }
    }
    TextLines { line_starts, len_chars: text.chars().count() }
}

#[test]
fn byte_categories() {
    assert_eq!(byte_category(0), ByteCategory::Null);
    assert_eq!(byte_category(b'H'), ByteCategory::AsciiPrintable);
    assert_eq!(byte_category(b' '), ByteCategory::AsciiWhitespace);
    assert_eq!(byte_category(b'\n'), ByteCategory::AsciiWhitespace);
    assert_eq!(byte_category(0x7f), ByteCategory::AsciiOther);
    assert_eq!(byte_category(0x80), ByteCategory::NonAscii);
}

#[test]
fn hexyl_colors() {
    assert_eq!(parse_hexyl_color("cyan"), Some(Color::Cyan));
    assert_eq!(parse_hexyl_color("bright blue"), Some(Color::LightBlue));
    assert_eq!(parse_hexyl_color("#ff0077"), Some(Color::Rgb(255, 0, 119)));
}

#[test]
fn bytes_rope_roundtrip() {
    let all: Vec<u8> = (0u8..32).collect();
    let cases: &[&[u8]] = &[b"", b"\x00", b"Hello", b"Hello\nWorld", &all];
    for bytes in cases {
        let rope = bytes_to_rope(bytes);
        assert_eq!(rope_to_bytes(&rope), *bytes);
    }
}

#[test]
fn partial_last_line_roundtrip() {
    let bytes = b"0123456789abcdef0"; // 17 bytes
    let rope = bytes_to_rope(bytes);
    assert_eq!(rope_to_bytes(&rope), bytes);
}

#[test]
fn edit_cursor_appends_at_eof() {
    assert_eq!(byte_slot(16, 17), ByteSlot::Existing(16));
    assert_eq!(byte_slot(17, 17), ByteSlot::Eof);
    assert_eq!(next_hex_overwrite_cursor(16, 1, 17), byte_index_to_hex_cursor(17, 0));
    assert_eq!(next_ascii_overwrite_cursor(16, 17), byte_index_to_hex_cursor(17, 0));
    assert_eq!(cursor_after_append(3), byte_index_to_hex_cursor(3, 0));
}

#[test]
fn vertical_and_scroll_moves_lines() {
    let bytes = b"0123456789abcdef"; // 16 bytes = 1 line
    let second_line = line_col_to_char(1, 0, bytes.len());
    let range = Range::point(0);
    let down = move_range(range, Direction::Forward, 1, Movement::Move, bytes.len(), true);
    assert_eq!(down.head, second_line);

    let offset = scroll_view(
        ViewPosition { anchor: 0, vertical_offset: 0, horizontal_offset: 0 },
        bytes.len(),
        1,
    );
    assert_eq!(offset.anchor, second_line);
}

#[test]
fn virtual_addressing_matches_rope() {
    let bytes = b"Hello\x00World";
    let rope = joined(&bytes_to_rope(bytes));
    let lines = text_lines(&rope);
    let virtual_len = display_len_chars(bytes.len());
    assert_eq!(virtual_len, rope.chars().count());
    for char_idx in 0..virtual_len {
        let (v_line, v_col) = char_to_line_col(char_idx, bytes.len());
        let r_line = lines.char_to_line(char_idx);
        let r_col = char_idx - lines.line_to_char(r_line);
        assert_eq!((v_line, v_col), (r_line, r_col), "char {char_idx}");
    }
}

#[test]
fn ascii_region_padded_to_line_width() {
    let line = format_line(0, b"A");
    assert_eq!(line.len(), ASCII_START + BYTES_PER_LINE);
    assert_eq!(field_at_col(ASCII_START + 1), HexField::Ascii { byte_in_line: 1 });
}
