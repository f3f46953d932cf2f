use helix_fork::hex_layout::{
    byte_index_to_ascii_cursor, byte_index_to_hex_cursor, char_to_line_col, col_to_hex,
    cursor_after_delete, display_len_chars, field_at_col, hex_col, line_col_to_char, line_count,
    line_to_char, next_ascii_overwrite_cursor, next_hex_overwrite_cursor, raw_byte_index,
    HexField, LINE_WIDTH,
};
use helix_fork::hex_motion::{
    clamp_range, clamp_selection, cursor_screen_pos, move_cursor_lines, move_range, scroll_to_cursor, scroll_view,
    Direction, Movement, Position, Range, ViewPosition, VisualPosition,
};

fn at(anchor: usize, vertical_offset: usize, horizontal_offset: usize) -> ViewPosition {
    ViewPosition { anchor, vertical_offset, horizontal_offset }
}

#[test]
fn dump_geometry() {
    assert_eq!(line_count(0), 1);
    assert_eq!(line_count(16), 1);
    assert_eq!(line_count(17), 2);
    assert_eq!(display_len_chars(0), 76);
    assert_eq!(display_len_chars(17), 153);
    assert_eq!(line_to_char(1, 17), 77);
    assert_eq!(line_to_char(5, 17), 77);
    assert_eq!(line_col_to_char(1, 100, 17), 77 + 75);
    assert_eq!(char_to_line_col(80, 17), (1, 3));
    // A newline position maps to the start of the next line, or stays on
    // the last column of the last line.
    assert_eq!(char_to_line_col(76, 17), (1, 0));
    assert_eq!(char_to_line_col(76, 3), (0, 75));
    assert_eq!(char_to_line_col(10_000, 17), (1, 75));
    assert_eq!(LINE_WIDTH, 76);
}

#[test]
fn columns_and_fields() {
    assert_eq!(hex_col(0, 0), 10);
    assert_eq!(hex_col(7, 1), 32);
    assert_eq!(hex_col(8, 0), 35);
    assert_eq!(hex_col(15, 1), 57);
    assert_eq!(col_to_hex(34), None);
    assert_eq!(col_to_hex(12), None);
    assert_eq!(col_to_hex(9), None);
    assert_eq!(col_to_hex(60), None);
    assert_eq!(field_at_col(3), HexField::Offset);
    assert_eq!(field_at_col(9), HexField::Gap);
    assert_eq!(field_at_col(11), HexField::Hex { byte_in_line: 0, nibble: 1 });
    assert_eq!(field_at_col(58), HexField::Gap);
    assert_eq!(field_at_col(75), HexField::Ascii { byte_in_line: 15 });
    assert_eq!(field_at_col(76), HexField::Gap);
    for byte in 0..16 {
        for nibble in 0..2 {
            let col = hex_col(byte, nibble);
            assert_eq!(col_to_hex(col), Some((byte, nibble as u8)));
            assert_eq!(field_at_col(col), HexField::Hex { byte_in_line: byte, nibble: nibble as u8 });
        }
    }
}

#[test]
fn byte_cursors() {
    assert_eq!(raw_byte_index(2, 5), 37);
    assert_eq!(byte_index_to_hex_cursor(37, 1), (2, hex_col(5, 1)));
    assert_eq!(byte_index_to_ascii_cursor(37), (2, 65));
    assert_eq!(next_hex_overwrite_cursor(3, 0, 10), byte_index_to_hex_cursor(3, 1));
    assert_eq!(next_hex_overwrite_cursor(3, 1, 10), byte_index_to_hex_cursor(4, 0));
    assert_eq!(next_ascii_overwrite_cursor(3, 10), byte_index_to_ascii_cursor(4));
    assert_eq!(cursor_after_delete(5, 0), (0, 10));
    assert_eq!(cursor_after_delete(20, 18), byte_index_to_hex_cursor(17, 0));
    assert_eq!(cursor_after_delete(4, 18), byte_index_to_hex_cursor(4, 0));
    for index in [0usize, 7, 8, 15, 16, 100] {
        let (line, col) = byte_index_to_hex_cursor(index, 0);
        match field_at_col(col) {
            HexField::Hex { byte_in_line, nibble } => {
                assert_eq!(raw_byte_index(line, byte_in_line), index);
                assert_eq!(nibble, 0);
            }
            other => panic!("unexpected field {other:?}"),
        }
        let (line, col) = byte_index_to_ascii_cursor(index);
        assert_eq!(field_at_col(col), HexField::Ascii { byte_in_line: index % 16 });
        assert_eq!(line, index / 16);
    }
}

#[test]
fn line_and_column_round_trip() {
    let len = 40;
    for line in 0..3 {
        for col in [0usize, 1, 40, 75] {
            assert_eq!(char_to_line_col(line_col_to_char(line, col, len), len), (line, col));
        }
    }
}

#[test]
fn clamping_ranges() {
    let r = Range { anchor: 500, head: 3, old_visual_position: Some(VisualPosition { row: 1, col: 2 }) };
    let c = clamp_range(r, 16);
    assert_eq!(c, Range { anchor: 75, head: 3, old_visual_position: r.old_visual_position });
    let all = clamp_selection(&[r, Range::point(200), Range::point(10)], 16);
    assert_eq!(all, vec![c, Range::point(75), Range::point(10)]);
}

#[test]
fn horizontal_moves_wrap_across_lines() {
    let len = 32;
    let r = move_range(Range::point(74), Direction::Forward, 3, Movement::Move, len, false);
    assert_eq!(r, Range::point(78));
    let r = move_range(Range::point(77), Direction::Backward, 2, Movement::Extend, len, false);
    assert_eq!(r, Range { anchor: 77, head: 74, old_visual_position: None });
    // Moves stop at the ends of the dump.
    let r = move_range(Range::point(0), Direction::Backward, 5, Movement::Move, len, false);
    assert_eq!(r, Range::point(0));
    let r = move_range(Range::point(150), Direction::Forward, 5, Movement::Move, len, false);
    assert_eq!(r, Range::point(152));
    let r = move_range(Range::point(80), Direction::Backward, 1, Movement::Move, len, true);
    assert_eq!(r, Range::point(3));
}

#[test]
fn moving_and_scrolling_by_lines() {
    let len = 40;
    let r = move_cursor_lines(Range::point(5), len, 2, false);
    assert_eq!(r, Range::point(2 * 77 + 5));
    let r = move_cursor_lines(Range::point(2 * 77 + 5), len, -7, true);
    assert_eq!(r, Range { anchor: 2 * 77 + 5, head: 5, old_visual_position: None });
    let r = move_cursor_lines(Range::point(5), len, 9, false);
    assert_eq!(r.head, 2 * 77 + 5);
    assert_eq!(scroll_view(at(0, 3, 4), len, 1), at(77, 0, 4));
    assert_eq!(scroll_view(at(77, 0, 0), len, -5), at(0, 0, 0));
    assert_eq!(scroll_view(at(0, 0, 0), len, 10), at(154, 0, 0));
}

#[test]
fn cursor_positions_on_screen() {
    let len = 160;
    assert_eq!(cursor_screen_pos(len, at(77, 0, 0), 77 + 12, 5, 76), Some(Position { row: 0, col: 12 }));
    assert_eq!(cursor_screen_pos(len, at(0, 1, 0), 2 * 77, 5, 76), Some(Position { row: 1, col: 0 }));
    assert_eq!(cursor_screen_pos(len, at(0, 1, 0), 3, 5, 76), None);
    assert_eq!(cursor_screen_pos(len, at(0, 0, 0), 6 * 77, 5, 76), None);
    assert_eq!(cursor_screen_pos(len, at(0, 0, 10), 5, 5, 76), None);
    assert_eq!(cursor_screen_pos(len, at(0, 0, 10), 40, 5, 20), None);
    assert_eq!(cursor_screen_pos(len, at(0, 0, 0), 10 * 77, 5, 76), None);
}

#[test]
fn scrolling_keeps_the_cursor_visible() {
    let len = 160;
    let cursor = 8 * 77 + 10;
    let offset = scroll_to_cursor(len, at(0, 0, 0), 76, 5, cursor, 1, false).unwrap();
    assert_eq!(offset, at(5 * 77, 0, 0));
    assert_eq!(cursor_screen_pos(len, offset, cursor, 5, 76), Some(Position { row: 3, col: 10 }));
    // Already visible: nothing to do.
    assert_eq!(scroll_to_cursor(len, offset, 76, 5, cursor, 1, false), None);
    // Centering always answers.
    let centered = scroll_to_cursor(len, at(0, 0, 0), 76, 5, cursor, 1, true).unwrap();
    assert_eq!(centered, at(6 * 77, 0, 0));
    assert_eq!(cursor_screen_pos(len, centered, cursor, 5, 76), Some(Position { row: 2, col: 10 }));
    // Horizontal scrolling in a narrow viewport.
    let cursor = 50;
    let offset = scroll_to_cursor(len, at(0, 0, 0), 20, 5, cursor, 1, false).unwrap();
    assert_eq!(offset, at(0, 0, 32));
    assert_eq!(cursor_screen_pos(len, offset, cursor, 5, 20), Some(Position { row: 0, col: 18 }));
    // Scrolling back left keeps the margin.
    let offset = scroll_to_cursor(len, at(0, 0, 32), 20, 5, 5, 1, false).unwrap();
    assert_eq!(offset, at(0, 0, 4));
}

#[test]
fn a_cursor_above_the_view_is_brought_back() {
    let len = 160;
    let cursor = 2 * 77 + 3;
    // Above the first shown line: not on screen.
    assert_eq!(cursor_screen_pos(len, at(5 * 77, 0, 0), cursor, 5, 76), None);
    let offset = scroll_to_cursor(len, at(5 * 77, 0, 0), 76, 5, cursor, 0, false).unwrap();
    assert_eq!(offset, at(2 * 77, 0, 0));
    assert_eq!(cursor_screen_pos(len, offset, cursor, 5, 76), Some(Position { row: 0, col: 3 }));
    // Tiny viewport with margins, and centring.
    let offset = scroll_to_cursor(len, at(5 * 77, 0, 0), 76, 2, cursor, 3, false).unwrap();
    assert!(cursor_screen_pos(len, offset, cursor, 2, 76).is_some());
    let offset = scroll_to_cursor(len, at(5 * 77, 0, 0), 76, 1, cursor, 0, true).unwrap();
    assert_eq!(offset, at(2 * 77, 0, 0));
}

#[test]
fn scrolling_back_returns_to_the_start_line() {
    let len = 160;
    let there = scroll_view(at(3 * 77 + 5, 0, 2), len, 4);
    assert_eq!(there, at(7 * 77, 0, 2));
    assert_eq!(scroll_view(there, len, -4), at(3 * 77, 0, 2));
    assert_eq!(char_to_line_col(line_col_to_char(7, 0, len), len), (7, 0));
}

#[test]
fn centring_keeps_a_cursor_already_half_a_view_below_the_anchor() {
    // The cursor line is two lines (half of four) below the anchor line:
    // centring keeps the view as it is, vertical offset included.
    let len = 160;
    let cursor = 2 * 77;
    assert_eq!(scroll_to_cursor(len, at(0, 1, 0), 76, 4, cursor, 0, true), Some(at(0, 1, 0)));
    assert_eq!(scroll_to_cursor(len, at(0, 0, 0), 76, 4, 3 * 77, 0, true), Some(at(77, 0, 0)));
}
