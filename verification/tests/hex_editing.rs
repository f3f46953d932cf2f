use helix_fork::hex_edit::{
    apply_hex_char, exit_error_message, hex_digit_value, ExitHexError, insert_char, irregular_file_message, replace_key, toggle,
    HexEditOutcome, HexEditStatus, HexToggle,
};
use helix_fork::hex_layout::{hex_col, ASCII_START};

#[test]
fn non_hex_documents_are_left_alone() {
    let outcome = replace_key(false, b"abc", 0, hex_col(0, 0), 'f');
    assert_eq!(outcome, HexEditOutcome::NotHexDump);
    assert!(!outcome.handled());
}

#[test]
fn hex_digit_sets_high_then_low_nibble() {
    let bytes = [0x12u8, 0x34];
    let first = replace_key(true, &bytes, 0, hex_col(0, 0), 'A');
    assert_eq!(
        first,
        HexEditOutcome::SetByte { byte_index: 0, byte: 0xa2, line: 0, col: hex_col(0, 1) }
    );
    assert!(first.handled());
    let second = insert_char(true, &[0xa2, 0x34], 0, hex_col(0, 1), 'b');
    assert_eq!(
        second,
        HexEditOutcome::SetByte { byte_index: 0, byte: 0xab, line: 0, col: hex_col(1, 0) }
    );
}

#[test]
fn low_nibble_of_last_byte_keeps_the_cursor() {
    let outcome = apply_hex_char(true, &[0x00, 0x11], 0, hex_col(1, 1), '7');
    assert_eq!(
        outcome,
        HexEditOutcome::SetByte { byte_index: 1, byte: 0x17, line: 0, col: hex_col(1, 1) }
    );
    // End of a full line: the cursor stays on the low nibble.
    let line: Vec<u8> = vec![0; 32];
    let outcome = apply_hex_char(true, &line, 0, hex_col(15, 1), 'f');
    assert_eq!(
        outcome,
        HexEditOutcome::SetByte { byte_index: 15, byte: 0x0f, line: 0, col: hex_col(15, 1) }
    );
}

#[test]
fn second_line_bytes_are_addressed_by_line() {
    let bytes: Vec<u8> = (0u8..20).collect();
    let outcome = apply_hex_char(true, &bytes, 1, hex_col(2, 0), '9');
    assert_eq!(
        outcome,
        HexEditOutcome::SetByte { byte_index: 18, byte: 0x92, line: 1, col: hex_col(2, 1) }
    );
}

#[test]
fn ascii_column_overwrites_bytes() {
    let outcome = apply_hex_char(true, b"abc", 0, ASCII_START + 1, 'Z');
    assert_eq!(
        outcome,
        HexEditOutcome::SetByte { byte_index: 1, byte: b'Z', line: 0, col: ASCII_START + 2 }
    );
    // On the last byte the cursor stays.
    let outcome = apply_hex_char(true, b"abc", 0, ASCII_START + 2, 'Q');
    assert_eq!(
        outcome,
        HexEditOutcome::SetByte { byte_index: 2, byte: b'Q', line: 0, col: ASCII_START + 2 }
    );
}

#[test]
fn wrong_characters_give_a_status() {
    let outcome = apply_hex_char(true, b"abc", 0, hex_col(0, 0), 'g');
    assert_eq!(outcome, HexEditOutcome::Status(HexEditStatus::ExpectedHexDigit));
    assert_eq!(HexEditStatus::ExpectedHexDigit.message(), "expected hex digit");
    let outcome = apply_hex_char(true, b"abc", 0, ASCII_START, 'é');
    assert_eq!(outcome, HexEditOutcome::Status(HexEditStatus::ExpectedAscii));
    assert_eq!(HexEditStatus::ExpectedAscii.message(), "expected ASCII character");
    let outcome = apply_hex_char(true, b"abc", 0, 3, 'a');
    assert_eq!(outcome, HexEditOutcome::Status(HexEditStatus::MoveToHexOrAscii));
    assert_eq!(
        HexEditStatus::MoveToHexOrAscii.message(),
        "move cursor to hex or ASCII column"
    );
}

#[test]
fn positions_past_the_end_are_ignored() {
    let outcome = apply_hex_char(true, b"abc", 0, hex_col(3, 0), 'a');
    assert_eq!(outcome, HexEditOutcome::Ignored);
    assert!(outcome.handled());
    let outcome = apply_hex_char(true, b"abc", 0, ASCII_START + 5, 'a');
    assert_eq!(outcome, HexEditOutcome::Ignored);
}

#[test]
fn hex_digit_values() {
    assert_eq!(hex_digit_value('0'), Some(0));
    assert_eq!(hex_digit_value('9'), Some(9));
    assert_eq!(hex_digit_value('a'), Some(10));
    assert_eq!(hex_digit_value('F'), Some(15));
    assert_eq!(hex_digit_value('g'), None);
}

#[test]
fn toggling_the_hex_view() {
    assert_eq!(toggle(false), HexToggle::Enter);
    assert_eq!(toggle(true), HexToggle::Exit);
    assert_eq!(irregular_file_message(), "can't leave hex view without a file path");
}

#[test]
fn leaving_the_hex_view_reports_why_it_failed() {
    assert_eq!(
        exit_error_message(ExitHexError::IrregularFile),
        "can't leave hex view without a file path"
    );
    assert_eq!(exit_error_message(ExitHexError::Io("disk full".to_string())), "disk full");
}
