use helix_fork::hex_format::{
    ascii_char, format_line, format_line_for_bytes, is_binary, parse_hex_pair, rope_to_bytes,
};
use helix_fork::inline_diff::{
    changed_line_pairs, diff_window, highlight_ranges, lines_to_highlight, paired_lines_in_window,
};
use helix_fork::line_map::{Hunk, LineRange};
use helix_fork::text_lines::TextLines;

fn hunk(before: (u32, u32), after: (u32, u32)) -> Hunk {
    Hunk {
        before: LineRange { start: before.0, end: before.1 },
        after: LineRange { start: after.0, end: after.1 },
    }
}

#[test]
fn formatted_lines() {
    assert_eq!(
        format_line(0x10, b"Hello, World!\x00\x01\xff"),
        "00000010  48 65 6c 6c 6f 2c 20 57  6f 72 6c 64 21 00 01 ff  Hello, World!..."
    );
    assert_eq!(
        format_line(0, b"A"),
        "00000000  41                                                A               "
    );
    assert_eq!(format_line(0x1_0000_0000, b"")[..11].to_string(), "100000000  ");
    let bytes: Vec<u8> = (0u8..20).collect();
    assert_eq!(format_line_for_bytes(&bytes, 1), format_line(16, &bytes[16..]));
    assert_eq!(format_line_for_bytes(&bytes, 0), format_line(0, &bytes[..16]));
}

#[test]
fn ascii_column_characters() {
    assert_eq!(ascii_char(b'a'), 'a');
    assert_eq!(ascii_char(b' '), ' ');
    assert_eq!(ascii_char(b'~'), '~');
    assert_eq!(ascii_char(b'\n'), '.');
    assert_eq!(ascii_char(0x7f), '.');
    assert_eq!(ascii_char(0xe9), '.');
}

#[test]
fn hex_pairs_parse_like_from_str_radix() {
    let line = format_line(0, b"\xab\x01");
    assert_eq!(parse_hex_pair(&line, 0), Some(0xab));
    assert_eq!(parse_hex_pair(&line, 1), Some(0x01));
    assert_eq!(parse_hex_pair(&line, 2), None);
    let edited = line.replacen("ab", "AB", 1);
    assert_eq!(parse_hex_pair(&edited, 0), Some(0xab));
    let signed = line.replacen("ab", "+f", 1);
    assert_eq!(parse_hex_pair(&signed, 0), Some(0x0f));
    let bad = line.replacen("ab", "-f", 1);
    assert_eq!(parse_hex_pair(&bad, 0), None);
    assert_eq!(parse_hex_pair("0000", 0), None);
    // Non-ASCII text in a cell holds no byte.
    assert_eq!(parse_hex_pair("00000000  é1", 0), None);
}

#[test]
fn parsing_stops_at_the_first_empty_cell_of_each_line() {
    let lines = vec![format_line(0, b"\x01\x02"), String::from("garbage"), format_line(16, b"\x03")];
    assert_eq!(rope_to_bytes(&lines), vec![1, 2, 3]);
    assert_eq!(rope_to_bytes(&[]), Vec::<u8>::new());
}

#[test]
fn binary_detection() {
    assert!(!is_binary(b"plain text\n"));
    assert!(is_binary(b"text\x00with nul"));
    assert!(is_binary(b"%PDF-1.7"));
    assert!(is_binary(b"\x89PNG\r\n"));
    // Byte order marks mean text, even with NUL bytes.
    assert!(!is_binary(b"\xff\xfeh\x00i\x00"));
    assert!(!is_binary(b"\xef\xbb\xbfhi"));
    assert!(!is_binary(b"\x00\x00\xfe\xff"));
    assert!(!is_binary(b""));
    // Only the first 1024 bytes are scanned for NUL.
    let mut late = vec![b'a'; 1024];
    late.push(0);
    assert!(!is_binary(&late));
    late[1023] = 0;
    assert!(is_binary(&late));
}

#[test]
fn highlight_window_and_pairs() {
    // "a\nb\nc\nd\ne": five lines.
    let text = TextLines { line_starts: vec![0, 2, 4, 6, 8], len_chars: 9 };
    assert_eq!(diff_window(&text, 2, 2), (1, 3));
    assert_eq!(diff_window(&text, 100, 10), (4, 4));
    let hunks = vec![
        hunk((0, 2), (0, 3)),
        hunk((4, 4), (5, 6)),
        hunk((6, 7), (7, 7)),
        hunk((8, 10), (8, 10)),
    ];
    assert_eq!(paired_lines_in_window(&hunks, 0, 100), vec![(0, 0), (1, 1), (8, 8), (9, 9)]);
    assert_eq!(paired_lines_in_window(&hunks, 1, 8), vec![(1, 1), (8, 8)]);
    assert!(paired_lines_in_window(&[], 0, 10).is_empty());
}

fn strings(lines: &[&str]) -> Vec<String> {
    lines.iter().map(|l| l.to_string()).collect()
}

#[test]
fn only_lines_that_differ_are_diffed() {
    let doc = strings(&["same\n", "new words\n", "x\n"]);
    let base = strings(&["same\n", "old words\n"]);
    assert_eq!(changed_line_pairs(&[(0, 0), (1, 1), (2, 5)], &doc, &base), vec![(1, 1)]);
    assert!(changed_line_pairs(&[], &doc, &base).is_empty());
}

#[test]
fn highlight_candidates_of_the_visible_window() {
    // Document "a\nB\nc\n" against base "a\nb\nc\n": line 1 was modified.
    let text = TextLines { line_starts: vec![0, 2, 4, 6], len_chars: 6 };
    let doc = strings(&["a\n", "B\n", "c\n", ""]);
    let base = strings(&["a\n", "b\n", "c\n", ""]);
    let hunks = vec![hunk((1, 2), (1, 2))];
    assert_eq!(lines_to_highlight(&text, &doc, &base, &hunks, true, 0, 10), Some(vec![(1, 1)]));
    assert_eq!(lines_to_highlight(&text, &doc, &base, &hunks, true, 4, 10), Some(vec![]));
    assert_eq!(lines_to_highlight(&text, &doc, &base, &hunks, false, 0, 10), None);
    assert_eq!(lines_to_highlight(&text, &doc, &base, &[], true, 0, 10), None);
}

#[test]
fn word_ranges_become_document_ranges() {
    let text = TextLines { line_starts: vec![0, 2, 4, 6], len_chars: 6 };
    assert_eq!(
        highlight_ranges(&text, &[(1, vec![(0, 1)]), (2, vec![(0, 1), (1, 2)])]),
        Some(vec![(2, 3), (4, 5), (5, 6)])
    );
    assert_eq!(highlight_ranges(&text, &[(1, vec![])]), None);
    assert_eq!(highlight_ranges(&text, &[]), None);
}

#[test]
fn each_formatted_line_is_a_line_of_the_dump() {
    let bytes: Vec<u8> = (0u8..40).collect();
    let dump = helix_fork::hex_format::bytes_to_rope(&bytes);
    for line in 0..dump.len() {
        assert_eq!(format_line_for_bytes(&bytes, line), dump[line]);
    }
}
