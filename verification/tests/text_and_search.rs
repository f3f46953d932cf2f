use helix_fork::local_search::{
    jump_to_line, line_number_cell, local_search, missing_line_message, search_register,
    LineResult,
};
use helix_fork::text_lines::{char_at_line_col, char_pos, TextLines};

/// Line structure of a text split at `\n` (the last line may be empty).
fn text_lines(text: &str) -> TextLines {
    let mut line_starts = vec![0usize];
    for (i, c) in text.chars().enumerate() {
        if c == '\n' {
            line_starts.push(i + 1);
        }
    }
    TextLines { line_starts, len_chars: text.chars().count() }
}

/// Lines of a text, each with its line break.
fn lines(text: &str) -> Vec<String> {
    let mut out: Vec<String> = text.split_inclusive('\n').map(|l| l.to_string()).collect();
    if text.is_empty() || text.ends_with('\n') {
        out.push(String::new());
    }
    out
}

fn found(results: &[LineResult]) -> Vec<(usize, String)> {
    results.iter().map(|r| (r.line_num, r.content.clone())).collect()
}

#[test]
fn local_search_works_on_scratch_buffer() {
    let search = local_search(&lines("fn outer() {\n    fn inner() {}\n}\n"), None);
    assert_eq!(search.search_register, '/');
    assert_eq!(
        found(&search.results),
        vec![
            (0, "fn outer() {\n".to_string()),
            (1, "    fn inner() {}\n".to_string()),
            (2, "}\n".to_string()),
        ]
    );
}

#[test]
fn blank_lines_are_not_offered() {
    let search = local_search(&lines("a\n\n  \t\nb\u{3000}\n\u{a0}\n"), Some('s'));
    assert_eq!(search.search_register, 's');
    assert_eq!(
        found(&search.results),
        vec![(0, "a\n".to_string()), (3, "b\u{3000}\n".to_string())]
    );
    assert!(local_search(&lines(""), None).results.is_empty());
    assert_eq!(search_register(Some('a')), 'a');
    assert_eq!(search_register(None), '/');
}

#[test]
fn line_numbers_are_one_based_and_padded() {
    let (label, padding) = line_number_cell(0);
    assert_eq!(label, "1");
    assert_eq!(padding, "       ");
    let (label, padding) = line_number_cell(41);
    assert_eq!(label, "42");
    assert_eq!(padding.len(), 6);
    let (label, padding) = line_number_cell(123_456_788);
    assert_eq!(label, "123456789");
    assert_eq!(padding, "");
}

#[test]
fn jumping_selects_the_whole_line() {
    let text = text_lines("ab\ncde\nf");
    assert_eq!(jump_to_line(&text, 0), Some((0, 3)));
    assert_eq!(jump_to_line(&text, 1), Some((3, 7)));
    assert_eq!(jump_to_line(&text, 2), Some((7, 8)));
    assert_eq!(jump_to_line(&text, 3), None);
    assert_eq!(
        missing_line_message(),
        "The line you jumped to does not exist anymore because the file has changed."
    );
}

#[test]
fn lines_and_columns() {
    let text = text_lines("ab\ncde\nf");
    assert_eq!(text.len_lines(), 3);
    assert_eq!(text.line_to_char(1), 3);
    assert_eq!(text.line_to_char(3), 8);
    assert_eq!(text.char_to_line(0), 0);
    assert_eq!(text.char_to_line(2), 0);
    assert_eq!(text.char_to_line(3), 1);
    assert_eq!(text.char_to_line(8), 2);
    assert_eq!(char_pos(&text, 5), (1, 2));
    assert_eq!(char_pos(&text, 7), (2, 0));
}

#[test]
fn positions_are_clamped_to_the_text() {
    let text = text_lines("ab\ncde\nf");
    assert_eq!(char_at_line_col(&text, 1, 1), 4);
    // The column stops at the line break.
    assert_eq!(char_at_line_col(&text, 1, 10), 6);
    // The line stops at the last one.
    assert_eq!(char_at_line_col(&text, 9, 0), 7);
    assert_eq!(char_at_line_col(&text, 9, 5), 7);
    let empty = text_lines("");
    assert_eq!(char_at_line_col(&empty, 0, 3), 0);
}
