use helix_fork::color::{Color, Style};
use helix_fork::hex_format::{format_line, ByteCategory};
use helix_fork::hex_motion::{Position, ViewPosition};
use helix_fork::hex_render::{
    hex_dump_rows, hex_styles, pick_style, render_hex_dump, render_hex_line, style_for_category, HexRow,
    HexStyleSlot, HexStyles, StyleLookup,
};

fn fg(c: Color) -> Style {
    Style { fg: Some(c), bg: None }
}

fn lookup(env: Option<Style>, theme: Vec<Option<Style>>) -> StyleLookup {
    StyleLookup { env, theme }
}

fn distinct_styles() -> HexStyles {
    HexStyles {
        offset: fg(Color::Gray),
        null: fg(Color::Black),
        ascii_printable: fg(Color::Cyan),
        ascii_whitespace: fg(Color::Green),
        ascii_other: fg(Color::Red),
        nonascii: fg(Color::Yellow),
        gap: Style { fg: None, bg: None },
    }
}

#[test]
fn environment_wins_over_theme_over_default() {
    let default = fg(Color::Gray);
    assert_eq!(pick_style(Some(fg(Color::Red)), &[Some(fg(Color::Blue))], default), fg(Color::Red));
    assert_eq!(pick_style(None, &[None, Some(fg(Color::Blue))], default), fg(Color::Blue));
    assert_eq!(
        pick_style(None, &[Some(fg(Color::Magenta)), Some(fg(Color::Blue))], default),
        fg(Color::Magenta)
    );
    assert_eq!(pick_style(None, &[None, None], default), default);
    assert_eq!(pick_style(None, &[], default), default);
}

#[test]
fn slots_name_their_sources() {
    assert_eq!(HexStyleSlot::Offset.env_name(), "HEXYL_COLOR_OFFSET");
    assert_eq!(HexStyleSlot::NonAscii.env_name(), "HEXYL_COLOR_NONASCII");
    assert_eq!(HexStyleSlot::Offset.theme_keys(), vec!["ui.text.hex.offset", "label"]);
    assert_eq!(HexStyleSlot::Null.theme_keys(), vec!["ui.text.hex.null", "comment"]);
    assert_eq!(
        HexStyleSlot::AsciiPrintable.theme_keys(),
        vec!["ui.text.hex.ascii.printable", "string"]
    );
    assert_eq!(HexStyleSlot::AsciiWhitespace.theme_keys(), vec!["ui.text.hex.ascii.whitespace"]);
    assert_eq!(
        HexStyleSlot::NonAscii.theme_keys(),
        vec!["ui.text.hex.nonascii", "constant.numeric"]
    );
    assert_eq!(HexStyleSlot::Offset.default_style(), fg(Color::Gray));
    assert_eq!(HexStyleSlot::AsciiPrintable.default_style(), fg(Color::Cyan));
    assert_eq!(HexStyleSlot::AsciiOther.default_style(), fg(Color::Green));
    assert_eq!(HexStyleSlot::NonAscii.default_style(), fg(Color::Yellow));
}

#[test]
fn hexyl_defaults_without_environment_or_theme() {
    let none = lookup(None, vec![None, None]);
    let text = fg(Color::White);
    let styles = hex_styles(&none, &none, &none, &none, &none, &none, text);
    assert_eq!(styles.offset, fg(Color::Gray));
    assert_eq!(styles.null, fg(Color::Gray));
    assert_eq!(styles.ascii_printable, fg(Color::Cyan));
    assert_eq!(styles.ascii_whitespace, fg(Color::Green));
    assert_eq!(styles.ascii_other, fg(Color::Green));
    assert_eq!(styles.nonascii, fg(Color::Yellow));
    assert_eq!(styles.gap, text);
    let themed = lookup(None, vec![None, Some(fg(Color::LightBlue))]);
    let env = lookup(Some(fg(Color::Red)), vec![Some(fg(Color::LightBlue))]);
    let styles = hex_styles(&themed, &env, &none, &none, &none, &none, text);
    assert_eq!(styles.offset, fg(Color::LightBlue));
    assert_eq!(styles.null, fg(Color::Red));
}

#[test]
fn categories_pick_their_style() {
    let s = distinct_styles();
    assert_eq!(style_for_category(&s, ByteCategory::Null), s.null);
    assert_eq!(style_for_category(&s, ByteCategory::AsciiPrintable), s.ascii_printable);
    assert_eq!(style_for_category(&s, ByteCategory::AsciiWhitespace), s.ascii_whitespace);
    assert_eq!(style_for_category(&s, ByteCategory::AsciiOther), s.ascii_other);
    assert_eq!(style_for_category(&s, ByteCategory::NonAscii), s.nonascii);
}

#[test]
fn drawn_line_matches_the_dump_text() {
    let s = distinct_styles();
    let chunk = b"Hi\x00\n\x7f\xff";
    let spans = render_hex_line(0x30, chunk, &s);
    assert_eq!(spans.len(), 35);
    let line: Vec<char> = format_line(0x30, chunk).chars().collect();
    for span in &spans {
        assert_eq!(span.text.chars().count(), span.width);
        let shown: String = line[span.col..span.col + span.width].iter().collect();
        assert_eq!(shown, span.text, "column {}", span.col);
    }
    assert_eq!(spans[0].text, "00000030");
    assert_eq!(spans[0].style, s.offset);
    assert_eq!((spans[2].col, spans[2].text.as_str()), (10, "48"));
    assert_eq!(spans[2].style, s.ascii_printable);
    assert_eq!(spans[4].style, s.null);
    assert_eq!(spans[5].style, s.ascii_whitespace);
    assert_eq!(spans[6].style, s.ascii_other);
    assert_eq!(spans[7].style, s.nonascii);
    assert_eq!((spans[8].text.as_str(), spans[8].width), ("   ", 3));
    assert_eq!(spans[8].style, s.gap);
    assert_eq!(spans[10].col, 35);
    assert_eq!((spans[18].col, spans[18].text.as_str()), (59, " "));
    assert_eq!((spans[19].col, spans[19].text.as_str()), (60, "H"));
    assert_eq!(spans[21].text, ".");
    assert_eq!(spans[21].style, s.null);
    assert_eq!((spans[34].col, spans[34].text.as_str()), (75, " "));
    assert_eq!(spans[34].style, s.gap);
}

#[test]
fn offsets_beyond_eight_digits_are_cut_to_the_column() {
    let s = distinct_styles();
    let spans = render_hex_line(0x1_0000_0000, b"", &s);
    assert_eq!(spans[0].text, "100000000");
    assert_eq!(spans[0].width, 8);
}

#[test]
fn rows_fill_the_viewport_from_the_anchor_line() {
    // 40 bytes: three dump lines.
    let rows = hex_dump_rows(40, 77, 10);
    assert_eq!(
        rows,
        vec![
            HexRow { row: 0, line: 1, start: 16, end: 32 },
            HexRow { row: 1, line: 2, start: 32, end: 40 },
        ]
    );
    let rows = hex_dump_rows(40, 0, 2);
    assert_eq!(
        rows,
        vec![
            HexRow { row: 0, line: 0, start: 0, end: 16 },
            HexRow { row: 1, line: 1, start: 16, end: 32 },
        ]
    );
    // An anchor past the end is clamped to the last character.
    let rows = hex_dump_rows(40, 10_000, 5);
    assert_eq!(rows, vec![HexRow { row: 0, line: 2, start: 32, end: 40 }]);
    // An empty buffer still shows its one (empty) line.
    assert_eq!(hex_dump_rows(0, 0, 3), vec![HexRow { row: 0, line: 0, start: 0, end: 0 }]);
    assert!(hex_dump_rows(40, 0, 0).is_empty());
}

#[test]
fn frames_show_rows_and_the_cursor() {
    let offset = ViewPosition { anchor: 77, vertical_offset: 0, horizontal_offset: 0 };
    assert!(render_hex_dump(None, offset, 0, 10, 76).is_none());
    let frame = render_hex_dump(Some(40), offset, 2 * 77 + 5, 10, 76).unwrap();
    assert_eq!(frame.rows.len(), 2);
    assert_eq!(frame.rows[0], HexRow { row: 0, line: 1, start: 16, end: 32 });
    assert_eq!(frame.cursor, Some(Position { row: 1, col: 5 }));
    // The cursor above the first shown line is not on screen.
    let frame = render_hex_dump(Some(40), offset, 3, 10, 76).unwrap();
    assert_eq!(frame.cursor, None);
}
