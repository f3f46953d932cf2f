//! Styling of the hex dump view: which style each part of a dump line gets,
//! the spans a line is drawn as, and which lines fill a viewport.

use vstd::prelude::*;

use crate::color::{Color, Style};
use crate::hex_format::{
    ascii_char, byte_category, lemma_ascii_area_ascii, lemma_hex_area_index, lemma_hex_area_len,
    lemma_hex_padded_8, push_hex_padded, spec_ascii_area, spec_ascii_char, spec_byte_category,
    spec_byte_hex, spec_format_line, spec_hex_area, spec_hex_area_pos, spec_hex_padded, ByteCategory,
};
use crate::hex_layout::{
    char_to_line_col, hex_col, len_fits, line_count, min_int, min_usize, spec_char_to_line_col,
    spec_hex_col, spec_line_count, ASCII_START, BYTES_PER_LINE,
};
use crate::hex_motion::{cursor_screen_pos, spec_cursor_screen_pos, Position, ViewPosition};
use crate::text::hex_digit;

verus! {

/// Styles of the parts of a dump line.
#[derive(Debug, Clone, Copy, PartialEq, Eq, Structural)]
pub struct HexStyles {
    pub offset: Style,
    pub null: Style,
    pub ascii_printable: Style,
    pub ascii_whitespace: Style,
    pub ascii_other: Style,
    pub nonascii: Style,
    /// Separators and the padding past the end of a short line.
    pub gap: Style,
}

/// The styled parts of a dump line other than the separators.
#[derive(Debug, Clone, Copy, PartialEq, Eq, Structural)]
pub enum HexStyleSlot {
    Offset,
    Null,
    AsciiPrintable,
    AsciiWhitespace,
    AsciiOther,
    NonAscii,
}

/// Where a slot's style can come from, as found by the caller: the hexyl
/// environment variable of the slot parsed as a style (`None` when unset or
/// not understood), and for each theme key of the slot, in order, the
/// theme's style when the theme defines that exact key.
pub struct StyleLookup {
    pub env: Option<Style>,
    pub theme: Vec<Option<Style>>,
}

pub open spec fn spec_env_name(slot: HexStyleSlot) -> Seq<char> {
    match slot {
        HexStyleSlot::Offset => "HEXYL_COLOR_OFFSET"@,
        HexStyleSlot::Null => "HEXYL_COLOR_NULL"@,
        HexStyleSlot::AsciiPrintable => "HEXYL_COLOR_ASCII_PRINTABLE"@,
        HexStyleSlot::AsciiWhitespace => "HEXYL_COLOR_ASCII_WHITESPACE"@,
        HexStyleSlot::AsciiOther => "HEXYL_COLOR_ASCII_OTHER"@,
        HexStyleSlot::NonAscii => "HEXYL_COLOR_NONASCII"@,
    }
}

pub open spec fn spec_theme_keys(slot: HexStyleSlot) -> Seq<Seq<char>> {
    match slot {
        HexStyleSlot::Offset => seq!["ui.text.hex.offset"@, "label"@],
        HexStyleSlot::Null => seq!["ui.text.hex.null"@, "comment"@],
        HexStyleSlot::AsciiPrintable => seq!["ui.text.hex.ascii.printable"@, "string"@],
        HexStyleSlot::AsciiWhitespace => seq!["ui.text.hex.ascii.whitespace"@],
        HexStyleSlot::AsciiOther => seq!["ui.text.hex.ascii.other"@],
        HexStyleSlot::NonAscii => seq!["ui.text.hex.nonascii"@, "constant.numeric"@],
    }
}

/// The style used when neither the environment nor the theme gives one.
pub open spec fn spec_slot_default(slot: HexStyleSlot) -> Style {
    Style {
        fg: Some(
            match slot {
                HexStyleSlot::Offset => Color::Gray,
                HexStyleSlot::Null => Color::Gray,
                HexStyleSlot::AsciiPrintable => Color::Cyan,
                HexStyleSlot::AsciiWhitespace => Color::Green,
                HexStyleSlot::AsciiOther => Color::Green,
                HexStyleSlot::NonAscii => Color::Yellow,
            },
        ),
        bg: None,
    }
}

impl HexStyleSlot {
    /// The hexyl environment variable that overrides this slot.
    pub fn env_name(&self) -> (name: &'static str)
        ensures
            name@ == spec_env_name(*self),
    {
        match self {
            HexStyleSlot::Offset => "HEXYL_COLOR_OFFSET",
            HexStyleSlot::Null => "HEXYL_COLOR_NULL",
            HexStyleSlot::AsciiPrintable => "HEXYL_COLOR_ASCII_PRINTABLE",
            HexStyleSlot::AsciiWhitespace => "HEXYL_COLOR_ASCII_WHITESPACE",
            HexStyleSlot::AsciiOther => "HEXYL_COLOR_ASCII_OTHER",
            HexStyleSlot::NonAscii => "HEXYL_COLOR_NONASCII",
        }
    }

    /// The theme keys consulted for this slot, most specific first.
    pub fn theme_keys(&self) -> (keys: Vec<&'static str>)
        ensures
            keys@.len() == spec_theme_keys(*self).len(),
            forall|i: int| 0 <= i < keys@.len() ==> #[trigger] keys@[i]@ == spec_theme_keys(*self)[i],
    {
        match self {
            HexStyleSlot::Offset => vec!["ui.text.hex.offset", "label"],
            HexStyleSlot::Null => vec!["ui.text.hex.null", "comment"],
            HexStyleSlot::AsciiPrintable => vec!["ui.text.hex.ascii.printable", "string"],
            HexStyleSlot::AsciiWhitespace => vec!["ui.text.hex.ascii.whitespace"],
            HexStyleSlot::AsciiOther => vec!["ui.text.hex.ascii.other"],
            HexStyleSlot::NonAscii => vec!["ui.text.hex.nonascii", "constant.numeric"],
        }
    }

    /// The fallback style of this slot.
    pub fn default_style(&self) -> (s: Style)
        ensures
            s == spec_slot_default(*self),
    {
        let color = match self {
            HexStyleSlot::Offset => Color::Gray,
            HexStyleSlot::Null => Color::Gray,
            HexStyleSlot::AsciiPrintable => Color::Cyan,
            HexStyleSlot::AsciiWhitespace => Color::Green,
            HexStyleSlot::AsciiOther => Color::Green,
            HexStyleSlot::NonAscii => Color::Yellow,
        };
        Style::default_style().fg(color)
    }
}

/// The first style the theme defines among the keys, else `default`.
pub open spec fn spec_first_theme_style(theme: Seq<Option<Style>>, default: Style) -> Style
    decreases theme.len(),
{
    if theme.len() == 0 {
        default
    } else {
        match theme[0] {
            Some(s) => s,
            None => spec_first_theme_style(theme.drop_first(), default),
        }
    }
}

/// The environment wins over the theme, and the theme over the default.
pub open spec fn spec_pick_style(env: Option<Style>, theme: Seq<Option<Style>>, default: Style) -> Style {
    match env {
        Some(s) => s,
        None => spec_first_theme_style(theme, default),
    }
}

pub fn pick_style(env: Option<Style>, theme: &[Option<Style>], default: Style) -> (s: Style)
    ensures
        s == spec_pick_style(env, theme@, default),
{
    if let Some(style) = env {
        return style;
    }
    let mut i: usize = 0;
    assert(theme@.subrange(0, theme@.len() as int) =~= theme@);
    while i < theme.len()
        invariant
            env is None,
            i <= theme@.len(),
            spec_first_theme_style(theme@.subrange(i as int, theme@.len() as int), default)
                == spec_first_theme_style(theme@, default),
        decreases theme.len() - i,
    {
        assert(theme@.subrange(i as int, theme@.len() as int).drop_first() =~= theme@.subrange(
            i + 1,
            theme@.len() as int,
        ));
        assert(theme@.subrange(i as int, theme@.len() as int)[0] == theme@[i as int]);
        if let Some(style) = theme[i] {
            return style;
        }
        i += 1;
    }
    assert(theme@.subrange(i as int, theme@.len() as int).len() == 0);
    default
}

/// Resolves the style of every part of a dump line; separators take the
/// theme's plain text style.
pub fn hex_styles(
    offset: &StyleLookup,
    null: &StyleLookup,
    ascii_printable: &StyleLookup,
    ascii_whitespace: &StyleLookup,
    ascii_other: &StyleLookup,
    nonascii: &StyleLookup,
    text: Style,
) -> (s: HexStyles)
    ensures
        s.offset == spec_pick_style(offset.env, offset.theme@, spec_slot_default(HexStyleSlot::Offset)),
        s.null == spec_pick_style(null.env, null.theme@, spec_slot_default(HexStyleSlot::Null)),
        s.ascii_printable == spec_pick_style(
            ascii_printable.env,
            ascii_printable.theme@,
            spec_slot_default(HexStyleSlot::AsciiPrintable),
        ),
        s.ascii_whitespace == spec_pick_style(
            ascii_whitespace.env,
            ascii_whitespace.theme@,
            spec_slot_default(HexStyleSlot::AsciiWhitespace),
        ),
        s.ascii_other == spec_pick_style(
            ascii_other.env,
            ascii_other.theme@,
            spec_slot_default(HexStyleSlot::AsciiOther),
        ),
        s.nonascii == spec_pick_style(
            nonascii.env,
            nonascii.theme@,
            spec_slot_default(HexStyleSlot::NonAscii),
        ),
        s.gap == text,
{
    HexStyles {
        offset: pick_style(offset.env, offset.theme.as_slice(), HexStyleSlot::Offset.default_style()),
        null: pick_style(null.env, null.theme.as_slice(), HexStyleSlot::Null.default_style()),
        ascii_printable: pick_style(
            ascii_printable.env,
            ascii_printable.theme.as_slice(),
            HexStyleSlot::AsciiPrintable.default_style(),
        ),
        ascii_whitespace: pick_style(
            ascii_whitespace.env,
            ascii_whitespace.theme.as_slice(),
            HexStyleSlot::AsciiWhitespace.default_style(),
        ),
        ascii_other: pick_style(
            ascii_other.env,
            ascii_other.theme.as_slice(),
            HexStyleSlot::AsciiOther.default_style(),
        ),
        nonascii: pick_style(
            nonascii.env,
            nonascii.theme.as_slice(),
            HexStyleSlot::NonAscii.default_style(),
        ),
        gap: text,
    }
}

pub open spec fn spec_style_for_category(styles: HexStyles, category: ByteCategory) -> Style {
    match category {
        ByteCategory::Null => styles.null,
        ByteCategory::AsciiPrintable => styles.ascii_printable,
        ByteCategory::AsciiWhitespace => styles.ascii_whitespace,
        ByteCategory::AsciiOther => styles.ascii_other,
        ByteCategory::NonAscii => styles.nonascii,
    }
}

pub fn style_for_category(styles: &HexStyles, category: ByteCategory) -> (s: Style)
    ensures
        s == spec_style_for_category(*styles, category),
{
    match category {
        ByteCategory::Null => styles.null,
        ByteCategory::AsciiPrintable => styles.ascii_printable,
        ByteCategory::AsciiWhitespace => styles.ascii_whitespace,
        ByteCategory::AsciiOther => styles.ascii_other,
        ByteCategory::NonAscii => styles.nonascii,
    }
}

/// A piece of a dump line: `text` drawn from column `col` (relative to the
/// viewport's left edge), at most `width` cells wide, in `style`.
pub struct HexSpan {
    pub col: usize,
    pub text: String,
    pub width: usize,
    pub style: Style,
}

/// Spans of one line, in drawing order: the offset, its separator, the 16
/// hex cells, the separator before the ASCII column and the 16 ASCII cells.
pub open spec fn spec_line_span(byte_offset: nat, chunk: Seq<u8>, styles: HexStyles, k: int) -> (
    int,
    Seq<char>,
    int,
    Style,
) {
    if k == 0 {
        (0, spec_hex_padded(byte_offset, 8), 8, styles.offset)
    } else if k == 1 {
        (8, seq![' ', ' '], 2, styles.gap)
    } else if k < 18 {
        let i = k - 2;
        if i < chunk.len() {
            (
                spec_hex_col(i, 0),
                spec_byte_hex(chunk[i]),
                2,
                spec_style_for_category(styles, spec_byte_category(chunk[i])),
            )
        } else {
            (spec_hex_col(i, 0), seq![' ', ' ', ' '], 3, styles.gap)
        }
    } else if k == 18 {
        (59, seq![' '], 1, styles.gap)
    } else {
        let i = k - 19;
        if i < chunk.len() {
            (
                60 + i,
                seq![spec_ascii_char(chunk[i])],
                1,
                spec_style_for_category(styles, spec_byte_category(chunk[i])),
            )
        } else {
            (60 + i, seq![' '], 1, styles.gap)
        }
    }
}

pub open spec fn span_is(s: HexSpan, expected: (int, Seq<char>, int, Style)) -> bool {
    &&& s.col == expected.0
    &&& s.text@ == expected.1
    &&& s.width == expected.2
    &&& s.style == expected.3
}

/// The spans that draw the dump line of `chunk`, which starts at byte
/// `byte_offset` of the buffer.
pub fn render_hex_line(byte_offset: usize, chunk: &[u8], styles: &HexStyles) -> (spans: Vec<HexSpan>)
    ensures
        spans@.len() == 35,
        forall|k: int|
            0 <= k < 35 ==> #[trigger] span_is(
                spans@[k],
                spec_line_span(byte_offset as nat, chunk@, *styles, k),
            ),
{
    let mut spans: Vec<HexSpan> = Vec::new();
    let mut offset = String::new();
    push_hex_padded(&mut offset, byte_offset, 8);
    assert(offset@ =~= spec_hex_padded(byte_offset as nat, 8));
    spans.push(HexSpan { col: 0, text: offset, width: 8, style: styles.offset });
    let mut sep = String::new();
    sep.push(' ');
    sep.push(' ');
    assert(sep@ =~= seq![' ', ' ']);
    spans.push(HexSpan { col: 8, text: sep, width: 2, style: styles.gap });
    let mut i: usize = 0;
    while i < BYTES_PER_LINE
        invariant
            i <= 16,
            spans@.len() == 2 + i,
            forall|k: int|
                0 <= k < 2 + i ==> #[trigger] span_is(
                    spans@[k],
                    spec_line_span(byte_offset as nat, chunk@, *styles, k),
                ),
        decreases 16 - i,
    {
        let col = hex_col(i, 0);
        let mut text = String::new();
        if i < chunk.len() {
            let byte = chunk[i];
            text.push(hex_digit(byte / 16));
            text.push(hex_digit(byte % 16));
            assert(text@ =~= spec_byte_hex(byte));
            spans.push(
                HexSpan {
                    col,
                    text,
                    width: 2,
                    style: style_for_category(styles, byte_category(byte)),
                },
            );
        } else {
            text.push(' ');
            text.push(' ');
            text.push(' ');
            assert(text@ =~= seq![' ', ' ', ' ']);
            spans.push(HexSpan { col, text, width: 3, style: styles.gap });
        }
        i += 1;
    }
    let mut sep = String::new();
    sep.push(' ');
    assert(sep@ =~= seq![' ']);
    spans.push(HexSpan { col: ASCII_START - 1, text: sep, width: 1, style: styles.gap });
    let mut i: usize = 0;
    while i < BYTES_PER_LINE
        invariant
            i <= 16,
            spans@.len() == 19 + i,
            forall|k: int|
                0 <= k < 19 + i ==> #[trigger] span_is(
                    spans@[k],
                    spec_line_span(byte_offset as nat, chunk@, *styles, k),
                ),
        decreases 16 - i,
    {
        let mut text = String::new();
        if i < chunk.len() {
            let byte = chunk[i];
            text.push(ascii_char(byte));
            assert(text@ =~= seq![spec_ascii_char(byte)]);
            spans.push(
                HexSpan {
                    col: ASCII_START + i,
                    text,
                    width: 1,
                    style: style_for_category(styles, byte_category(byte)),
                },
            );
        } else {
            text.push(' ');
            assert(text@ =~= seq![' ']);
            spans.push(HexSpan { col: ASCII_START + i, text, width: 1, style: styles.gap });
        }
        i += 1;
    }
    spans
}

/// What is drawn is the dump text: for a line starting below 4 GiB, every
/// span of `render_hex_line` is exactly as wide as its text and shows the
/// characters of the formatted line (`format_line`) at the columns it
/// covers, so the cursor's virtual columns and the drawn cells agree.
pub proof fn lemma_rendered_line_matches_text(byte_offset: nat, chunk: Seq<u8>, styles: HexStyles)
    requires
        byte_offset < 0x1_0000_0000,
    ensures
        forall|k: int|
            0 <= k < 35 ==> {
                let span = #[trigger] spec_line_span(byte_offset, chunk, styles, k);
                &&& span.1.len() == span.2
                &&& spec_format_line(byte_offset, chunk).subrange(span.0, span.0 + span.2) == span.1
            },
{
    let p = spec_hex_padded(byte_offset, 8);
    let h = spec_hex_area(chunk, 16);
    let a = spec_ascii_area(chunk, 16);
    let line = spec_format_line(byte_offset, chunk);
    lemma_hex_padded_8(byte_offset);
    lemma_hex_area_len(chunk, 16);
    lemma_ascii_area_ascii(chunk, 16);
    assert(line == p + seq![' ', ' '] + h + seq![' '] + a);
    assert forall|k: int| 0 <= k < 35 implies {
        let span = #[trigger] spec_line_span(byte_offset, chunk, styles, k);
        &&& span.1.len() == span.2
        &&& line.subrange(span.0, span.0 + span.2) == span.1
    } by {
        let span = spec_line_span(byte_offset, chunk, styles, k);
        if k == 0 {
            assert(line.subrange(0, 8) =~= p);
        } else if k == 1 {
            assert(line.subrange(8, 10) =~= seq![' ', ' ']);
        } else if k < 18 {
            let i = k - 2;
            lemma_hex_area_index(chunk, 16, i);
            let q = spec_hex_area_pos(i);
            assert(spec_hex_col(i, 0) == 10 + q);
            assert(line[10 + q] == h[q]);
            assert(line[10 + q + 1] == h[q + 1]);
            assert(line[10 + q + 2] == h[q + 2]);
            assert(line.subrange(span.0, span.0 + span.2) =~= span.1);
        } else if k == 18 {
            assert(line.subrange(59, 60) =~= seq![' ']);
        } else {
            let i = k - 19;
            assert(line[60 + i] == a[i]);
            assert(line.subrange(span.0, span.0 + span.2) =~= span.1);
        }
    }
}

/// One row of the dump view: screen row, dump line, and the byte range
/// `start..end` of the buffer shown on it.
#[derive(Debug, Clone, Copy, PartialEq, Eq, Structural)]
pub struct HexRow {
    pub row: usize,
    pub line: usize,
    pub start: usize,
    pub end: usize,
}

/// First dump line shown when the view is anchored at character `anchor`.
pub open spec fn spec_first_row_line(byte_len: int, anchor: int) -> int {
    spec_char_to_line_col(anchor, byte_len).0
}

/// Number of rows drawn: the viewport's height, or fewer at the end of the dump.
pub open spec fn spec_row_count(byte_len: int, anchor: int, height: int) -> int {
    min_int(height, spec_line_count(byte_len) - spec_first_row_line(byte_len, anchor))
}

pub open spec fn spec_row(byte_len: int, anchor: int, r: int) -> HexRow {
    let line = spec_first_row_line(byte_len, anchor) + r;
    HexRow {
        row: r as usize,
        line: line as usize,
        start: (line * 16) as usize,
        end: min_int(line * 16 + 16, byte_len) as usize,
    }
}

/// The rows that fill a viewport of `height` rows over a buffer of
/// `byte_len` bytes, the view being anchored at character `anchor` of the
/// virtual dump document.
pub fn hex_dump_rows(byte_len: usize, anchor: usize, height: usize) -> (rows: Vec<HexRow>)
    requires
        len_fits(byte_len as int),
    ensures
        rows@.len() == spec_row_count(byte_len as int, anchor as int, height as int),
        forall|r: int|
            0 <= r < rows@.len() ==> #[trigger] rows@[r] == spec_row(
                byte_len as int,
                anchor as int,
                r,
            ),
        forall|r: int| 0 <= r < rows@.len() ==> #[trigger] rows@[r].start <= rows@[r].end <= byte_len,
{
    let (first_line, _) = char_to_line_col(anchor, byte_len);
    let total_lines = line_count(byte_len);
    let mut rows: Vec<HexRow> = Vec::new();
    let mut row: usize = 0;
    while row < height && first_line + row < total_lines
        invariant
            len_fits(byte_len as int),
            first_line == spec_first_row_line(byte_len as int, anchor as int),
            first_line < total_lines,
            total_lines == spec_line_count(byte_len as int),
            row <= height,
            row <= total_lines - first_line,
            rows@.len() == row,
            forall|r: int|
                0 <= r < rows@.len() ==> #[trigger] rows@[r] == spec_row(
                    byte_len as int,
                    anchor as int,
                    r,
                ),
            forall|r: int|
                0 <= r < rows@.len() ==> #[trigger] rows@[r].start <= rows@[r].end <= byte_len,
        decreases height - row,
    {
        let line = first_line + row;
        assert(line * 16 < byte_len + 16) by (nonlinear_arith)
            requires
                line < total_lines,
                total_lines == spec_line_count(byte_len as int),
        ;
        let start = line * BYTES_PER_LINE;
        let end = min_usize(start + BYTES_PER_LINE, byte_len);
        rows.push(HexRow { row, line, start, end });
        row += 1;
    }
    rows
}

/// What one frame of a hex dump view shows: the rows drawn, and where the
/// primary cursor is on screen (`None` when it is not visible).
pub struct HexDumpFrame {
    pub rows: Vec<HexRow>,
    pub cursor: Option<Position>,
}

/// A frame of the hex dump view of a document whose bytes are `byte_len`
/// long (`None`: the document is not a hex dump, and nothing is drawn or
/// remembered), scrolled to `offset`, with the primary cursor at character
/// `cursor`, in a viewport of `height` rows and `width` columns.
pub fn render_hex_dump(
    byte_len: Option<usize>,
    offset: ViewPosition,
    cursor: usize,
    height: usize,
    width: usize,
) -> (frame: Option<HexDumpFrame>)
    requires
        byte_len matches Some(n) ==> len_fits(n as int),
    ensures
        byte_len is None ==> frame is None,
        byte_len matches Some(n) ==> (frame matches Some(f) && {
            &&& f.rows@.len() == spec_row_count(n as int, offset.anchor as int, height as int)
            &&& forall|r: int|
                0 <= r < f.rows@.len() ==> #[trigger] f.rows@[r] == spec_row(
                    n as int,
                    offset.anchor as int,
                    r,
                )
            &&& f.cursor == spec_cursor_screen_pos(
                n as int,
                offset,
                cursor as int,
                height as int,
                width as int,
            )
        }),
{
    match byte_len {
        None => None,
        Some(n) => {
            let rows = hex_dump_rows(n, offset.anchor, height);
            let pos = cursor_screen_pos(n, offset, cursor, height, width);
            Some(HexDumpFrame { rows, cursor: pos })
        },
    }
}

} // verus!
