//! Terminal colors and styles, and hexyl-style color names
//! (`blue`, `bright green`, `#abcdef`).

use vstd::prelude::*;
use vstd::string::StrSliceExecFns;

use crate::hex_format::{parse_u8_hex2, spec_parse_u8_hex2};

verus! {

#[derive(Debug, Clone, Copy, PartialEq, Eq, Structural)]
pub enum Color {
    Reset,
    Black,
    Red,
    Green,
    Yellow,
    Blue,
    Magenta,
    Cyan,
    Gray,
    LightRed,
    LightGreen,
    LightYellow,
    LightBlue,
    LightMagenta,
    LightCyan,
    LightGray,
    White,
    Rgb(u8, u8, u8),
    Indexed(u8),
}

/// Foreground and background of a text style (`None` leaves the color of
/// whatever is underneath).
#[derive(Debug, Clone, Copy, PartialEq, Eq, Structural)]
pub struct Style {
    pub fg: Option<Color>,
    pub bg: Option<Color>,
}

impl Style {
    pub fn default_style() -> (s: Style)
        ensures
            s == (Style { fg: None, bg: None }),
    {
        Style { fg: None, bg: None }
    }

    /// The same style with the given foreground.
    pub fn fg(self, color: Color) -> (s: Style)
        ensures
            s == (Style { fg: Some(color), bg: self.bg }),
    {
        Style { fg: Some(color), bg: self.bg }
    }
}

/// Unicode `White_Space` characters, as `char::is_whitespace` and
/// `str::trim` use them.
pub open spec fn spec_is_whitespace(c: char) -> bool {
    ('\u{9}' <= c <= '\u{d}') || c == ' ' || c == '\u{85}' || c == '\u{a0}' || c == '\u{1680}' || (
    '\u{2000}' <= c <= '\u{200a}') || c == '\u{2028}' || c == '\u{2029}' || c == '\u{202f}' || c
        == '\u{205f}' || c == '\u{3000}'
}

pub fn is_whitespace(c: char) -> (b: bool)
    ensures
        b == spec_is_whitespace(c),
{
    ('\u{9}' <= c && c <= '\u{d}') || c == ' ' || c == '\u{85}' || c == '\u{a0}' || c
        == '\u{1680}' || ('\u{2000}' <= c && c <= '\u{200a}') || c == '\u{2028}' || c == '\u{2029}'
        || c == '\u{202f}' || c == '\u{205f}' || c == '\u{3000}'
}

/// Text with leading and trailing whitespace removed (`str::trim`).
pub open spec fn spec_trim_start(s: Seq<char>) -> Seq<char>
    decreases s.len(),
{
    if s.len() > 0 && spec_is_whitespace(s[0]) {
        spec_trim_start(s.drop_first())
    } else {
        s
    }
}

pub open spec fn spec_trim_end(s: Seq<char>) -> Seq<char>
    decreases s.len(),
{
    if s.len() > 0 && spec_is_whitespace(s.last()) {
        spec_trim_end(s.drop_last())
    } else {
        s
    }
}

pub open spec fn spec_trim(s: Seq<char>) -> Seq<char> {
    spec_trim_end(spec_trim_start(s))
}

/// ASCII lowercase of one character (`char::to_ascii_lowercase`).
pub open spec fn spec_ascii_lower(c: char) -> char {
    if 'A' <= c <= 'Z' {
        ((c as int) + 32) as char
    } else {
        c
    }
}

pub open spec fn spec_to_ascii_lowercase(s: Seq<char>) -> Seq<char> {
    s.map_values(|c: char| spec_ascii_lower(c))
}

/// The characters of a string slice.
pub fn str_chars(s: &str) -> (v: Vec<char>)
    ensures
        v@ == s@,
{
    let n = s.unicode_len();
    let mut v: Vec<char> = Vec::new();
    let mut i: usize = 0;
    while i < n
        invariant
            n == s@.len(),
            i <= n,
            v@ == s@.subrange(0, i as int),
        decreases n - i,
    {
        v.push(s.get_char(i));
        i += 1;
        assert(v@ =~= s@.subrange(0, i as int));
    }
    assert(s@.subrange(0, n as int) =~= s@);
    v
}

proof fn lemma_trim_start_suffix(s: Seq<char>, i: int)
    requires
        0 <= i <= s.len(),
        forall|j: int| 0 <= j < i ==> spec_is_whitespace(#[trigger] s[j]),
    ensures
        spec_trim_start(s) == spec_trim_start(s.subrange(i, s.len() as int)),
    decreases i,
{
    if i > 0 {
        let t = s.drop_first();
        assert forall|j: int| 0 <= j < i - 1 implies spec_is_whitespace(#[trigger] t[j]) by {
            assert(t[j] == s[j + 1]);
        }
        lemma_trim_start_suffix(t, i - 1);
        assert(t.subrange(i - 1, t.len() as int) =~= s.subrange(i, s.len() as int));
    } else {
        assert(s.subrange(0, s.len() as int) =~= s);
    }
}

proof fn lemma_trim_end_prefix(s: Seq<char>, k: int)
    requires
        0 <= k <= s.len(),
        forall|j: int| k <= j < s.len() ==> spec_is_whitespace(#[trigger] s[j]),
    ensures
        spec_trim_end(s) == spec_trim_end(s.subrange(0, k)),
    decreases s.len() - k,
{
    if k < s.len() {
        let t = s.drop_last();
        assert forall|j: int| k <= j < t.len() implies spec_is_whitespace(#[trigger] t[j]) by {
            assert(t[j] == s[j]);
        }
        lemma_trim_end_prefix(t, k);
        assert(t.subrange(0, k) =~= s.subrange(0, k));
    } else {
        assert(s.subrange(0, k) =~= s);
    }
}

/// Removes leading and trailing whitespace.
pub fn trim_chars(s: &Vec<char>) -> (t: Vec<char>)
    ensures
        t@ == spec_trim(s@),
{
    let n = s.len();
    let mut start: usize = 0;
    while start < n && is_whitespace(s[start])
        invariant
            n == s@.len(),
            start <= n,
            forall|j: int| 0 <= j < start ==> spec_is_whitespace(#[trigger] s@[j]),
        decreases n - start,
    {
        start += 1;
    }
    proof {
        lemma_trim_start_suffix(s@, start as int);
    }
    let ghost rest = s@.subrange(start as int, n as int);
    assert(spec_trim_start(rest) == rest);
    let mut end: usize = n;
    while end > start && is_whitespace(s[end - 1])
        invariant
            n == s@.len(),
            start <= end <= n,
            forall|j: int| end <= j < n ==> spec_is_whitespace(#[trigger] s@[j]),
        decreases end,
    {
        end -= 1;
    }
    proof {
        lemma_trim_end_prefix(rest, end - start);
        assert(rest.subrange(0, end - start) =~= s@.subrange(start as int, end as int));
    }
    let mut t: Vec<char> = Vec::new();
    let mut i: usize = start;
    while i < end
        invariant
            start <= i <= end <= n,
            n == s@.len(),
            t@ == s@.subrange(start as int, i as int),
        decreases end - i,
    {
        t.push(s[i]);
        i += 1;
        assert(t@ =~= s@.subrange(start as int, i as int));
    }
    t
}

pub fn to_ascii_lowercase(s: &Vec<char>) -> (t: Vec<char>)
    ensures
        t@ == spec_to_ascii_lowercase(s@),
{
    let mut t: Vec<char> = Vec::new();
    let mut i: usize = 0;
    while i < s.len()
        invariant
            i <= s.len(),
            t@ == spec_to_ascii_lowercase(s@.subrange(0, i as int)),
        decreases s.len() - i,
    {
        let c = s[i];
        let l = if 'A' <= c && c <= 'Z' {
            ((c as u32) + 32) as u8 as char
        } else {
            c
        };
        t.push(l);
        i += 1;
        assert(t@ =~= spec_to_ascii_lowercase(s@.subrange(0, i as int)));
    }
    assert(s@.subrange(0, s.len() as int) =~= s@);
    t
}

/// Two characters read as a base-16 byte (see `spec_parse_u8_hex2`); only
/// ASCII text can be a digit or a sign.
pub open spec fn spec_hex2_chars(a: char, b: char) -> Option<u8> {
    if a <= '\u{7f}' && b <= '\u{7f}' {
        spec_parse_u8_hex2(a as u8, b as u8)
    } else {
        None
    }
}

/// `#rrggbb`: a `#` followed by exactly three base-16 bytes.
pub open spec fn spec_color_from_hex(t: Seq<char>) -> Option<Color> {
    if t.len() == 7 && t[0] == '#' {
        match (spec_hex2_chars(t[1], t[2]), spec_hex2_chars(t[3], t[4]), spec_hex2_chars(t[5], t[6])) {
            (Some(r), Some(g), Some(b)) => Some(Color::Rgb(r, g, b)),
            _ => None,
        }
    } else {
        None
    }
}

/// The eight terminal color names and their bright variants.
pub open spec fn spec_named_color(name: Seq<char>, bright: bool) -> Option<Color> {
    if name == seq!['b', 'l', 'a', 'c', 'k'] {
        Some(if bright { Color::Gray } else { Color::Black })
    } else if name == seq!['r', 'e', 'd'] {
        Some(if bright { Color::LightRed } else { Color::Red })
    } else if name == seq!['g', 'r', 'e', 'e', 'n'] {
        Some(if bright { Color::LightGreen } else { Color::Green })
    } else if name == seq!['y', 'e', 'l', 'l', 'o', 'w'] {
        Some(if bright { Color::LightYellow } else { Color::Yellow })
    } else if name == seq!['b', 'l', 'u', 'e'] {
        Some(if bright { Color::LightBlue } else { Color::Blue })
    } else if name == seq!['m', 'a', 'g', 'e', 'n', 't', 'a'] {
        Some(if bright { Color::LightMagenta } else { Color::Magenta })
    } else if name == seq!['c', 'y', 'a', 'n'] {
        Some(if bright { Color::LightCyan } else { Color::Cyan })
    } else if name == seq!['w', 'h', 'i', 't', 'e'] {
        Some(if bright { Color::White } else { Color::LightGray })
    } else {
        None
    }
}

pub open spec fn spec_bright_prefix() -> Seq<char> {
    seq!['b', 'r', 'i', 'g', 'h', 't', ' ']
}

/// A hexyl-style color: surrounding whitespace is ignored; `#rrggbb` is an
/// RGB color; otherwise a case-insensitive color name, optionally prefixed
/// by `bright `.
pub open spec fn spec_parse_hexyl_color(value: Seq<char>) -> Option<Color> {
    let t = spec_trim(value);
    if t.len() > 0 && t[0] == '#' {
        spec_color_from_hex(t)
    } else {
        let lower = spec_to_ascii_lowercase(t);
        if lower.len() >= 7 && lower.subrange(0, 7) == spec_bright_prefix() {
            spec_named_color(lower.subrange(7, lower.len() as int), true)
        } else {
            spec_named_color(lower, false)
        }
    }
}

fn hex2_chars(a: char, b: char) -> (r: Option<u8>)
    ensures
        r == spec_hex2_chars(a, b),
{
    if a <= '\u{7f}' && b <= '\u{7f}' {
        parse_u8_hex2(a as u32 as u8, b as u32 as u8)
    } else {
        None
    }
}

/// Parses `#rrggbb` into an RGB color.
pub fn color_from_hex(t: &Vec<char>) -> (c: Option<Color>)
    ensures
        c == spec_color_from_hex(t@),
{
    if t.len() == 7 && t[0] == '#' {
        match (hex2_chars(t[1], t[2]), hex2_chars(t[3], t[4]), hex2_chars(t[5], t[6])) {
            (Some(r), Some(g), Some(b)) => Some(Color::Rgb(r, g, b)),
            _ => None,
        }
    } else {
        None
    }
}

/// Whether `v[from..]` equals `lit`.
pub(crate) fn chars_eq_from(v: &Vec<char>, from: usize, lit: &[char]) -> (b: bool)
    requires
        from <= v.len(),
    ensures
        b == (v@.subrange(from as int, v.len() as int) == lit@),
{
    if v.len() - from != lit.len() {
        return false;
    }
    let mut i: usize = 0;
    while i < lit.len()
        invariant
            from <= v.len(),
            v.len() - from == lit.len(),
            i <= lit.len(),
            forall|j: int| 0 <= j < i ==> v@[from + j] == lit@[j],
        decreases lit.len() - i,
    {
        if v[from + i] != lit[i] {
            assert(v@.subrange(from as int, v.len() as int)[i as int] != lit@[i as int]);
            return false;
        }
        i += 1;
    }
    assert(v@.subrange(from as int, v.len() as int) =~= lit@);
    true
}

fn named_color(name: &Vec<char>, from: usize, bright: bool) -> (c: Option<Color>)
    requires
        from <= name.len(),
    ensures
        c == spec_named_color(name@.subrange(from as int, name.len() as int), bright),
{
    let black: &[char] = &['b', 'l', 'a', 'c', 'k'];
    let red: &[char] = &['r', 'e', 'd'];
    let green: &[char] = &['g', 'r', 'e', 'e', 'n'];
    let yellow: &[char] = &['y', 'e', 'l', 'l', 'o', 'w'];
    let blue: &[char] = &['b', 'l', 'u', 'e'];
    let magenta: &[char] = &['m', 'a', 'g', 'e', 'n', 't', 'a'];
    let cyan: &[char] = &['c', 'y', 'a', 'n'];
    let white: &[char] = &['w', 'h', 'i', 't', 'e'];
    assert(black@ == seq!['b', 'l', 'a', 'c', 'k']);
    assert(red@ == seq!['r', 'e', 'd']);
    assert(green@ == seq!['g', 'r', 'e', 'e', 'n']);
    assert(yellow@ == seq!['y', 'e', 'l', 'l', 'o', 'w']);
    assert(blue@ == seq!['b', 'l', 'u', 'e']);
    assert(magenta@ == seq!['m', 'a', 'g', 'e', 'n', 't', 'a']);
    assert(cyan@ == seq!['c', 'y', 'a', 'n']);
    assert(white@ == seq!['w', 'h', 'i', 't', 'e']);
    if chars_eq_from(name, from, black) {
        Some(if bright { Color::Gray } else { Color::Black })
    } else if chars_eq_from(name, from, red) {
        Some(if bright { Color::LightRed } else { Color::Red })
    } else if chars_eq_from(name, from, green) {
        Some(if bright { Color::LightGreen } else { Color::Green })
    } else if chars_eq_from(name, from, yellow) {
        Some(if bright { Color::LightYellow } else { Color::Yellow })
    } else if chars_eq_from(name, from, blue) {
        Some(if bright { Color::LightBlue } else { Color::Blue })
    } else if chars_eq_from(name, from, magenta) {
        Some(if bright { Color::LightMagenta } else { Color::Magenta })
    } else if chars_eq_from(name, from, cyan) {
        Some(if bright { Color::LightCyan } else { Color::Cyan })
    } else if chars_eq_from(name, from, white) {
        Some(if bright { Color::White } else { Color::LightGray })
    } else {
        None
    }
}

/// Parse a hexyl-style color (`blue`, `bright green`, `#abcdef`).
pub fn parse_hexyl_color(value: &str) -> (c: Option<Color>)
    ensures
        c == spec_parse_hexyl_color(value@),
{
    let chars = str_chars(value);
    let t = trim_chars(&chars);
    if t.len() > 0 && t[0] == '#' {
        return color_from_hex(&t);
    }
    let lower = to_ascii_lowercase(&t);
    let prefix: &[char] = &['b', 'r', 'i', 'g', 'h', 't', ' '];
    assert(prefix@ == spec_bright_prefix());
    let mut has_prefix = lower.len() >= 7;
    let mut i: usize = 0;
    while has_prefix && i < 7
        invariant
            has_prefix ==> lower.len() >= 7,
            i <= 7,
            has_prefix ==> forall|j: int| 0 <= j < i ==> lower@[j] == prefix@[j],
            !has_prefix ==> !(lower@.len() >= 7 && lower@.subrange(0, 7) == spec_bright_prefix()),
            prefix@ == spec_bright_prefix(),
        decreases 7 - i,
    {
        if lower[i] != prefix[i] {
            assert(lower@.subrange(0, 7)[i as int] != prefix@[i as int]);
            has_prefix = false;
        }
        i += 1;
    }
    if has_prefix {
        assert(lower@.subrange(0, 7) =~= spec_bright_prefix());
        named_color(&lower, 7, true)
    } else {
        assert(lower@.subrange(0, lower.len() as int) =~= lower@);
        named_color(&lower, 0, false)
    }
}

/// The style a hexyl color setting asks for: its color as foreground.
pub fn hexyl_style(value: &str) -> (s: Option<Style>)
    ensures
        s == match spec_parse_hexyl_color(value@) {
            Some(c) => Some(Style { fg: Some(c), bg: None }),
            None => None,
        },
{
    match parse_hexyl_color(value) {
        Some(color) => Some(Style::default_style().fg(color)),
        None => None,
    }
}

proof fn lemma_trim_start_first(s: Seq<char>)
    ensures
        spec_trim_start(s).len() == 0 || !spec_is_whitespace(spec_trim_start(s)[0]),
    decreases s.len(),
{
    if s.len() > 0 && spec_is_whitespace(s[0]) {
        lemma_trim_start_first(s.drop_first());
    }
}

proof fn lemma_trim_end_prefix_of(s: Seq<char>)
    ensures
        spec_trim_end(s).len() <= s.len(),
        spec_trim_end(s) == s.take(spec_trim_end(s).len() as int),
        spec_trim_end(s).len() == 0 || !spec_is_whitespace(spec_trim_end(s).last()),
    decreases s.len(),
{
    if s.len() > 0 && spec_is_whitespace(s.last()) {
        lemma_trim_end_prefix_of(s.drop_last());
        let t = spec_trim_end(s.drop_last());
        assert(s.drop_last().take(t.len() as int) =~= s.take(t.len() as int));
    } else {
        assert(s.take(s.len() as int) =~= s);
    }
}

/// What `str::trim` leaves starts and ends with a non-blank character.
proof fn lemma_trim_ends(s: Seq<char>)
    ensures
        ({
            let t = spec_trim(s);
            t.len() == 0 || (!spec_is_whitespace(t[0]) && !spec_is_whitespace(t.last()))
        }),
{
    let a = spec_trim_start(s);
    lemma_trim_start_first(s);
    lemma_trim_end_prefix_of(a);
    let t = spec_trim_end(a);
    if t.len() > 0 {
        assert(t[0] == a[0]);
    }
}

proof fn lemma_trim_of_trimmed(t: Seq<char>)
    requires
        t.len() == 0 || (!spec_is_whitespace(t[0]) && !spec_is_whitespace(t.last())),
    ensures
        spec_trim(t) == t,
{
}

/// How a hexyl color value is read: `str::trim` first; a value starting with
/// `#` is an RGB color; any other value reads as its ASCII-lowercased
/// trimmed text does, so case and surrounding whitespace never matter, and
/// is accepted exactly when that text is one of the eight color names or
/// `bright ` followed by one; each plain name and its `bright ` form give
/// different colors.
pub proof fn lemma_hexyl_color_normal_form(s: Seq<char>)
    ensures
        ({
            let t = spec_trim(s);
            &&& t.len() > 0 && t[0] == '#' ==> spec_parse_hexyl_color(s) == spec_color_from_hex(t)
            &&& !(t.len() > 0 && t[0] == '#') ==> spec_parse_hexyl_color(s)
                == spec_parse_hexyl_color(spec_to_ascii_lowercase(t))
        }),
        forall|name: Seq<char>|
            #[trigger] spec_named_color(name, false) is Some ==> spec_named_color(name, true)
                is Some && spec_named_color(name, true) != spec_named_color(name, false),
        ({
            let t = spec_trim(s);
            let l = spec_to_ascii_lowercase(t);
            !(t.len() > 0 && t[0] == '#') ==> (spec_parse_hexyl_color(s) is Some <==> exists|n: Seq<char>|
                #[trigger] spec_is_color_name(n) && (l == n || l == spec_bright_prefix() + n))
        }),
{
    let t = spec_trim(s);
    if !(t.len() > 0 && t[0] == '#') {
        lemma_trim_ends(s);
        let l = spec_to_ascii_lowercase(t);
        assert forall|i: int| 0 <= i < l.len() implies spec_is_whitespace(#[trigger] l[i])
            == spec_is_whitespace(t[i]) && (l[i] == '#') == (t[i] == '#') by {}
        lemma_trim_of_trimmed(l);
        let ll = spec_to_ascii_lowercase(l);
        assert(ll =~= l);
        let p = spec_bright_prefix();
        if l.len() >= 7 && l.subrange(0, 7) == p {
            let n = l.subrange(7, l.len() as int);
            assert(l =~= p + n);
            if spec_is_color_name(n) {
                assert(spec_is_color_name(n) && (l == n || l == p + n));
            }
            assert forall|m: Seq<char>| #[trigger] spec_is_color_name(m) && (l == m || l == p + m)
                implies spec_is_color_name(n) by {
                if l == p + m {
                    assert(n =~= m);
                } else {
                    assert(l[0] == 'b' && l[1] == 'r');
                }
            }
        } else {
            if spec_is_color_name(l) {
                assert(spec_is_color_name(l) && (l == l || l == p + l));
            }
            assert forall|m: Seq<char>| #[trigger] spec_is_color_name(m) && (l == m || l == p + m)
                implies spec_is_color_name(l) by {
                if l == p + m {
                    assert((p + m).subrange(0, 7) =~= p);
                }
            }
        }
    }
}

/// One of the eight terminal color names.
pub open spec fn spec_is_color_name(n: Seq<char>) -> bool {
    spec_named_color(n, false) is Some
}

} // verus!
