//! Line picker scoped to the current buffer: the non-blank lines offered,
//! the line-number column, and jumping to a chosen line.

use vstd::prelude::*;

use crate::color::{is_whitespace, spec_is_whitespace, str_chars};
use crate::text_lines::TextLines;
use vstd::string::StrSliceExecFns;

verus! {

/// One pickable line: its zero-based number and its text.
pub struct LineResult {
    pub line_num: usize,
    pub content: String,
}

/// A line is blank when it holds only whitespace (line break included).
pub open spec fn spec_is_blank(line: Seq<char>) -> bool {
    forall|i: int| 0 <= i < line.len() ==> spec_is_whitespace(#[trigger] line[i])
}

/// `(line number, text)` of the non-blank lines among the first `n`.
pub open spec fn spec_search_lines(lines: Seq<Seq<char>>, n: int) -> Seq<(int, Seq<char>)>
    decreases n,
{
    if n <= 0 {
        Seq::empty()
    } else {
        spec_search_lines(lines, n - 1) + if spec_is_blank(lines[n - 1]) {
            Seq::<(int, Seq<char>)>::empty()
        } else {
            seq![(n - 1, lines[n - 1])]
        }
    }
}

pub open spec fn spec_results(results: Seq<LineResult>) -> Seq<(int, Seq<char>)> {
    results.map_values(|r: LineResult| (r.line_num as int, r.content@))
}

fn is_blank(line: &str) -> (b: bool)
    ensures
        b == spec_is_blank(line@),
{
    let chars = str_chars(line);
    let mut i: usize = 0;
    while i < chars.len()
        invariant
            chars@ == line@,
            i <= chars@.len(),
            forall|j: int| 0 <= j < i ==> spec_is_whitespace(#[trigger] chars@[j]),
        decreases chars.len() - i,
    {
        if !is_whitespace(chars[i]) {
            return false;
        }
        i += 1;
    }
    true
}

/// The register the picker's query is kept in, which also becomes the last
/// search register: the one the user chose, or `/`.
pub fn search_register(register: Option<char>) -> (r: char)
    ensures
        r == match register {
            Some(c) => c,
            None => '/',
        },
{
    match register {
        Some(c) => c,
        None => '/',
    }
}

/// What opening the line picker does: the lines offered, and the register
/// that becomes the last search register (and keeps the picker's history).
pub struct LocalSearch {
    pub results: Vec<LineResult>,
    pub search_register: char,
}

/// The lines of the buffer (each with its line break) offered by the
/// picker: every line that is not blank, with its line number; `register`
/// is the register the user chose for the command, if any.
pub fn local_search(lines: &[String], register: Option<char>) -> (search: LocalSearch)
    ensures
        spec_results(search.results@) == spec_search_lines(
            lines@.map_values(|l: String| l@),
            lines@.len() as int,
        ),
        search.search_register == match register {
            Some(c) => c,
            None => '/',
        },
{
    let ghost text = lines@.map_values(|l: String| l@);
    let mut results: Vec<LineResult> = Vec::new();
    let mut i: usize = 0;
    while i < lines.len()
        invariant
            i <= lines@.len(),
            text == lines@.map_values(|l: String| l@),
            spec_results(results@) == spec_search_lines(text, i as int),
        decreases lines.len() - i,
    {
        let blank = is_blank(lines[i].as_str());
        let ghost before = results@;
        if !blank {
            results.push(LineResult { line_num: i, content: lines[i].clone() });
        }
        assert(spec_results(results@) =~= spec_search_lines(text, i + 1));
        i += 1;
    }
    LocalSearch { results, search_register: search_register(register) }
}

/// Decimal digits of `n`.
pub open spec fn spec_decimal(n: nat) -> Seq<char>
    decreases n,
{
    if n < 10 {
        seq![(48 + n) as char]
    } else {
        spec_decimal(n / 10).push((48 + n % 10) as char)
    }
}

pub(crate) fn push_decimal(out: &mut String, n: usize)
    ensures
        final(out)@ == old(out)@ + spec_decimal(n as nat),
    decreases n,
{
    if n >= 10 {
        push_decimal(out, n / 10);
    }
    out.push(((48 + n % 10) as u8) as char);
}

/// The line-number column of a picker row: the one-based line number and
/// the spaces padding it to eight characters.
pub fn line_number_cell(line_num: usize) -> (cell: (String, String))
    requires
        line_num < usize::MAX,
    ensures
        cell.0@ == spec_decimal((line_num + 1) as nat),
        cell.1@ == Seq::new(
            (if cell.0@.len() < 8 {
                8 - cell.0@.len()
            } else {
                0
            }) as nat,
            |i: int| ' ',
        ),
{
    let mut label = String::new();
    push_decimal(&mut label, line_num + 1);
    let len = label_len(&label);
    let pad = if len < 8 {
        8 - len
    } else {
        0
    };
    let mut padding = String::new();
    let mut i: usize = 0;
    while i < pad
        invariant
            i <= pad,
            padding@ == Seq::new(i as nat, |j: int| ' '),
        decreases pad - i,
    {
        padding.push(' ');
        i += 1;
        assert(padding@ =~= Seq::new(i as nat, |j: int| ' '));
    }
    (label, padding)
}

/// Number of characters of a string.
fn label_len(s: &String) -> (n: usize)
    ensures
        n == s@.len(),
{
    s.as_str().unicode_len()
}

/// Error shown when the chosen line is gone.
pub fn missing_line_message() -> (m: &'static str)
    ensures
        m@ == "The line you jumped to does not exist anymore because the file has changed."@,
{
    "The line you jumped to does not exist anymore because the file has changed."
}

/// Selection for jumping to line `line_num` (the whole line), or `None`
/// when the line no longer exists because the file changed.
pub fn jump_to_line(text: &TextLines, line_num: usize) -> (r: Option<(usize, usize)>)
    requires
        text.wf(),
    ensures
        line_num >= text.spec_len_lines() ==> r is None,
        line_num < text.spec_len_lines() ==> r == Some(
            (
                text.spec_line_to_char(line_num as int) as usize,
                text.spec_line_to_char(line_num + 1) as usize,
            ),
        ),
{
    if line_num >= text.len_lines() {
        return None;
    }
    let start = text.line_to_char(line_num);
    let end = text.line_to_char(line_num + 1);
    Some((start, end))
}

} // verus!
