//! The version string of the editor: calendar style `MAJOR.MM.PATCH`,
//! extended with the commit date and short hash when built from a git
//! checkout, unless the packager set one.

use vstd::prelude::*;

use crate::color::{spec_trim, str_chars, trim_chars};
use crate::local_search::{push_decimal, spec_decimal};
use crate::text::push_str;

verus! {

pub open spec fn spec_is_digit(c: char) -> bool {
    '0' <= c <= '9'
}

/// Value of a string of decimal digits.
pub open spec fn spec_digits_value(s: Seq<char>) -> nat
    decreases s.len(),
{
    if s.len() == 0 {
        0
    } else {
        spec_digits_value(s.drop_last()) * 10 + (s.last() as nat - 48) as nat
    }
}

/// The digits of an unsigned decimal number, after an optional `+`.
pub open spec fn spec_unsigned_digits(s: Seq<char>) -> Seq<char> {
    if s.len() > 0 && s[0] == '+' {
        s.skip(1)
    } else {
        s
    }
}

/// `u32::from_str`: an optional `+`, then one or more decimal digits whose
/// value fits in `u32`.
pub open spec fn spec_parse_u32(s: Seq<char>) -> Option<u32> {
    let d = spec_unsigned_digits(s);
    if d.len() == 0 || exists|i: int| 0 <= i < d.len() && !spec_is_digit(#[trigger] d[i]) {
        None
    } else if spec_digits_value(d) > u32::MAX {
        None
    } else {
        Some(spec_digits_value(d) as u32)
    }
}

/// Parses a decimal `u32` with the rules of `u32::from_str`.
pub fn parse_u32(s: &str) -> (r: Option<u32>)
    ensures
        r == spec_parse_u32(s@),
{
    let chars = str_chars(s);
    let ghost d = spec_unsigned_digits(s@);
    let start: usize = if chars.len() > 0 && chars[0] == '+' {
        1
    } else {
        0
    };
    assert(d =~= chars@.subrange(start as int, chars@.len() as int));
    if start == chars.len() {
        return None;
    }
    let mut value: u32 = 0;
    let mut overflow = false;
    let mut i: usize = start;
    while i < chars.len()
        invariant
            start <= i <= chars@.len(),
            chars@ == s@,
            d == chars@.subrange(start as int, chars@.len() as int),
            d == spec_unsigned_digits(s@),
            d.len() > 0,
            forall|j: int| start <= j < i ==> spec_is_digit(#[trigger] chars@[j]),
            !overflow ==> value == spec_digits_value(chars@.subrange(start as int, i as int)),
            overflow ==> spec_digits_value(chars@.subrange(start as int, i as int)) > u32::MAX,
        decreases chars.len() - i,
    {
        let c = chars[i];
        if !('0' <= c && c <= '9') {
            assert(d[i - start] == chars@[i as int]);
            assert(!spec_is_digit(d[i - start]));
            return None;
        }
        let digit = (c as u32) - 48;
        assert(chars@.subrange(start as int, i + 1).drop_last() =~= chars@.subrange(
            start as int,
            i as int,
        ));
        if !overflow {
            if value > 429_496_729 || (value == 429_496_729 && digit > 5) {
                overflow = true;
            } else {
                value = value * 10 + digit;
            }
        }
        i += 1;
    }
    assert(chars@.subrange(start as int, chars@.len() as int) == d);
    assert(forall|j: int| 0 <= j < d.len() ==> spec_is_digit(#[trigger] d[j]) ) by {
        assert forall|j: int| 0 <= j < d.len() implies spec_is_digit(#[trigger] d[j]) by {
            assert(d[j] == chars@[start + j]);
        }
    }
    if overflow {
        None
    } else {
        Some(value)
    }
}

/// `n` in decimal, zero-padded to two digits (`{:02}`).
pub open spec fn spec_pad2(n: nat) -> Seq<char> {
    if n < 10 {
        seq!['0'] + spec_decimal(n)
    } else {
        spec_decimal(n)
    }
}

/// `MAJOR.MM.PATCH`: the minor version is read as a number (0 when it is
/// not one) and printed with two digits.
pub open spec fn spec_calver(major: Seq<char>, minor: Seq<char>, patch: Seq<char>) -> Seq<char> {
    let m = match spec_parse_u32(minor) {
        Some(v) => v as nat,
        None => 0,
    };
    major + seq!['.'] + spec_pad2(m) + seq!['.'] + patch
}

pub fn calver(major: &str, minor: &str, patch: &str) -> (v: String)
    ensures
        v@ == spec_calver(major@, minor@, patch@),
{
    let m = match parse_u32(minor) {
        Some(v) => v,
        None => 0,
    };
    let mut out = String::new();
    push_str(&mut out, major);
    out.push('.');
    if m < 10 {
        out.push('0');
    }
    push_decimal(&mut out, m as usize);
    out.push('.');
    push_str(&mut out, patch);
    assert(out@ =~= spec_calver(major@, minor@, patch@));
    out
}

/// The characters of `s` other than `-`.
pub open spec fn spec_without_dashes(s: Seq<char>) -> Seq<char>
    decreases s.len(),
{
    if s.len() == 0 {
        Seq::empty()
    } else if s.last() == '-' {
        spec_without_dashes(s.drop_last())
    } else {
        spec_without_dashes(s.drop_last()).push(s.last())
    }
}

/// `VERSION-YYYYMMDD-HASH`: the calendar version, the commit date with its
/// dashes removed, and the short commit hash.
pub open spec fn spec_fork_version(ver: Seq<char>, date: Seq<char>, hash: Seq<char>) -> Seq<char> {
    ver + seq!['-'] + spec_without_dashes(date) + seq!['-'] + hash
}

pub fn fork_version(ver: &str, date: &str, hash: &str) -> (v: String)
    ensures
        v@ == spec_fork_version(ver@, date@, hash@),
{
    let mut out = String::new();
    push_str(&mut out, ver);
    out.push('-');
    let ghost head = out@;
    let chars = str_chars(date);
    let mut i: usize = 0;
    while i < chars.len()
        invariant
            i <= chars@.len(),
            chars@ == date@,
            out@ == head + spec_without_dashes(chars@.subrange(0, i as int)),
        decreases chars.len() - i,
    {
        assert(chars@.subrange(0, i + 1).drop_last() =~= chars@.subrange(0, i as int));
        if chars[i] != '-' {
            out.push(chars[i]);
        }
        i += 1;
        assert(out@ =~= head + spec_without_dashes(chars@.subrange(0, i as int)));
    }
    assert(chars@.subrange(0, i as int) =~= date@);
    out.push('-');
    push_str(&mut out, hash);
    assert(out@ =~= spec_fork_version(ver@, date@, hash@));
    out
}

/// A version set by the packager counts only when it is not empty.
pub fn packaged_version(env: Option<String>) -> (v: Option<String>)
    ensures
        v == match env {
            Some(s) => if s@.len() > 0 {
                Some(s)
            } else {
                None
            },
            None => None,
        },
{
    match env {
        Some(s) => {
            if s.as_str().unicode_len() > 0 {
                Some(s)
            } else {
                None
            }
        },
        None => None,
    }
}

/// The text printed by a successful git command, trimmed; `None` when only
/// whitespace remains.
pub fn git_output_text(stdout: &str) -> (r: Option<String>)
    ensures
        spec_trim(stdout@).len() == 0 ==> r is None,
        spec_trim(stdout@).len() > 0 ==> (r matches Some(t) && t@ == spec_trim(stdout@)),
{
    let t = trim_chars(&str_chars(stdout));
    if t.len() == 0 {
        return None;
    }
    let mut out = String::new();
    let mut i: usize = 0;
    while i < t.len()
        invariant
            i <= t@.len(),
            out@ == t@.subrange(0, i as int),
        decreases t.len() - i,
    {
        out.push(t[i]);
        i += 1;
        assert(out@ =~= t@.subrange(0, i as int));
    }
    assert(t@.subrange(0, i as int) =~= t@);
    Some(out)
}

} // verus!
