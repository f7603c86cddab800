//! Reading a numbered choice: one line of text, an inclusive range, and
//! either the number chosen or no selection.

use vstd::prelude::*;

verus! {

/// `c` has the Unicode `White_Space` property, as `char::is_whitespace`
/// tests it.
pub open spec fn is_white_space(c: char) -> bool {
    ('\u{9}' <= c <= '\u{d}') || c == ' ' || c == '\u{85}' || c == '\u{a0}' || c == '\u{1680}'
        || ('\u{2000}' <= c <= '\u{200a}') || c == '\u{2028}' || c == '\u{2029}' || c
        == '\u{202f}' || c == '\u{205f}' || c == '\u{3000}'
}

/// The text without its leading run of whitespace.
pub open spec fn trim_start(s: Seq<char>) -> Seq<char>
    decreases s.len(),
{
    if s.len() > 0 && is_white_space(s[0]) {
        trim_start(s.skip(1))
    } else {
        s
    }
}

/// The text without its trailing run of whitespace.
pub open spec fn trim_end(s: Seq<char>) -> Seq<char>
    decreases s.len(),
{
    if s.len() > 0 && is_white_space(s.last()) {
        trim_end(s.drop_last())
    } else {
        s
    }
}

/// The text with its leading and trailing whitespace removed.
pub open spec fn trimmed(s: Seq<char>) -> Seq<char> {
    trim_end(trim_start(s))
}

/// Relies on `str::trim`: the same text without the leading and trailing
/// characters for which `char::is_whitespace` holds.
#[verifier::external_body]
fn trim_text<'a>(s: &'a str) -> (r: &'a str)
    ensures
        r@ == trimmed(s@),
{
    s.trim()
}

pub open spec fn is_ascii_digit(c: char) -> bool {
    '0' <= c <= '9'
}

/// The value of a string of decimal digits.
pub open spec fn digits_value(s: Seq<char>) -> nat
    decreases s.len(),
{
    if s.len() == 0 {
        0
    } else {
        digits_value(s.drop_last()) * 10 + ((s.last() as int) - ('0' as int)) as nat
    }
}

/// The digits of an unsigned number, after an optional leading `+`.
pub open spec fn unsigned_digits(s: Seq<char>) -> Seq<char> {
    if s.len() > 0 && s[0] == '+' {
        s.skip(1)
    } else {
        s
    }
}

/// `s` reads as a `usize`: an optional `+`, then one or more ASCII digits
/// whose value fits.
pub open spec fn parses_as_usize(s: Seq<char>) -> bool {
    let d = unsigned_digits(s);
    &&& d.len() > 0
    &&& forall|i: int| 0 <= i < d.len() ==> is_ascii_digit(#[trigger] d[i])
    &&& digits_value(d) <= usize::MAX
}

/// Relies on `str::parse::<usize>` (`usize::from_str`): it accepts an
/// optional `+` followed by one or more ASCII digits whose value fits in
/// `usize`, and refuses everything else.
#[verifier::external_body]
fn parse_usize(s: &str) -> (r: Option<usize>)
    ensures
        r is Some <==> parses_as_usize(s@),
        r matches Some(v) ==> v as nat == digits_value(unsigned_digits(s@)),
{
    s.parse::<usize>().ok()
}

/// The choice that `text` makes in `[min, max]`: its number when it reads as
/// one inside the range, else no selection.
pub open spec fn selection(text: Seq<char>, min: nat, max: nat) -> Option<nat> {
    let v = digits_value(unsigned_digits(text));
    if parses_as_usize(text) && min <= v <= max {
        Some(v)
    } else {
        None
    }
}

/// An optional index, as a mathematical one.
pub open spec fn index_view(r: Option<usize>) -> Option<nat> {
    match r {
        Some(v) => Some(v as nat),
        None => None,
    }
}

/// The number that already trimmed `text` selects in `[min, max]`, or
/// `None` when it is not a number or lies outside the range.
pub fn select_in_range(text: &str, min: usize, max: usize) -> (r: Option<usize>)
    ensures
        index_view(r) == selection(text@, min as nat, max as nat),
{
    match parse_usize(text) {
        Some(selected) => {
            if selected < min || selected > max {
                None
            } else {
                Some(selected)
            }
        },
        None => None,
    }
}

/// The number that an input line selects in `[min, max]`, surrounding
/// whitespace ignored, or `None` (no selection) for anything else.
pub fn prompt_for_range(line: &str, min: usize, max: usize) -> (r: Option<usize>)
    ensures
        index_view(r) == selection(trimmed(line@), min as nat, max as nat),
{
    select_in_range(trim_text(line), min, max)
}

} // verus!
