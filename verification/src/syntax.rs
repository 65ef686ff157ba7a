//! The outcome of recognising a grammar rule at a position of a card.

use vstd::prelude::*;

use vstd::string::StrSliceExecFns;

use crate::number::{token_value, value_of_chars, Number, NumberView};
use crate::text::{run1, run_end, scan_run, scan_run1, string_from, CharClass};

verus! {

/// Why a rule did not match.
///
/// `Error` lets an enclosing choice or repetition try something else;
/// `Failure` commits: it aborts every enclosing rule (an exponent marker
/// with no digits after it is the one source of it).
#[derive(Clone, Copy, PartialEq, Eq, Debug)]
pub enum ParseFailure {
    Error,
    Failure,
}

/// A name (letters, digits, `_`; at least one) at `i`, by its end.
pub open spec fn name_at(s: Seq<char>, i: int) -> Option<int> {
    run1(s, i, CharClass::Name)
}

/// At least one blank at `i`, by the end of the run.
pub open spec fn blanks_at(s: Seq<char>, i: int) -> Option<int> {
    run1(s, i, CharClass::Blank)
}

/// The end of the (possibly empty) run of blanks at `i`.
pub open spec fn skip_blanks(s: Seq<char>, i: int) -> int {
    run_end(s, i, CharClass::Blank)
}

/// Blanks followed by a name, as the name's start and end.
pub open spec fn spaced_name(s: Seq<char>, i: int) -> Option<(int, int)> {
    match blanks_at(s, i) {
        Some(b) => match name_at(s, b) {
            Some(e) => Some((b, e)),
            None => None,
        },
        None => None,
    }
}

/// A numeric token (no blanks, line breaks or parentheses) at `i` and the
/// value it denotes.
pub open spec fn value_at(s: Seq<char>, i: int) -> Option<(int, NumberView)> {
    match run1(s, i, CharClass::Token) {
        Some(e) => match token_value(s.subrange(i, e)) {
            Some(v) => Some((e, v)),
            None => None,
        },
        None => None,
    }
}

/// Blanks followed by a value.
pub open spec fn spaced_value(s: Seq<char>, i: int) -> Option<(int, NumberView)> {
    match blanks_at(s, i) {
        Some(b) => value_at(s, b),
        None => None,
    }
}

pub fn scan_name(s: &[char], i: usize) -> (r: Option<usize>)
    requires
        i <= s@.len(),
    ensures
        match r {
            Some(e) => name_at(s@, i as int) == Some(e as int) && i < e <= s@.len(),
            None => name_at(s@, i as int) is None,
        },
{
    scan_run1(s, i, CharClass::Name)
}

pub fn scan_blanks(s: &[char], i: usize) -> (r: Option<usize>)
    requires
        i <= s@.len(),
    ensures
        match r {
            Some(e) => blanks_at(s@, i as int) == Some(e as int) && i < e <= s@.len(),
            None => blanks_at(s@, i as int) is None,
        },
{
    scan_run1(s, i, CharClass::Blank)
}

pub fn scan_spaced_name(s: &[char], i: usize) -> (r: Option<(usize, usize)>)
    requires
        i <= s@.len(),
    ensures
        match r {
            Some((b, e)) => spaced_name(s@, i as int) == Some((b as int, e as int)) && i < b < e
                <= s@.len(),
            None => spaced_name(s@, i as int) is None,
        },
{
    match scan_blanks(s, i) {
        Some(b) => match scan_name(s, b) {
            Some(e) => Some((b, e)),
            None => None,
        },
        None => None,
    }
}

/// A name read after blanks, as a string.
pub fn read_spaced_name(s: &[char], i: usize) -> (r: Option<(usize, String)>)
    requires
        i <= s@.len(),
    ensures
        match r {
            Some((e, n)) => spaced_name(s@, i as int) matches Some((b, e2)) && e2 == e && n@
                == s@.subrange(b, e2) && i < e <= s@.len(),
            None => spaced_name(s@, i as int) is None,
        },
{
    match scan_spaced_name(s, i) {
        Some((b, e)) => Some((e, string_from(s, b, e))),
        None => None,
    }
}

pub fn read_value(s: &[char], i: usize) -> (r: Option<(usize, Number)>)
    requires
        i <= s@.len(),
    ensures
        match r {
            Some((e, n)) => value_at(s@, i as int) == Some((e as int, n@)) && i < e <= s@.len(),
            None => value_at(s@, i as int) is None,
        },
{
    match scan_run1(s, i, CharClass::Token) {
        Some(e) => match value_of_chars(s, i, e) {
            Some(v) => Some((e, v)),
            None => None,
        },
        None => None,
    }
}

pub fn read_spaced_value(s: &[char], i: usize) -> (r: Option<(usize, Number)>)
    requires
        i <= s@.len(),
    ensures
        match r {
            Some((e, n)) => spaced_value(s@, i as int) == Some((e as int, n@)) && i < e
                <= s@.len(),
            None => spaced_value(s@, i as int) is None,
        },
{
    match scan_blanks(s, i) {
        Some(b) => read_value(s, b),
        None => None,
    }
}

/// The rest of `input` after its first `e` characters.
pub fn remainder<'a>(input: &'a str, e: usize) -> (r: &'a str)
    requires
        e <= input@.len(),
    ensures
        r@ == input@.skip(e as int),
{
    let n = input.unicode_len();
    input.substring_char(e, n)
}

pub fn skip_blank_run(s: &[char], i: usize) -> (e: usize)
    requires
        i <= s@.len(),
    ensures
        e == skip_blanks(s@, i as int),
        i <= e <= s@.len(),
{
    scan_run(s, i, CharClass::Blank)
}

/// Reads a name (ASCII letters, digits and `_`; at least one) at the start
/// of `input`; returns the rest of the input and the name.
pub fn alphanumeric_or_underscore1(input: &str) -> (r: Result<(&str, &str), ParseFailure>)
    ensures
        match r {
            Ok((rest, name)) => name_at(input@, 0) == Some(name@.len() as int) && name@
                == input@.take(name@.len() as int) && rest@ == input@.skip(name@.len() as int),
            Err(f) => name_at(input@, 0) is None && f == ParseFailure::Error,
        },
{
    let s = crate::text::to_chars(input);
    match scan_name(s.as_slice(), 0) {
        Some(e) => {
            let n = input.unicode_len();
            let name = input.substring_char(0, e);
            let rest = input.substring_char(e, n);
            assert(input@.subrange(0, e as int) == input@.take(e as int));
            Ok((rest, name))
        },
        None => Err(ParseFailure::Error),
    }
}

/// Reads a value token (no blanks, line breaks or parentheses) at the start
/// of `input` and the number it denotes (see `value_at`); returns the rest
/// of the input and the number.
pub fn value_parser(input: &str) -> (r: Result<(&str, Number), ParseFailure>)
    ensures
        match r {
            Ok((rest, v)) => value_at(input@, 0) == Some((input@.len() - rest@.len(), v@))
                && rest@ == input@.skip(input@.len() - rest@.len()),
            Err(f) => value_at(input@, 0) is None && f == ParseFailure::Error,
        },
{
    let s = crate::text::to_chars(input);
    match read_value(s.as_slice(), 0) {
        Some((e, v)) => Ok((remainder(input, e), v)),
        None => Err(ParseFailure::Error),
    }
}

} // verus!
