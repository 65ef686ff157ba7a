//! Current sources: `I<name> <plus> <minus> <value>`.

use vstd::prelude::*;

use crate::elements::{read_two_terminal, two_terminal_at};
use crate::error::Error;
use crate::number::{Number, NumberView};
use crate::syntax::{remainder, ParseFailure};
use crate::text::{card_message, prefixed, strip_comment, to_chars, without_comment};

verus! {

/// A current source of a circuit.
#[derive(Debug, Clone)]
pub struct CurrentSource {
    /// Name of the current source (the text after its leading `I`).
    pub name: String,
    /// Value of the current source in amperes.
    pub value: Number,
    /// Positive node of the current source.
    pub plus: String,
    /// Negative node of the current source.
    pub minus: String,
}

pub struct CurrentSourceView {
    pub name: Seq<char>,
    pub value: NumberView,
    pub plus: Seq<char>,
    pub minus: Seq<char>,
}

impl View for CurrentSource {
    type V = CurrentSourceView;

    open spec fn view(&self) -> CurrentSourceView {
        CurrentSourceView {
            name: self.name@,
            value: self.value@,
            plus: self.plus@,
            minus: self.minus@,
        }
    }
}

/// The current-source card at `s[i..]`, by its end.
pub open spec fn current_source_at(s: Seq<char>, i: int) -> Option<(int, CurrentSourceView)> {
    match two_terminal_at(s, i, 'I') {
        Some((e, t)) => Some(
            (
                e,
                CurrentSourceView {
                    name: t.name,
                    value: t.value,
                    plus: t.plus,
                    minus: t.minus,
                },
            ),
        ),
        None => None,
    }
}

/// The current source that a whole line describes: the text before `%`, trimmed,
/// must be exactly one current-source card.
pub open spec fn current_source_line(s: Seq<char>) -> Option<CurrentSourceView> {
    let c = without_comment(s, false);
    match current_source_at(c, 0) {
        Some((e, r)) => if e == c.len() {
            Some(r)
        } else {
            None
        },
        None => None,
    }
}

pub fn read_current_source(s: &[char], i: usize) -> (r: Option<(usize, CurrentSource)>)
    requires
        i <= s@.len(),
    ensures
        match r {
            Some((e, x)) => current_source_at(s@, i as int) == Some((e as int, x@)) && i < e <= s@.len(),
            None => current_source_at(s@, i as int) is None,
        },
{
    match read_two_terminal(s, i, 'I') {
        Some((e, t)) => Some(
            (e, CurrentSource { name: t.name, value: t.value, plus: t.plus, minus: t.minus }),
        ),
        None => None,
    }
}

/// Reads a current-source card at the start of `input`; returns the rest of the
/// input and the current source.
pub fn parse_current_source(input: &str) -> (r: Result<(&str, CurrentSource), ParseFailure>)
    ensures
        match r {
            Ok((rest, x)) => current_source_at(input@, 0) == Some(
                (input@.len() - rest@.len(), x@),
            ) && rest@ == input@.skip(input@.len() - rest@.len()),
            Err(f) => current_source_at(input@, 0) is None && f == ParseFailure::Error,
        },
{
    let s = to_chars(input);
    match read_current_source(s.as_slice(), 0) {
        Some((e, x)) => Ok((remainder(input, e), x)),
        None => Err(ParseFailure::Error),
    }
}

impl CurrentSource {
    /// A copy of this current source.
    pub fn duplicate(&self) -> (r: CurrentSource)
        ensures
            r@ == self@,
    {
        CurrentSource {
            name: self.name.clone(),
            value: self.value.duplicate(),
            plus: self.plus.clone(),
            minus: self.minus.clone(),
        }
    }

    /// Returns the identifier of the current source: `I` followed by its name.
    pub fn identifier(&self) -> (r: String)
        ensures
            r@ == seq!['I'] + self.name@,
    {
        prefixed('I', self.name.as_str())
    }

    /// Reads a current source from one line: the text before a `%` comment,
    /// trimmed, must be a whole current source card.
    pub fn from_str(s: &str) -> (r: Result<CurrentSource, Error>)
        ensures
            match r {
                Ok(x) => current_source_line(s@) == Some(x@),
                Err(e) => current_source_line(s@) is None && e is InvalidFormat,
            },
    {
        let all = to_chars(s);
        let c = strip_comment(all.as_slice(), false);
        match read_current_source(c.as_slice(), 0) {
            Some((e, x)) => {
                if e != c.len() {
                    return Err(Error::InvalidFormat(card_message("Parsing Error: '", c.as_slice(), "'")));
                }
                Ok(x)
            },
            None => Err(Error::InvalidFormat(card_message("Parsing Error: '", c.as_slice(), "'"))),
        }
    }
}

impl std::str::FromStr for CurrentSource {
    type Err = Error;

    fn from_str(s: &str) -> (r: Result<CurrentSource, Error>)
        ensures
            match r {
                Ok(x) => current_source_line(s@) == Some(x@),
                Err(e) => current_source_line(s@) is None && e is InvalidFormat,
            },
    {
        CurrentSource::from_str(s)
    }
}

} // verus!
