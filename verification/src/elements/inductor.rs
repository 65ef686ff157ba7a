//! Inductors: `L<name> <plus> <minus> <value>`.

use vstd::prelude::*;

use crate::elements::{read_two_terminal, two_terminal_at};
use crate::error::Error;
use crate::number::{Number, NumberView};
use crate::syntax::{remainder, ParseFailure};
use crate::text::{card_message, prefixed, strip_comment, to_chars, without_comment};

verus! {

/// A inductor of a circuit.
#[derive(Debug, Clone)]
pub struct Inductor {
    /// Name of the inductor (the text after its leading `L`).
    pub name: String,
    /// Value of the inductor in henries.
    pub value: Number,
    /// Positive node of the inductor.
    pub plus: String,
    /// Negative node of the inductor.
    pub minus: String,
}

pub struct InductorView {
    pub name: Seq<char>,
    pub value: NumberView,
    pub plus: Seq<char>,
    pub minus: Seq<char>,
}

impl View for Inductor {
    type V = InductorView;

    open spec fn view(&self) -> InductorView {
        InductorView {
            name: self.name@,
            value: self.value@,
            plus: self.plus@,
            minus: self.minus@,
        }
    }
}

/// The inductor card at `s[i..]`, by its end.
pub open spec fn inductor_at(s: Seq<char>, i: int) -> Option<(int, InductorView)> {
    match two_terminal_at(s, i, 'L') {
        Some((e, t)) => Some(
            (
                e,
                InductorView {
                    name: t.name,
                    value: t.value,
                    plus: t.plus,
                    minus: t.minus,
                },
            ),
        ),
        None => None,
    }
}

/// The inductor that a whole line describes: the text before `%`, trimmed,
/// must be exactly one inductor card.
pub open spec fn inductor_line(s: Seq<char>) -> Option<InductorView> {
    let c = without_comment(s, false);
    match inductor_at(c, 0) {
        Some((e, r)) => if e == c.len() {
            Some(r)
        } else {
            None
        },
        None => None,
    }
}

pub fn read_inductor(s: &[char], i: usize) -> (r: Option<(usize, Inductor)>)
    requires
        i <= s@.len(),
    ensures
        match r {
            Some((e, x)) => inductor_at(s@, i as int) == Some((e as int, x@)) && i < e <= s@.len(),
            None => inductor_at(s@, i as int) is None,
        },
{
    match read_two_terminal(s, i, 'L') {
        Some((e, t)) => Some(
            (e, Inductor { name: t.name, value: t.value, plus: t.plus, minus: t.minus }),
        ),
        None => None,
    }
}

/// Reads a inductor card at the start of `input`; returns the rest of the
/// input and the inductor.
pub fn parse_inductor(input: &str) -> (r: Result<(&str, Inductor), ParseFailure>)
    ensures
        match r {
            Ok((rest, x)) => inductor_at(input@, 0) == Some(
                (input@.len() - rest@.len(), x@),
            ) && rest@ == input@.skip(input@.len() - rest@.len()),
            Err(f) => inductor_at(input@, 0) is None && f == ParseFailure::Error,
        },
{
    let s = to_chars(input);
    match read_inductor(s.as_slice(), 0) {
        Some((e, x)) => Ok((remainder(input, e), x)),
        None => Err(ParseFailure::Error),
    }
}

impl Inductor {
    /// A copy of this inductor.
    pub fn duplicate(&self) -> (r: Inductor)
        ensures
            r@ == self@,
    {
        Inductor {
            name: self.name.clone(),
            value: self.value.duplicate(),
            plus: self.plus.clone(),
            minus: self.minus.clone(),
        }
    }

    /// Returns the identifier of the inductor: `L` followed by its name.
    pub fn identifier(&self) -> (r: String)
        ensures
            r@ == seq!['L'] + self.name@,
    {
        prefixed('L', self.name.as_str())
    }

    /// Reads a inductor from one line: the text before a `%` comment,
    /// trimmed, must be a whole inductor card.
    pub fn from_str(s: &str) -> (r: Result<Inductor, Error>)
        ensures
            match r {
                Ok(x) => inductor_line(s@) == Some(x@),
                Err(e) => inductor_line(s@) is None && e is InvalidFormat,
            },
    {
        let all = to_chars(s);
        let c = strip_comment(all.as_slice(), false);
        match read_inductor(c.as_slice(), 0) {
            Some((e, x)) => {
                if e != c.len() {
                    return Err(Error::InvalidFormat(card_message("Parsing Error: '", c.as_slice(), "'")));
                }
                Ok(x)
            },
            None => Err(Error::InvalidFormat(card_message("Parsing Error: '", c.as_slice(), "'"))),
        }
    }
}

impl std::str::FromStr for Inductor {
    type Err = Error;

    fn from_str(s: &str) -> (r: Result<Inductor, Error>)
        ensures
            match r {
                Ok(x) => inductor_line(s@) == Some(x@),
                Err(e) => inductor_line(s@) is None && e is InvalidFormat,
            },
    {
        Inductor::from_str(s)
    }
}

} // verus!
