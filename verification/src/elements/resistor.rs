//! Resistors: `R<name> <plus> <minus> <value>`.

use vstd::prelude::*;

use crate::elements::{read_two_terminal, two_terminal_at};
use crate::error::Error;
use crate::number::{is_not_positive, not_positive, Number, NumberView};
use crate::syntax::{remainder, ParseFailure};
use crate::text::{
    card_message, framed, law_comment_ignored, prefixed, strip_comment, to_chars, without_comment,
};

verus! {

/// A resistor of a circuit.
#[derive(Debug, Clone)]
pub struct Resistor {
    /// Name of the resistor (the text after its leading `R`).
    pub name: String,
    /// Value of the resistor in ohms.
    pub value: Number,
    /// Positive node of the resistor.
    pub plus: String,
    /// Negative node of the resistor.
    pub minus: String,
    /// Whether the resistor's current is a variable of its own (group 2).
    pub g2: bool,
}

pub struct ResistorView {
    pub name: Seq<char>,
    pub value: NumberView,
    pub plus: Seq<char>,
    pub minus: Seq<char>,
    pub g2: bool,
}

impl View for Resistor {
    type V = ResistorView;

    open spec fn view(&self) -> ResistorView {
        ResistorView {
            name: self.name@,
            value: self.value@,
            plus: self.plus@,
            minus: self.minus@,
            g2: self.g2,
        }
    }
}

/// The resistor card at `s[i..]`, by its end.
pub open spec fn resistor_at(s: Seq<char>, i: int) -> Option<(int, ResistorView)> {
    match two_terminal_at(s, i, 'R') {
        Some((e, t)) => Some(
            (
                e,
                ResistorView {
                    name: t.name,
                    value: t.value,
                    plus: t.plus,
                    minus: t.minus,
                    g2: false,
                },
            ),
        ),
        None => None,
    }
}

/// The resistor that a whole line describes: the text before `%`, trimmed,
/// must be exactly one resistor card.
pub open spec fn resistor_line(s: Seq<char>) -> Option<ResistorView> {
    let c = without_comment(s, false);
    match resistor_at(c, 0) {
        Some((e, r)) => if e == c.len() {
            Some(r)
        } else {
            None
        },
        None => None,
    }
}

/// Text after a `%` on a resistor line is a comment: the line reads as the
/// text before it.
pub proof fn law_resistor_comment(s: Seq<char>, t: Seq<char>)
    ensures
        resistor_line(s + seq!['%'] + t) == resistor_line(s),
{
    law_comment_ignored(s, t, false);
}

pub fn read_resistor(s: &[char], i: usize) -> (r: Option<(usize, Resistor)>)
    requires
        i <= s@.len(),
    ensures
        match r {
            Some((e, x)) => resistor_at(s@, i as int) == Some((e as int, x@)) && i < e <= s@.len(),
            None => resistor_at(s@, i as int) is None,
        },
{
    match read_two_terminal(s, i, 'R') {
        Some((e, t)) => Some(
            (e, Resistor { name: t.name, value: t.value, plus: t.plus, minus: t.minus, g2: false }),
        ),
        None => None,
    }
}

/// Reads a resistor card at the start of `input`; returns the rest of the
/// input and the resistor.
pub fn parse_resistor(input: &str) -> (r: Result<(&str, Resistor), ParseFailure>)
    ensures
        match r {
            Ok((rest, x)) => resistor_at(input@, 0) == Some(
                (input@.len() - rest@.len(), x@),
            ) && rest@ == input@.skip(input@.len() - rest@.len()),
            Err(f) => resistor_at(input@, 0) is None && f == ParseFailure::Error,
        },
{
    let s = to_chars(input);
    match read_resistor(s.as_slice(), 0) {
        Some((e, x)) => Ok((remainder(input, e), x)),
        None => Err(ParseFailure::Error),
    }
}

impl Resistor {
    /// A copy of this resistor.
    pub fn duplicate(&self) -> (r: Resistor)
        ensures
            r@ == self@,
    {
        Resistor {
            name: self.name.clone(),
            value: self.value.duplicate(),
            plus: self.plus.clone(),
            minus: self.minus.clone(),
            g2: self.g2,
        }
    }

    /// Returns the identifier of the resistor: `R` followed by its name.
    pub fn identifier(&self) -> (r: String)
        ensures
            r@ == seq!['R'] + self.name@,
    {
        prefixed('R', self.name.as_str())
    }

    /// Reads a resistor from one line: the text before a `%` comment,
    /// trimmed, must be a whole resistor card, and its value must be
    /// positive.
    pub fn from_str(s: &str) -> (r: Result<Resistor, Error>)
        ensures
            match r {
                Ok(x) => resistor_line(s@) == Some(x@) && !not_positive(x.value@),
                Err(e) => (resistor_line(s@) is None && e is InvalidFormat) || (resistor_line(
                    s@,
                ) matches Some(x) && not_positive(x.value) && e is InvalidFloatValue),
            },
    {
        let all = to_chars(s);
        let c = strip_comment(all.as_slice(), false);
        match read_resistor(c.as_slice(), 0) {
            Some((e, x)) => {
                if e != c.len() {
                    return Err(Error::InvalidFormat(card_message("Parsing Error: '", c.as_slice(), "'")));
                }
                if is_not_positive(&x.value) {
                    return Err(
                        Error::InvalidFloatValue(
                            framed("Resistor value must be positive: '", s, "'"),
                        ),
                    );
                }
                Ok(x)
            },
            None => Err(Error::InvalidFormat(card_message("Parsing Error: '", c.as_slice(), "'"))),
        }
    }
}

impl std::str::FromStr for Resistor {
    type Err = Error;

    fn from_str(s: &str) -> (r: Result<Resistor, Error>)
        ensures
            match r {
                Ok(x) => resistor_line(s@) == Some(x@) && !not_positive(x.value@),
                Err(e) => (resistor_line(s@) is None && e is InvalidFormat) || (resistor_line(
                    s@,
                ) matches Some(x) && not_positive(x.value) && e is InvalidFloatValue),
            },
    {
        Resistor::from_str(s)
    }
}

} // verus!
