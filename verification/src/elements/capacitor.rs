//! Capacitors: `C<name> <plus> <minus> <value> [G2]`.

use vstd::prelude::*;

use crate::elements::{read_two_terminal, two_terminal_at};
use crate::error::Error;
use crate::number::{Number, NumberView};
use crate::syntax::{blanks_at, remainder, scan_blanks, ParseFailure};
use crate::text::{
    card_message,
    prefixed, starts_no_case, starts_with_no_case, strip_comment, to_chars, without_comment,
};

verus! {

/// A capacitor of a circuit.
#[derive(Debug, Clone)]
pub struct Capacitor {
    /// Name of the capacitor (the text after its leading `C`).
    pub name: String,
    /// Value of the capacitor in farads.
    pub value: Number,
    /// Positive node of the capacitor.
    pub plus: String,
    /// Negative node of the capacitor.
    pub minus: String,
    /// Whether the capacitor's current is a variable of its own (group 2).
    pub g2: bool,
}

pub struct CapacitorView {
    pub name: Seq<char>,
    pub value: NumberView,
    pub plus: Seq<char>,
    pub minus: Seq<char>,
    pub g2: bool,
}

impl View for Capacitor {
    type V = CapacitorView;

    open spec fn view(&self) -> CapacitorView {
        CapacitorView {
            name: self.name@,
            value: self.value@,
            plus: self.plus@,
            minus: self.minus@,
            g2: self.g2,
        }
    }
}

/// Whether the keyword `G2` follows blanks at `s[e..]`, and the end of the
/// card.
pub open spec fn group2_flag(s: Seq<char>, e: int) -> (int, bool) {
    match blanks_at(s, e) {
        Some(b) => if starts_no_case(s, b, seq!['G', '2']) {
            (b + 2, true)
        } else {
            (e, false)
        },
        None => (e, false),
    }
}

/// The capacitor card at `s[i..]`, by its end: a two-terminal card and an
/// optional `G2` marker.
pub open spec fn capacitor_at(s: Seq<char>, i: int) -> Option<(int, CapacitorView)> {
    match two_terminal_at(s, i, 'C') {
        Some((e, t)) => {
            let (end, g2) = group2_flag(s, e);
            Some(
                (
                    end,
                    CapacitorView {
                        name: t.name,
                        value: t.value,
                        plus: t.plus,
                        minus: t.minus,
                        g2: g2,
                    },
                ),
            )
        },
        None => None,
    }
}

/// The capacitor that a whole line describes: the text before `%`, trimmed,
/// must be exactly one capacitor card.
pub open spec fn capacitor_line(s: Seq<char>) -> Option<CapacitorView> {
    let c = without_comment(s, false);
    match capacitor_at(c, 0) {
        Some((e, r)) => if e == c.len() {
            Some(r)
        } else {
            None
        },
        None => None,
    }
}

pub fn read_capacitor(s: &[char], i: usize) -> (r: Option<(usize, Capacitor)>)
    requires
        i <= s@.len(),
    ensures
        match r {
            Some((e, x)) => capacitor_at(s@, i as int) == Some((e as int, x@)) && i < e <= s@.len(),
            None => capacitor_at(s@, i as int) is None,
        },
{
    match read_two_terminal(s, i, 'C') {
        Some((e, t)) => {
            let g2tag: [char; 2] = ['G', '2'];
            assert(g2tag@ == seq!['G', '2']);
            let (end, g2) = match scan_blanks(s, e) {
                Some(b) => if starts_with_no_case(s, b, &g2tag) {
                    (b + 2, true)
                } else {
                    (e, false)
                },
                None => (e, false),
            };
            Some(
                (
                    end,
                    Capacitor { name: t.name, value: t.value, plus: t.plus, minus: t.minus, g2 },
                ),
            )
        },
        None => None,
    }
}

/// Reads a capacitor card at the start of `input`; returns the rest of the
/// input and the capacitor.
pub fn parse_capacitor(input: &str) -> (r: Result<(&str, Capacitor), ParseFailure>)
    ensures
        match r {
            Ok((rest, x)) => capacitor_at(input@, 0) == Some(
                (input@.len() - rest@.len(), x@),
            ) && rest@ == input@.skip(input@.len() - rest@.len()),
            Err(f) => capacitor_at(input@, 0) is None && f == ParseFailure::Error,
        },
{
    let s = to_chars(input);
    match read_capacitor(s.as_slice(), 0) {
        Some((e, x)) => Ok((remainder(input, e), x)),
        None => Err(ParseFailure::Error),
    }
}

impl Capacitor {
    /// A copy of this capacitor.
    pub fn duplicate(&self) -> (r: Capacitor)
        ensures
            r@ == self@,
    {
        Capacitor {
            name: self.name.clone(),
            value: self.value.duplicate(),
            plus: self.plus.clone(),
            minus: self.minus.clone(),
            g2: self.g2,
        }
    }

    /// Returns the identifier of the capacitor: `C` followed by its name.
    pub fn identifier(&self) -> (r: String)
        ensures
            r@ == seq!['C'] + self.name@,
    {
        prefixed('C', self.name.as_str())
    }

    /// Reads a capacitor from one line: the text before a `%` comment,
    /// trimmed, must be a whole capacitor card.
    pub fn from_str(s: &str) -> (r: Result<Capacitor, Error>)
        ensures
            match r {
                Ok(x) => capacitor_line(s@) == Some(x@),
                Err(e) => capacitor_line(s@) is None && e is InvalidFormat,
            },
    {
        let all = to_chars(s);
        let c = strip_comment(all.as_slice(), false);
        match read_capacitor(c.as_slice(), 0) {
            Some((e, x)) => {
                if e != c.len() {
                    return Err(Error::InvalidFormat(card_message("Parsing Error: '", c.as_slice(), "'")));
                }
                Ok(x)
            },
            None => Err(Error::InvalidFormat(card_message("Parsing Error: '", c.as_slice(), "'"))),
        }
    }
}

impl std::str::FromStr for Capacitor {
    type Err = Error;

    fn from_str(s: &str) -> (r: Result<Capacitor, Error>)
        ensures
            match r {
                Ok(x) => capacitor_line(s@) == Some(x@),
                Err(e) => capacitor_line(s@) is None && e is InvalidFormat,
            },
    {
        Capacitor::from_str(s)
    }
}

} // verus!
