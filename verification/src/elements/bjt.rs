//! Bipolar junction transistors: `Q<N|P><name> <collector> <base> <emitter> [<value>]`.

use vstd::prelude::*;

use crate::error::Error;
use crate::number::{Number, NumberView};
use crate::syntax::{read_spaced_name, read_spaced_value, remainder, spaced_name, spaced_value, ParseFailure};
use crate::text::{
    card_message,
    prefixed, run1, scan_run1, starts_no_case, starts_with_no_case, strip_comment, string_from,
    to_chars, without_comment, CharClass,
};

verus! {

/// The polarity of a bipolar transistor.
#[derive(Debug, Clone, Copy, PartialEq, Eq, Structural)]
pub enum BjtType {
    /// NPN BJT.
    NPN,
    /// PNP BJT.
    PNP,
}

/// A bipolar junction transistor of a circuit.
#[derive(Debug, Clone)]
pub struct BJT {
    /// Name of the transistor (the letters and digits after `QN` or `QP`).
    pub name: String,
    /// Collector node.
    pub collector: String,
    /// Base node.
    pub base: String,
    /// Emitter node.
    pub emitter: String,
    /// The value after the nodes, if the card gives one.
    pub value: Option<Number>,
    /// Polarity of the transistor.
    pub bjt_type: BjtType,
}

pub struct BJTView {
    pub name: Seq<char>,
    pub collector: Seq<char>,
    pub base: Seq<char>,
    pub emitter: Seq<char>,
    pub value: Option<NumberView>,
    pub bjt_type: BjtType,
}

pub open spec fn option_view(v: Option<Number>) -> Option<NumberView> {
    match v {
        Some(n) => Some(n@),
        None => None,
    }
}

impl View for BJT {
    type V = BJTView;

    open spec fn view(&self) -> BJTView {
        BJTView {
            name: self.name@,
            collector: self.collector@,
            base: self.base@,
            emitter: self.emitter@,
            value: option_view(self.value),
            bjt_type: self.bjt_type,
        }
    }
}

/// The polarity that the letter after `Q` gives: `N`/`n` or `P`/`p`.
pub open spec fn bjt_type_of(c: char) -> Option<BjtType> {
    if c == 'N' || c == 'n' {
        Some(BjtType::NPN)
    } else if c == 'P' || c == 'p' {
        Some(BjtType::PNP)
    } else {
        None
    }
}

/// The card `Q<N|P><name> <collector> <base> <emitter> [<value>]` at
/// `s[i..]`: `Q` or `q`, the polarity letter, a name of ASCII letters and
/// digits glued to it, three node names and an optional value, each after
/// at least one blank.
pub open spec fn bjt_at(s: Seq<char>, i: int) -> Option<(int, BJTView)> {
    if !starts_no_case(s, i, seq!['q']) || !(i + 1 < s.len()) {
        None
    } else {
        match bjt_type_of(s[i + 1]) {
            None => None,
            Some(t) => match run1(s, i + 2, CharClass::Alnum) {
                None => None,
                Some(n) => match spaced_name(s, n) {
                    None => None,
                    Some((cb, ce)) => match spaced_name(s, ce) {
                        None => None,
                        Some((bb, be)) => match spaced_name(s, be) {
                            None => None,
                            Some((eb, ee)) => {
                                let (e, value) = match spaced_value(s, ee) {
                                    Some((e2, v)) => (e2, Some(v)),
                                    None => (ee, None),
                                };
                                Some(
                                    (
                                        e,
                                        BJTView {
                                            name: s.subrange(i + 2, n),
                                            collector: s.subrange(cb, ce),
                                            base: s.subrange(bb, be),
                                            emitter: s.subrange(eb, ee),
                                            value: value,
                                            bjt_type: t,
                                        },
                                    ),
                                )
                            },
                        },
                    },
                },
            },
        }
    }
}

/// The transistor that a whole line describes: the text before `%` or `*`,
/// trimmed, must be exactly one transistor card.
pub open spec fn bjt_line(s: Seq<char>) -> Option<BJTView> {
    let c = without_comment(s, true);
    match bjt_at(c, 0) {
        Some((e, b)) => if e == c.len() {
            Some(b)
        } else {
            None
        },
        None => None,
    }
}

fn polarity(c: char) -> (r: Option<BjtType>)
    ensures
        r == bjt_type_of(c),
{
    if c == 'N' || c == 'n' {
        Some(BjtType::NPN)
    } else if c == 'P' || c == 'p' {
        Some(BjtType::PNP)
    } else {
        None
    }
}

pub fn read_bjt(s: &[char], i: usize) -> (r: Option<(usize, BJT)>)
    requires
        i <= s@.len(),
    ensures
        match r {
            Some((e, x)) => bjt_at(s@, i as int) == Some((e as int, x@)) && i < e <= s@.len(),
            None => bjt_at(s@, i as int) is None,
        },
{
    let tag: [char; 1] = ['q'];
    assert(tag@ == seq!['q']);
    if !starts_with_no_case(s, i, &tag) || !(i + 1 < s.len()) {
        return None;
    }
    let bjt_type = match polarity(s[i + 1]) {
        Some(t) => t,
        None => return None,
    };
    let n = match scan_run1(s, i + 2, CharClass::Alnum) {
        Some(n) => n,
        None => return None,
    };
    let (ce, collector) = match read_spaced_name(s, n) {
        Some(x) => x,
        None => return None,
    };
    let (be, base) = match read_spaced_name(s, ce) {
        Some(x) => x,
        None => return None,
    };
    let (ee, emitter) = match read_spaced_name(s, be) {
        Some(x) => x,
        None => return None,
    };
    let (e, value) = match read_spaced_value(s, ee) {
        Some((e2, v)) => (e2, Some(v)),
        None => (ee, None),
    };
    let name = string_from(s, i + 2, n);
    Some((e, BJT { name, collector, base, emitter, value, bjt_type }))
}

/// Reads a transistor card at the start of `input`; returns the rest of the
/// input and the transistor.
pub fn parse_bjt(input: &str) -> (r: Result<(&str, BJT), ParseFailure>)
    ensures
        match r {
            Ok((rest, x)) => bjt_at(input@, 0) == Some((input@.len() - rest@.len(), x@))
                && rest@ == input@.skip(input@.len() - rest@.len()),
            Err(f) => bjt_at(input@, 0) is None && f == ParseFailure::Error,
        },
{
    let s = to_chars(input);
    match read_bjt(s.as_slice(), 0) {
        Some((e, x)) => Ok((remainder(input, e), x)),
        None => Err(ParseFailure::Error),
    }
}

impl BJT {
    /// Returns the identifier of the transistor: `Q` followed by its name.
    pub fn identifier(&self) -> (r: String)
        ensures
            r@ == seq!['Q'] + self.name@,
    {
        prefixed('Q', self.name.as_str())
    }

    /// A copy of this transistor.
    pub fn duplicate(&self) -> (r: BJT)
        ensures
            r@ == self@,
    {
        let value = match &self.value {
            Some(v) => Some(v.duplicate()),
            None => None,
        };
        BJT {
            name: self.name.clone(),
            collector: self.collector.clone(),
            base: self.base.clone(),
            emitter: self.emitter.clone(),
            value,
            bjt_type: self.bjt_type,
        }
    }

    /// Reads a transistor from one line: the text before a `%` or `*`
    /// comment, trimmed, must be a whole transistor card.
    pub fn from_str(s: &str) -> (r: Result<BJT, Error>)
        ensures
            match r {
                Ok(x) => bjt_line(s@) == Some(x@),
                Err(e) => bjt_line(s@) is None && e is InvalidFormat,
            },
    {
        let all = to_chars(s);
        let c = strip_comment(all.as_slice(), true);
        if c.len() == 0 {
            return Err(Error::InvalidFormat("Empty line after comment removal".to_owned()));
        }
        match read_bjt(c.as_slice(), 0) {
            Some((e, x)) => {
                if e != c.len() {
                    return Err(Error::InvalidFormat(card_message("Failed to parse BJT line '", c.as_slice(), "'")));
                }
                Ok(x)
            },
            None => Err(Error::InvalidFormat(card_message("Failed to parse BJT line '", c.as_slice(), "'"))),
        }
    }
}

impl std::str::FromStr for BJT {
    type Err = Error;

    fn from_str(s: &str) -> (r: Result<BJT, Error>)
        ensures
            match r {
                Ok(x) => bjt_line(s@) == Some(x@),
                Err(e) => bjt_line(s@) is None && e is InvalidFormat,
            },
    {
        BJT::from_str(s)
    }
}

} // verus!
