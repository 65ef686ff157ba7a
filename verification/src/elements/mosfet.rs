//! MOSFETs of either channel: `M<N|P><number> <drain> <gate> <source> <bulk> <model> [KEY=VALUE ...]`.

use vstd::prelude::*;

use crate::elements::bjt::option_view;
use crate::elements::nmosfet::duplicate_number;
use crate::elements::{find_param, instance_param, read_spaced_params, spaced_key_values};
use crate::error::Error;
use crate::number::{decimal_digits, decimal_string, parse_u32, u32_value, Number, NumberView};
use crate::syntax::{read_spaced_name, remainder, skip_blank_run, skip_blanks, spaced_name, ParseFailure};
use crate::text::{
    card_message, framed, prefixed, run1, scan_run1, slice_range, starts_no_case, starts_with_no_case, strip_comment,
    to_chars, without_comment, CharClass,
};

verus! {

/// The channel of a MOSFET.
#[derive(Debug, Clone, Copy, PartialEq, Eq, Structural)]
pub enum MosfetType {
    NChannel,
    PChannel,
}

/// A MOSFET of a circuit.
#[derive(Debug, Clone)]
pub struct MOSFET {
    /// The number of the transistor (the digits after `MN` or `MP`).
    pub name: u32,
    /// Drain node.
    pub drain: String,
    /// Gate node.
    pub gate: String,
    /// Source node.
    pub source: String,
    /// Bulk node.
    pub bulk: String,
    /// The name of the transistor model to use.
    pub model_name: String,
    /// The channel of the transistor.
    pub mosfet_type: MosfetType,
    /// The multiplicity (`M=`), as written.
    pub multiplicity: Option<Number>,
    /// The channel width (`W=`).
    pub width: Option<Number>,
    /// The channel length (`L=`).
    pub length: Option<Number>,
}

pub struct MOSFETView {
    pub name: u32,
    pub drain: Seq<char>,
    pub gate: Seq<char>,
    pub source: Seq<char>,
    pub bulk: Seq<char>,
    pub model_name: Seq<char>,
    pub mosfet_type: MosfetType,
    pub multiplicity: Option<NumberView>,
    pub width: Option<NumberView>,
    pub length: Option<NumberView>,
}

impl View for MOSFET {
    type V = MOSFETView;

    open spec fn view(&self) -> MOSFETView {
        MOSFETView {
            name: self.name,
            drain: self.drain@,
            gate: self.gate@,
            source: self.source@,
            bulk: self.bulk@,
            model_name: self.model_name@,
            mosfet_type: self.mosfet_type,
            multiplicity: option_view(self.multiplicity),
            width: option_view(self.width),
            length: option_view(self.length),
        }
    }
}

/// The channel that the letter after `M` gives: `N`/`n` or `P`/`p`.
pub open spec fn mosfet_type_of(c: char) -> Option<MosfetType> {
    if c == 'N' || c == 'n' {
        Some(MosfetType::NChannel)
    } else if c == 'P' || c == 'p' {
        Some(MosfetType::PChannel)
    } else {
        None
    }
}

/// The card `M<N|P><number> <drain> <gate> <source> <bulk> <model>
/// [KEY=VALUE ...]` at `s[i..]`: `M` or `m`, the channel letter, ASCII digits
/// glued to it that read as a `u32`, four node names and a model name each
/// after at least one blank, then ` KEY=VALUE` pairs and trailing blanks.
/// The last `M`, `W` and `L` pair (in either case) gives the multiplicity,
/// width and length.
pub open spec fn mosfet_at(s: Seq<char>, i: int) -> Option<(int, MOSFETView)> {
    if !starts_no_case(s, i, seq!['m']) || !(i + 1 < s.len()) {
        None
    } else {
        match (mosfet_type_of(s[i + 1]), run1(s, i + 2, CharClass::Digit)) {
            (None, _) => None,
            (_, None) => None,
            (Some(t), Some(n)) => match u32_value(s.subrange(i + 2, n)) {
            None => None,
            Some(number) => match spaced_name(s, n) {
                None => None,
                Some((db, de)) => match spaced_name(s, de) {
                    None => None,
                    Some((gb, ge)) => match spaced_name(s, ge) {
                        None => None,
                        Some((sb, se)) => match spaced_name(s, se) {
                            None => None,
                            Some((bb, be)) => match spaced_name(s, be) {
                                None => None,
                                Some((mb, me)) => {
                                    let (pe, kvs) = spaced_key_values(s, me);
                                    Some(
                                        (
                                            skip_blanks(s, pe),
                                            MOSFETView {
                                                name: number,
                                                drain: s.subrange(db, de),
                                                gate: s.subrange(gb, ge),
                                                source: s.subrange(sb, se),
                                                bulk: s.subrange(bb, be),
                                                model_name: s.subrange(mb, me),
                                                mosfet_type: t,
                                                multiplicity: instance_param(kvs, 'm'),
                                                width: instance_param(kvs, 'w'),
                                                length: instance_param(kvs, 'l'),
                                            },
                                        ),
                                    )
                                },
                            },
                        },
                    },
                },
            },
            },
        }
    }
}

/// The transistor that a whole line describes: the text before `%` or `*`,
/// trimmed, must be exactly one transistor card.
pub open spec fn mosfet_line(s: Seq<char>) -> Option<MOSFETView> {
    let c = without_comment(s, true);
    match mosfet_at(c, 0) {
        Some((e, m)) => if e == c.len() {
            Some(m)
        } else {
            None
        },
        None => None,
    }
}

fn channel(c: char) -> (r: Option<MosfetType>)
    ensures
        r == mosfet_type_of(c),
{
    if c == 'N' || c == 'n' {
        Some(MosfetType::NChannel)
    } else if c == 'P' || c == 'p' {
        Some(MosfetType::PChannel)
    } else {
        None
    }
}

pub fn read_mosfet(s: &[char], i: usize) -> (r: Option<(usize, MOSFET)>)
    requires
        i <= s@.len(),
    ensures
        match r {
            Some((e, x)) => mosfet_at(s@, i as int) == Some((e as int, x@)) && i < e <= s@.len(),
            None => mosfet_at(s@, i as int) is None,
        },
{
    let tag: [char; 1] = ['m'];
    assert(tag@ == seq!['m']);
    if !starts_with_no_case(s, i, &tag) || !(i + 1 < s.len()) {
        return None;
    }
    let mosfet_type = match channel(s[i + 1]) {
        Some(t) => t,
        None => return None,
    };
    let n = match scan_run1(s, i + 2, CharClass::Digit) {
        Some(n) => n,
        None => return None,
    };
    let digits = slice_range(s, i + 2, n);
    let name = match parse_u32(digits.as_slice()) {
        Some(v) => v,
        None => return None,
    };
    let (de, drain) = match read_spaced_name(s, n) {
        Some(x) => x,
        None => return None,
    };
    let (ge, gate) = match read_spaced_name(s, de) {
        Some(x) => x,
        None => return None,
    };
    let (se, source) = match read_spaced_name(s, ge) {
        Some(x) => x,
        None => return None,
    };
    let (be, bulk) = match read_spaced_name(s, se) {
        Some(x) => x,
        None => return None,
    };
    let (me, model_name) = match read_spaced_name(s, be) {
        Some(x) => x,
        None => return None,
    };
    let (pe, params) = read_spaced_params(s, me);
    let e = skip_blank_run(s, pe);
    let mosfet = MOSFET {
        name,
        drain,
        gate,
        source,
        bulk,
        model_name,
        mosfet_type,
        multiplicity: find_param(&params, 'm'),
        width: find_param(&params, 'w'),
        length: find_param(&params, 'l'),
    };
    Some((e, mosfet))
}

/// Reads a transistor card at the start of `input`; returns the rest of the
/// input and the transistor.
pub fn parse_mosfet(input: &str) -> (r: Result<(&str, MOSFET), ParseFailure>)
    ensures
        match r {
            Ok((rest, x)) => mosfet_at(input@, 0) == Some((input@.len() - rest@.len(), x@))
                && rest@ == input@.skip(input@.len() - rest@.len()),
            Err(f) => mosfet_at(input@, 0) is None && f == ParseFailure::Error,
        },
{
    let s = to_chars(input);
    match read_mosfet(s.as_slice(), 0) {
        Some((e, x)) => Ok((remainder(input, e), x)),
        None => Err(ParseFailure::Error),
    }
}

impl MOSFET {
    /// Returns the identifier of the transistor: `M` followed by its number.
    pub fn identifier(&self) -> (r: String)
        ensures
            r@ == seq!['M'] + decimal_digits(self.name as nat),
    {
        let digits = decimal_string(self.name as u64);
        prefixed('M', digits.as_str())
    }

    /// A copy of this transistor.
    pub fn duplicate(&self) -> (r: MOSFET)
        ensures
            r@ == self@,
    {
        MOSFET {
            name: self.name,
            drain: self.drain.clone(),
            gate: self.gate.clone(),
            source: self.source.clone(),
            bulk: self.bulk.clone(),
            model_name: self.model_name.clone(),
            mosfet_type: self.mosfet_type,
            multiplicity: duplicate_number(&self.multiplicity),
            width: duplicate_number(&self.width),
            length: duplicate_number(&self.length),
        }
    }

    /// Reads a transistor from one line: the text before a `%` or `*`
    /// comment, trimmed, must be a whole transistor card, and its number
    /// must not be 0.
    pub fn from_str(s: &str) -> (r: Result<MOSFET, Error>)
        ensures
            match r {
                Ok(x) => mosfet_line(s@) == Some(x@) && x.name != 0,
                Err(e) => e is InvalidFormat && (mosfet_line(s@) matches Some(x) ==> x.name == 0),
            },
    {
        let all = to_chars(s);
        let c = strip_comment(all.as_slice(), true);
        if c.len() == 0 {
            return Err(Error::InvalidFormat("Empty line after comment removal".to_owned()));
        }
        match read_mosfet(c.as_slice(), 0) {
            Some((e, x)) => {
                if e != c.len() {
                    return Err(Error::InvalidFormat(card_message("Failed to parse MOSFET line '", c.as_slice(), "'. Expected format: M<name> D G S B <model>")));
                }
                if x.name == 0 {
                    return Err(Error::InvalidFormat(framed("MOSFET name cannot be zero: '", s, "'")));
                }
                Ok(x)
            },
            None => Err(Error::InvalidFormat(card_message("Failed to parse MOSFET line '", c.as_slice(), "'. Expected format: M<name> D G S B <model>"))),
        }
    }
}

impl std::str::FromStr for MOSFET {
    type Err = Error;

    fn from_str(s: &str) -> (r: Result<MOSFET, Error>)
        ensures
            match r {
                Ok(x) => mosfet_line(s@) == Some(x@) && x.name != 0,
                Err(e) => e is InvalidFormat && (mosfet_line(s@) matches Some(x) ==> x.name == 0),
            },
    {
        MOSFET::from_str(s)
    }
}

} // verus!
