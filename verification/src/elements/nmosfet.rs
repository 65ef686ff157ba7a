//! N-channel MOSFETs: `MN<name> <drain> <gate> <source> <bulk> <model> [KEY=VALUE ...]`.

use vstd::prelude::*;

use crate::elements::bjt::option_view;
use crate::elements::{find_param, instance_param, read_spaced_params, spaced_key_values};
use crate::error::Error;
use crate::models::nmosfet::{named_nmosfet_model, NMosfetModel, NMosfetModelView};
use crate::number::{Number, NumberView};
use crate::syntax::{
    name_at, read_spaced_name, remainder, scan_name, skip_blank_run, skip_blanks, spaced_name,
    ParseFailure,
};
use crate::text::{
    card_message,
    prefixed, starts_no_case, starts_with_no_case, strip_comment, string_from, to_chars,
    without_comment,
};

verus! {

/// An N-channel MOSFET of a circuit.
#[derive(Debug, Clone)]
pub struct NMOSFET {
    /// Name of the transistor (the text after `MN`).
    pub name: String,
    /// Drain node.
    pub drain: String,
    /// Gate node.
    pub gate: String,
    /// Source node.
    pub source: String,
    /// Bulk node.
    pub bulk: String,
    /// The name of the transistor model to use.
    pub model_name: String,
    /// The model that the circuit's `.model` card for `model_name` gave.
    pub model: NMosfetModel,
    /// The multiplicity (`M=`), as written.
    pub multiplicity: Option<Number>,
    /// The channel width (`W=`).
    pub width: Option<Number>,
    /// The channel length (`L=`).
    pub length: Option<Number>,
}

pub struct NMOSFETView {
    pub name: Seq<char>,
    pub drain: Seq<char>,
    pub gate: Seq<char>,
    pub source: Seq<char>,
    pub bulk: Seq<char>,
    pub model_name: Seq<char>,
    pub model: NMosfetModelView,
    pub multiplicity: Option<NumberView>,
    pub width: Option<NumberView>,
    pub length: Option<NumberView>,
}

impl View for NMOSFET {
    type V = NMOSFETView;

    open spec fn view(&self) -> NMOSFETView {
        NMOSFETView {
            name: self.name@,
            drain: self.drain@,
            gate: self.gate@,
            source: self.source@,
            bulk: self.bulk@,
            model_name: self.model_name@,
            model: self.model@,
            multiplicity: option_view(self.multiplicity),
            width: option_view(self.width),
            length: option_view(self.length),
        }
    }
}

/// The card `MN<name> <drain> <gate> <source> <bulk> <model> [KEY=VALUE ...]`
/// at `s[i..]`: `MN` in any case, a name glued to it, four node names and a
/// model name each after at least one blank, then ` KEY=VALUE` pairs and
/// trailing blanks. The last `M`, `W` and `L` pair (in either case) gives
/// the multiplicity, width and length.
pub open spec fn nmosfet_at(s: Seq<char>, i: int) -> Option<(int, NMOSFETView)> {
    if !starts_no_case(s, i, seq!['m', 'n']) {
        None
    } else {
        match name_at(s, i + 2) {
            None => None,
            Some(n) => match spaced_name(s, n) {
                None => None,
                Some((db, de)) => match spaced_name(s, de) {
                    None => None,
                    Some((gb, ge)) => match spaced_name(s, ge) {
                        None => None,
                        Some((sb, se)) => match spaced_name(s, se) {
                            None => None,
                            Some((bb, be)) => match spaced_name(s, be) {
                                None => None,
                                Some((mb, me)) => {
                                    let (pe, kvs) = spaced_key_values(s, me);
                                    Some(
                                        (
                                            skip_blanks(s, pe),
                                            NMOSFETView {
                                                name: s.subrange(i + 2, n),
                                                drain: s.subrange(db, de),
                                                gate: s.subrange(gb, ge),
                                                source: s.subrange(sb, se),
                                                bulk: s.subrange(bb, be),
                                                model_name: s.subrange(mb, me),
                                                model: named_nmosfet_model(
                                                    seq!['d', 'e', 'f', 'a', 'u', 'l', 't'],
                                                ),
                                                multiplicity: instance_param(kvs, 'm'),
                                                width: instance_param(kvs, 'w'),
                                                length: instance_param(kvs, 'l'),
                                            },
                                        ),
                                    )
                                },
                            },
                        },
                    },
                },
            },
        }
    }
}

/// The transistor that a whole line describes: the text before `%` or `*`,
/// trimmed, must be exactly one transistor card.
pub open spec fn nmosfet_line(s: Seq<char>) -> Option<NMOSFETView> {
    let c = without_comment(s, true);
    match nmosfet_at(c, 0) {
        Some((e, m)) => if e == c.len() {
            Some(m)
        } else {
            None
        },
        None => None,
    }
}

pub fn read_nmosfet(s: &[char], i: usize) -> (r: Option<(usize, NMOSFET)>)
    requires
        i <= s@.len(),
    ensures
        match r {
            Some((e, x)) => nmosfet_at(s@, i as int) == Some((e as int, x@)) && i < e <= s@.len(),
            None => nmosfet_at(s@, i as int) is None,
        },
{
    let tag: [char; 2] = ['m', 'n'];
    assert(tag@ == seq!['m', 'n']);
    if !starts_with_no_case(s, i, &tag) {
        return None;
    }
    let n = match scan_name(s, i + 2) {
        Some(n) => n,
        None => return None,
    };
    let (de, drain) = match read_spaced_name(s, n) {
        Some(x) => x,
        None => return None,
    };
    let (ge, gate) = match read_spaced_name(s, de) {
        Some(x) => x,
        None => return None,
    };
    let (se, source) = match read_spaced_name(s, ge) {
        Some(x) => x,
        None => return None,
    };
    let (be, bulk) = match read_spaced_name(s, se) {
        Some(x) => x,
        None => return None,
    };
    let (me, model_name) = match read_spaced_name(s, be) {
        Some(x) => x,
        None => return None,
    };
    let (pe, params) = read_spaced_params(s, me);
    let e = skip_blank_run(s, pe);
    let mosfet = NMOSFET {
        name: string_from(s, i + 2, n),
        drain,
        gate,
        source,
        bulk,
        model_name,
        model: NMosfetModel::default(),
        multiplicity: find_param(&params, 'm'),
        width: find_param(&params, 'w'),
        length: find_param(&params, 'l'),
    };
    Some((e, mosfet))
}

/// Reads a transistor card at the start of `input`; returns the rest of the
/// input and the transistor.
pub fn parse_nmosfet(input: &str) -> (r: Result<(&str, NMOSFET), ParseFailure>)
    ensures
        match r {
            Ok((rest, x)) => nmosfet_at(input@, 0) == Some((input@.len() - rest@.len(), x@))
                && rest@ == input@.skip(input@.len() - rest@.len()),
            Err(f) => nmosfet_at(input@, 0) is None && f == ParseFailure::Error,
        },
{
    let s = to_chars(input);
    match read_nmosfet(s.as_slice(), 0) {
        Some((e, x)) => Ok((remainder(input, e), x)),
        None => Err(ParseFailure::Error),
    }
}

pub fn duplicate_number(v: &Option<Number>) -> (r: Option<Number>)
    ensures
        option_view(r) == option_view(*v),
{
    match v {
        Some(n) => Some(n.duplicate()),
        None => None,
    }
}

impl NMOSFET {
    /// Returns the identifier of the transistor: `M` followed by its name.
    pub fn identifier(&self) -> (r: String)
        ensures
            r@ == seq!['M'] + self.name@,
    {
        prefixed('M', self.name.as_str())
    }

    /// A copy of this transistor.
    pub fn duplicate(&self) -> (r: NMOSFET)
        ensures
            r@ == self@,
    {
        NMOSFET {
            name: self.name.clone(),
            drain: self.drain.clone(),
            gate: self.gate.clone(),
            source: self.source.clone(),
            bulk: self.bulk.clone(),
            model_name: self.model_name.clone(),
            model: self.model.duplicate(),
            multiplicity: duplicate_number(&self.multiplicity),
            width: duplicate_number(&self.width),
            length: duplicate_number(&self.length),
        }
    }

    /// Reads a transistor from one line: the text before a `%` or `*`
    /// comment, trimmed, must be a whole transistor card.
    pub fn from_str(s: &str) -> (r: Result<NMOSFET, Error>)
        ensures
            match r {
                Ok(x) => nmosfet_line(s@) == Some(x@),
                Err(e) => nmosfet_line(s@) is None && e is InvalidFormat,
            },
    {
        let all = to_chars(s);
        let c = strip_comment(all.as_slice(), true);
        if c.len() == 0 {
            return Err(Error::InvalidFormat("Empty line after comment removal".to_owned()));
        }
        match read_nmosfet(c.as_slice(), 0) {
            Some((e, x)) => {
                if e != c.len() {
                    return Err(Error::InvalidFormat(card_message("Failed to parse MOSFET line '", c.as_slice(), "'. Expected format: M<name> D G S B <model>")));
                }
                Ok(x)
            },
            None => Err(Error::InvalidFormat(card_message("Failed to parse MOSFET line '", c.as_slice(), "'. Expected format: M<name> D G S B <model>"))),
        }
    }
}

impl std::str::FromStr for NMOSFET {
    type Err = Error;

    fn from_str(s: &str) -> (r: Result<NMOSFET, Error>)
        ensures
            match r {
                Ok(x) => nmosfet_line(s@) == Some(x@),
                Err(e) => nmosfet_line(s@) is None && e is InvalidFormat,
            },
    {
        NMOSFET::from_str(s)
    }
}

} // verus!
