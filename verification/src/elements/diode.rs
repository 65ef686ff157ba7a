//! Diodes: `D<number> <plus> <minus> [<model>]`.

use vstd::prelude::*;

use crate::error::Error;
use crate::models::diode::{named_diode_model, DiodeModel, DiodeModelView};
use crate::number::{decimal_digits, decimal_string, parse_u32, u32_value, Number, NumberView};
use crate::syntax::{name_at, read_spaced_name, remainder, scan_name, spaced_name, ParseFailure};
use crate::text::{
    card_message, framed, equal_no_case, prefixed, same_no_case, starts_no_case, starts_with_no_case, strip_comment,
    to_chars, without_comment,
};

verus! {

/// The electrical parameters of a diode.
#[derive(Debug, Clone)]
pub struct DiodeOptions {
    /// The saturation current (Is).
    pub saturation_current: Number,
    /// The parasitic resistance (Rs).
    pub parasitic_resistance: Number,
    /// The emission coefficient (N).
    pub emission_coefficient: Number,
}

pub struct DiodeOptionsView {
    pub saturation_current: NumberView,
    pub parasitic_resistance: NumberView,
    pub emission_coefficient: NumberView,
}

impl View for DiodeOptions {
    type V = DiodeOptionsView;

    open spec fn view(&self) -> DiodeOptionsView {
        DiodeOptionsView {
            saturation_current: self.saturation_current@,
            parasitic_resistance: self.parasitic_resistance@,
            emission_coefficient: self.emission_coefficient@,
        }
    }
}

/// Is = 1e-12, Rs = 0.0, N = 1.0.
pub open spec fn default_diode_options() -> DiodeOptionsView {
    let m = named_diode_model(seq![]);
    DiodeOptionsView {
        saturation_current: m.saturation_current,
        parasitic_resistance: m.parasitic_resistance,
        emission_coefficient: m.emission_coefficient,
    }
}

impl DiodeOptions {
    /// A copy of these options.
    pub fn duplicate(&self) -> (r: DiodeOptions)
        ensures
            r@ == self@,
    {
        DiodeOptions {
            saturation_current: self.saturation_current.duplicate(),
            parasitic_resistance: self.parasitic_resistance.duplicate(),
            emission_coefficient: self.emission_coefficient.duplicate(),
        }
    }
}

impl Default for DiodeOptions {
    fn default() -> (r: DiodeOptions)
        ensures
            r@ == default_diode_options(),
    {
        let m = DiodeModel::default();
        DiodeOptions {
            saturation_current: m.saturation_current,
            parasitic_resistance: m.parasitic_resistance,
            emission_coefficient: m.emission_coefficient,
        }
    }
}

/// A diode of a circuit.
#[derive(Debug, Clone)]
pub struct Diode {
    /// The number of the diode (the digits after its leading `D`).
    pub name: u32,
    /// The name of the diode model to use.
    pub model_name: String,
    /// The electrical parameters of the diode.
    pub options: DiodeOptions,
    /// The model that the circuit's `.model` card for `model_name` gave.
    pub model: DiodeModel,
    /// Positive node of the diode.
    pub plus: String,
    /// Negative node of the diode.
    pub minus: String,
}

pub struct DiodeView {
    pub name: u32,
    pub model_name: Seq<char>,
    pub options: DiodeOptionsView,
    pub model: DiodeModelView,
    pub plus: Seq<char>,
    pub minus: Seq<char>,
}

impl View for Diode {
    type V = DiodeView;

    open spec fn view(&self) -> DiodeView {
        DiodeView {
            name: self.name,
            model_name: self.model_name@,
            options: self.options@,
            model: self.model@,
            plus: self.plus@,
            minus: self.minus@,
        }
    }
}

/// The model name that a card without one gets.
pub open spec fn default_model_name() -> Seq<char> {
    seq!['d', 'e', 'f', 'a', 'u', 'l', 't']
}

/// The diode card `D<number> <plus> <minus> [<model>]` at `s[i..]`: `D` or
/// `d`, a name glued to it that reads as a `u32`, two node names and an
/// optional model name, each after at least one blank.
pub open spec fn diode_at(s: Seq<char>, i: int) -> Option<(int, DiodeView)> {
    if !starts_no_case(s, i, seq!['d']) {
        None
    } else {
        match name_at(s, i + 1) {
            None => None,
            Some(n) => match u32_value(s.subrange(i + 1, n)) {
                None => None,
                Some(number) => match spaced_name(s, n) {
                    None => None,
                    Some((pb, pe)) => match spaced_name(s, pe) {
                        None => None,
                        Some((mb, me)) => {
                            let (e, model_name) = match spaced_name(s, me) {
                                Some((b2, e2)) => (e2, s.subrange(b2, e2)),
                                None => (me, default_model_name()),
                            };
                            Some(
                                (
                                    e,
                                    DiodeView {
                                        name: number,
                                        model_name: model_name,
                                        options: default_diode_options(),
                                        model: named_diode_model(seq![]),
                                        plus: s.subrange(pb, pe),
                                        minus: s.subrange(mb, me),
                                    },
                                ),
                            )
                        },
                    },
                },
            },
        }
    }
}

/// The diode that a whole line describes: the text before `%` or `*`,
/// trimmed, must be exactly one diode card.
pub open spec fn diode_line(s: Seq<char>) -> Option<DiodeView> {
    let c = without_comment(s, true);
    match diode_at(c, 0) {
        Some((e, d)) => if e == c.len() {
            Some(d)
        } else {
            None
        },
        None => None,
    }
}

pub fn read_diode(s: &[char], i: usize) -> (r: Option<(usize, Diode)>)
    requires
        i <= s@.len(),
    ensures
        match r {
            Some((e, x)) => diode_at(s@, i as int) == Some((e as int, x@)) && i < e <= s@.len(),
            None => diode_at(s@, i as int) is None,
        },
{
    let tag: [char; 1] = ['d'];
    assert(tag@ == seq!['d']);
    if !starts_with_no_case(s, i, &tag) {
        return None;
    }
    let n = match scan_name(s, i + 1) {
        Some(n) => n,
        None => return None,
    };
    let digits = crate::text::slice_range(s, i + 1, n);
    let name = match parse_u32(digits.as_slice()) {
        Some(v) => v,
        None => return None,
    };
    let (pe, plus) = match read_spaced_name(s, n) {
        Some(x) => x,
        None => return None,
    };
    let (me, minus) = match read_spaced_name(s, pe) {
        Some(x) => x,
        None => return None,
    };
    let (e, model_name) = match read_spaced_name(s, me) {
        Some((e2, m)) => (e2, m),
        None => {
            let word: [char; 7] = ['d', 'e', 'f', 'a', 'u', 'l', 't'];
            assert(word@ == default_model_name());
            (me, crate::text::string_from(&word, 0, 7))
        },
    };
    proof {
        let word = default_model_name();
        assert(word.subrange(0, 7) == word);
    }
    let diode = Diode {
        name,
        model_name,
        options: DiodeOptions::default(),
        model: DiodeModel::default(),
        plus,
        minus,
    };
    Some((e, diode))
}

/// Reads a diode card at the start of `input`; returns the rest of the
/// input and the diode.
pub fn parse_diode(input: &str) -> (r: Result<(&str, Diode), ParseFailure>)
    ensures
        match r {
            Ok((rest, x)) => diode_at(input@, 0) == Some((input@.len() - rest@.len(), x@))
                && rest@ == input@.skip(input@.len() - rest@.len()),
            Err(f) => diode_at(input@, 0) is None && f == ParseFailure::Error,
        },
{
    let s = to_chars(input);
    match read_diode(s.as_slice(), 0) {
        Some((e, x)) => Ok((remainder(input, e), x)),
        None => Err(ParseFailure::Error),
    }
}

/// The field of the options that a model parameter sets: `IS`, `RS` or
/// `N`, in any case.
pub open spec fn set_diode_option(o: DiodeOptionsView, key: Seq<char>, v: NumberView) -> Option<
    DiodeOptionsView,
> {
    if same_no_case(key, seq!['i', 's']) {
        Some(DiodeOptionsView { saturation_current: v, ..o })
    } else if same_no_case(key, seq!['r', 's']) {
        Some(DiodeOptionsView { parasitic_resistance: v, ..o })
    } else if same_no_case(key, seq!['n']) {
        Some(DiodeOptionsView { emission_coefficient: v, ..o })
    } else {
        None
    }
}

impl Diode {
    /// Returns the identifier of the diode: `D` followed by its number.
    pub fn identifier(&self) -> (r: String)
        ensures
            r@ == seq!['D'] + decimal_digits(self.name as nat),
    {
        let digits = decimal_string(self.name as u64);
        prefixed('D', digits.as_str())
    }

    /// Sets the option that the parameter names (`IS`, `RS` or `N`, in any
    /// case); any other name is refused and leaves the diode unchanged.
    pub fn apply_model_parameter(&mut self, parameter: (&String, &Number)) -> (r: Result<
        (),
        Error,
    >)
        ensures
            match set_diode_option(old(self).options@, parameter.0@, parameter.1@) {
                Some(o) => r is Ok && final(self)@ == (DiodeView { options: o, ..old(self)@ }),
                None => r matches Err(e) && e is InvalidModelParameter && final(self)@ == old(
                    self,
                )@,
            },
    {
        let k = to_chars(parameter.0.as_str());
        let is_key: [char; 2] = ['i', 's'];
        assert(is_key@ == seq!['i', 's']);
        let rs_key: [char; 2] = ['r', 's'];
        assert(rs_key@ == seq!['r', 's']);
        let n_key: [char; 1] = ['n'];
        assert(n_key@ == seq!['n']);
        if equal_no_case(k.as_slice(), &is_key) {
            self.options.saturation_current = parameter.1.duplicate();
            Ok(())
        } else if equal_no_case(k.as_slice(), &rs_key) {
            self.options.parasitic_resistance = parameter.1.duplicate();
            Ok(())
        } else if equal_no_case(k.as_slice(), &n_key) {
            self.options.emission_coefficient = parameter.1.duplicate();
            Ok(())
        } else {
            Err(Error::InvalidModelParameter(prefixed('\'', parameter.0.as_str())))
        }
    }

    /// A copy of this diode.
    pub fn duplicate(&self) -> (r: Diode)
        ensures
            r@ == self@,
    {
        Diode {
            name: self.name,
            model_name: self.model_name.clone(),
            options: self.options.duplicate(),
            model: self.model.duplicate(),
            plus: self.plus.clone(),
            minus: self.minus.clone(),
        }
    }

    /// Reads a diode from one line: the text before a `%` or `*` comment,
    /// trimmed, must be a whole diode card, and its number must not be 0.
    pub fn from_str(s: &str) -> (r: Result<Diode, Error>)
        ensures
            match r {
                Ok(x) => diode_line(s@) == Some(x@) && x.name != 0,
                Err(e) => e is InvalidFormat && (diode_line(s@) matches Some(x) ==> x.name == 0),
            },
    {
        let all = to_chars(s);
        let c = strip_comment(all.as_slice(), true);
        match read_diode(c.as_slice(), 0) {
            Some((e, x)) => {
                if e != c.len() {
                    return Err(Error::InvalidFormat(card_message("Failed to parse diode line '", c.as_slice(), "'")));
                }
                if x.name == 0 {
                    return Err(Error::InvalidFormat(framed("Diode name cannot be zero: '", s, "'")));
                }
                Ok(x)
            },
            None => Err(Error::InvalidFormat(card_message("Failed to parse diode line '", c.as_slice(), "'"))),
        }
    }
}

impl std::str::FromStr for Diode {
    type Err = Error;

    fn from_str(s: &str) -> (r: Result<Diode, Error>)
        ensures
            match r {
                Ok(x) => diode_line(s@) == Some(x@) && x.name != 0,
                Err(e) => e is InvalidFormat && (diode_line(s@) matches Some(x) ==> x.name == 0),
            },
    {
        Diode::from_str(s)
    }
}

} // verus!
