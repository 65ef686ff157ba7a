//! `.model` cards of any device type, kept as a name, a type and the list
//! of parameters.

use vstd::prelude::*;

use crate::error::Error;
use crate::models::{number_pairs, pairs_of, parameters_at, read_parameters};
use crate::name_map::NameMap;
use crate::number::{
    ascii_text, ascii_upper, ascii_upper_text, to_uppercase, uppercase_of, Number, NumberView,
};
use crate::syntax::{blanks_at, name_at, scan_blanks, scan_name};
use crate::text::{
    card_message, chars_equal, lower, run1, run_end, scan_run, scan_run1, starts_no_case,
    starts_with_no_case, strip_comment, string_from, to_chars, without_comment, CharClass,
};

verus! {

/// The device types that a `.model` card can name.
#[derive(Debug, PartialEq, Eq, Clone)]
pub enum ModelType {
    Resistor,
    Capacitor,
    Inductor,
    VoltageSwitch,
    CurrentSwitch,
    UniformRC,
    LossyTransLine,
    Diode,
    NpnBjt,
    PnpBjt,
    NChannelJfet,
    PChannelJfet,
    NChannelMosfet,
    PChannelMosfet,
    NChannelMesfet,
    PChannelMesfet,
    PowerMosfet,
    /// Any other type, as written.
    Unknown(String),
}

pub enum ModelTypeView {
    Resistor,
    Capacitor,
    Inductor,
    VoltageSwitch,
    CurrentSwitch,
    UniformRC,
    LossyTransLine,
    Diode,
    NpnBjt,
    PnpBjt,
    NChannelJfet,
    PChannelJfet,
    NChannelMosfet,
    PChannelMosfet,
    NChannelMesfet,
    PChannelMesfet,
    PowerMosfet,
    Unknown(Seq<char>),
}

impl View for ModelType {
    type V = ModelTypeView;

    open spec fn view(&self) -> ModelTypeView {
        match self {
            ModelType::Resistor => ModelTypeView::Resistor,
            ModelType::Capacitor => ModelTypeView::Capacitor,
            ModelType::Inductor => ModelTypeView::Inductor,
            ModelType::VoltageSwitch => ModelTypeView::VoltageSwitch,
            ModelType::CurrentSwitch => ModelTypeView::CurrentSwitch,
            ModelType::UniformRC => ModelTypeView::UniformRC,
            ModelType::LossyTransLine => ModelTypeView::LossyTransLine,
            ModelType::Diode => ModelTypeView::Diode,
            ModelType::NpnBjt => ModelTypeView::NpnBjt,
            ModelType::PnpBjt => ModelTypeView::PnpBjt,
            ModelType::NChannelJfet => ModelTypeView::NChannelJfet,
            ModelType::PChannelJfet => ModelTypeView::PChannelJfet,
            ModelType::NChannelMosfet => ModelTypeView::NChannelMosfet,
            ModelType::PChannelMosfet => ModelTypeView::PChannelMosfet,
            ModelType::NChannelMesfet => ModelTypeView::NChannelMesfet,
            ModelType::PChannelMesfet => ModelTypeView::PChannelMesfet,
            ModelType::PowerMosfet => ModelTypeView::PowerMosfet,
            ModelType::Unknown(s) => ModelTypeView::Unknown(s@),
        }
    }
}

/// The type that a type keyword names, matched on its uppercase form:
/// `R`, `C`, `L`, `SW`, `CSW`, `URC`, `LTRA`, `D`, `NPN`, `PNP`, `NJF`,
/// `PJF`, `NMOS`, `PMOS`, `NMF`, `PMF`, `VDMOS`; anything else is kept as
/// written.
pub open spec fn model_type_of(s: Seq<char>) -> ModelTypeView {
    let u = uppercase_of(s);
    if u == seq!['R'] {
        ModelTypeView::Resistor
    } else if u == seq!['C'] {
        ModelTypeView::Capacitor
    } else if u == seq!['L'] {
        ModelTypeView::Inductor
    } else if u == seq!['S', 'W'] {
        ModelTypeView::VoltageSwitch
    } else if u == seq!['C', 'S', 'W'] {
        ModelTypeView::CurrentSwitch
    } else if u == seq!['U', 'R', 'C'] {
        ModelTypeView::UniformRC
    } else if u == seq!['L', 'T', 'R', 'A'] {
        ModelTypeView::LossyTransLine
    } else if u == seq!['D'] {
        ModelTypeView::Diode
    } else if u == seq!['N', 'P', 'N'] {
        ModelTypeView::NpnBjt
    } else if u == seq!['P', 'N', 'P'] {
        ModelTypeView::PnpBjt
    } else if u == seq!['N', 'J', 'F'] {
        ModelTypeView::NChannelJfet
    } else if u == seq!['P', 'J', 'F'] {
        ModelTypeView::PChannelJfet
    } else if u == seq!['N', 'M', 'O', 'S'] {
        ModelTypeView::NChannelMosfet
    } else if u == seq!['P', 'M', 'O', 'S'] {
        ModelTypeView::PChannelMosfet
    } else if u == seq!['N', 'M', 'F'] {
        ModelTypeView::NChannelMesfet
    } else if u == seq!['P', 'M', 'F'] {
        ModelTypeView::PChannelMesfet
    } else if u == seq!['V', 'D', 'M', 'O', 'S'] {
        ModelTypeView::PowerMosfet
    } else {
        ModelTypeView::Unknown(s)
    }
}

proof fn lemma_ascii_upper_case(a: char, b: char)
    requires
        (a as u32) < 128,
        (b as u32) < 128,
        lower(a) == lower(b),
    ensures
        ascii_upper(a) == ascii_upper(b),
{
}

/// A model type is read in any case: two ASCII type tokens that differ only
/// in the case of their letters give the same known type; a token of no
/// known type is kept as written, in its own case.
pub proof fn law_model_type_case(a: Seq<char>, b: Seq<char>)
    requires
        ascii_text(a),
        ascii_text(b),
        a.len() == b.len(),
        forall|i: int| 0 <= i < a.len() ==> lower(#[trigger] a[i]) == lower(b[i]),
    ensures
        uppercase_of(a) == uppercase_of(b),
        !(model_type_of(a) is Unknown) ==> model_type_of(a) == model_type_of(b),
        model_type_of(a) is Unknown <==> model_type_of(b) is Unknown,
{
    assert forall|i: int| 0 <= i < a.len() implies #[trigger] ascii_upper_text(a)[i]
        == ascii_upper_text(b)[i] by {
        lemma_ascii_upper_case(a[i], b[i]);
    }
    assert(ascii_upper_text(a) =~= ascii_upper_text(b));
}

impl ModelType {
    /// The type that a type keyword names, compared in uppercase.
    pub fn from_str(s: &str) -> (r: Result<ModelType, Error>)
        ensures
            r matches Ok(t) && t@ == model_type_of(s@),
    {
        let u = to_uppercase(s);
        let c = to_chars(u.as_str());
        let u = c.as_slice();
        let k0: [char; 1] = ['R'];
        let k1: [char; 1] = ['C'];
        let k2: [char; 1] = ['L'];
        let k3: [char; 2] = ['S', 'W'];
        let k4: [char; 3] = ['C', 'S', 'W'];
        let k5: [char; 3] = ['U', 'R', 'C'];
        let k6: [char; 4] = ['L', 'T', 'R', 'A'];
        let k7: [char; 1] = ['D'];
        let k8: [char; 3] = ['N', 'P', 'N'];
        let k9: [char; 3] = ['P', 'N', 'P'];
        let k10: [char; 3] = ['N', 'J', 'F'];
        let k11: [char; 3] = ['P', 'J', 'F'];
        let k12: [char; 4] = ['N', 'M', 'O', 'S'];
        let k13: [char; 4] = ['P', 'M', 'O', 'S'];
        let k14: [char; 3] = ['N', 'M', 'F'];
        let k15: [char; 3] = ['P', 'M', 'F'];
        let k16: [char; 5] = ['V', 'D', 'M', 'O', 'S'];
        proof {
            assert(k0@ == seq!['R']);
            assert(k1@ == seq!['C']);
            assert(k2@ == seq!['L']);
            assert(k3@ == seq!['S', 'W']);
            assert(k4@ == seq!['C', 'S', 'W']);
            assert(k5@ == seq!['U', 'R', 'C']);
            assert(k6@ == seq!['L', 'T', 'R', 'A']);
            assert(k7@ == seq!['D']);
            assert(k8@ == seq!['N', 'P', 'N']);
            assert(k9@ == seq!['P', 'N', 'P']);
            assert(k10@ == seq!['N', 'J', 'F']);
            assert(k11@ == seq!['P', 'J', 'F']);
            assert(k12@ == seq!['N', 'M', 'O', 'S']);
            assert(k13@ == seq!['P', 'M', 'O', 'S']);
            assert(k14@ == seq!['N', 'M', 'F']);
            assert(k15@ == seq!['P', 'M', 'F']);
            assert(k16@ == seq!['V', 'D', 'M', 'O', 'S']);
        }
        let t = if chars_equal(u, &k0) {
            ModelType::Resistor
        } else if chars_equal(u, &k1) {
            ModelType::Capacitor
        } else if chars_equal(u, &k2) {
            ModelType::Inductor
        } else if chars_equal(u, &k3) {
            ModelType::VoltageSwitch
        } else if chars_equal(u, &k4) {
            ModelType::CurrentSwitch
        } else if chars_equal(u, &k5) {
            ModelType::UniformRC
        } else if chars_equal(u, &k6) {
            ModelType::LossyTransLine
        } else if chars_equal(u, &k7) {
            ModelType::Diode
        } else if chars_equal(u, &k8) {
            ModelType::NpnBjt
        } else if chars_equal(u, &k9) {
            ModelType::PnpBjt
        } else if chars_equal(u, &k10) {
            ModelType::NChannelJfet
        } else if chars_equal(u, &k11) {
            ModelType::PChannelJfet
        } else if chars_equal(u, &k12) {
            ModelType::NChannelMosfet
        } else if chars_equal(u, &k13) {
            ModelType::PChannelMosfet
        } else if chars_equal(u, &k14) {
            ModelType::NChannelMesfet
        } else if chars_equal(u, &k15) {
            ModelType::PChannelMesfet
        } else if chars_equal(u, &k16) {
            ModelType::PowerMosfet
        } else {
            let all = to_chars(s);
            ModelType::Unknown(string_from(all.as_slice(), 0, all.len()))
        };
        proof {
            let all = s@;
            assert(all.subrange(0, all.len() as int) == all);
        }
        Ok(t)
    }
}

impl std::str::FromStr for ModelType {
    type Err = Error;

    fn from_str(s: &str) -> (r: Result<ModelType, Error>)
        ensures
            r matches Ok(t) && t@ == model_type_of(s@),
    {
        ModelType::from_str(s)
    }
}

/// A `.model` definition: its name, the device type and its parameters.
#[derive(Debug, Clone)]
pub struct Model {
    /// The name assigned to this model.
    pub name: String,
    /// The type of the device this model describes.
    pub model_type: ModelType,
    /// The parameters, by name.
    pub parameters: NameMap<Number>,
}

pub struct ModelCardView {
    pub name: Seq<char>,
    pub model_type: ModelTypeView,
    pub parameters: Seq<(Seq<char>, NumberView)>,
}

impl View for Model {
    type V = ModelCardView;

    open spec fn view(&self) -> ModelCardView {
        ModelCardView {
            name: self.name@,
            model_type: self.model_type@,
            parameters: number_pairs(self.parameters),
        }
    }
}

/// The card `[.]model <name> <type>(<parameters>)` at `s[i..]`: an optional
/// dot, the keyword in any case, blanks, a name, blanks, the type in
/// letters, optional blanks and line breaks, and the parameter list.
pub open spec fn model_card_at(s: Seq<char>, i: int) -> Option<(int, ModelCardView)> {
    let p = if 0 <= i < s.len() && s[i] == '.' {
        i + 1
    } else {
        i
    };
    if !starts_no_case(s, p, seq!['m', 'o', 'd', 'e', 'l']) {
        None
    } else {
        match blanks_at(s, p + 5) {
            None => None,
            Some(b) => match name_at(s, b) {
                None => None,
                Some(n) => match blanks_at(s, n) {
                    None => None,
                    Some(t) => match run1(s, t, CharClass::Letter) {
                        None => None,
                        Some(a) => match parameters_at(s, run_end(s, a, CharClass::LineSpace)) {
                            None => None,
                            Some((e, kvs)) => Some(
                                (
                                    e,
                                    ModelCardView {
                                        name: s.subrange(b, n),
                                        model_type: model_type_of(s.subrange(t, a)),
                                        parameters: pairs_of(kvs),
                                    },
                                ),
                            ),
                        },
                    },
                },
            },
        }
    }
}

/// The model that a whole line defines: the text before `%` or `*`,
/// trimmed, must be exactly one model card.
pub open spec fn model_card_line(s: Seq<char>) -> Option<ModelCardView> {
    let c = without_comment(s, true);
    match model_card_at(c, 0) {
        Some((e, m)) => if e == c.len() {
            Some(m)
        } else {
            None
        },
        None => None,
    }
}

fn read_model_card(s: &[char], i: usize) -> (r: Option<(usize, Model)>)
    requires
        i <= s@.len(),
    ensures
        match r {
            Some((e, m)) => model_card_at(s@, i as int) == Some((e as int, m@)) && i < e
                <= s@.len(),
            None => model_card_at(s@, i as int) is None,
        },
{
    let p = if i < s.len() && s[i] == '.' {
        i + 1
    } else {
        i
    };
    let key: [char; 5] = ['m', 'o', 'd', 'e', 'l'];
    assert(key@ == seq!['m', 'o', 'd', 'e', 'l']);
    if !starts_with_no_case(s, p, &key) {
        return None;
    }
    let b = match scan_blanks(s, p + 5) {
        Some(b) => b,
        None => return None,
    };
    let n = match scan_name(s, b) {
        Some(n) => n,
        None => return None,
    };
    let t = match scan_blanks(s, n) {
        Some(t) => t,
        None => return None,
    };
    let a = match scan_run1(s, t, CharClass::Letter) {
        Some(a) => a,
        None => return None,
    };
    let m = scan_run(s, a, CharClass::LineSpace);
    match read_parameters(s, m) {
        None => None,
        Some((e, parameters)) => {
            let kind = string_from(s, t, a);
            let model_type = match ModelType::from_str(kind.as_str()) {
                Ok(x) => x,
                Err(_) => return None,
            };
            Some((e, Model { name: string_from(s, b, n), model_type, parameters }))
        },
    }
}

impl Model {
    /// Reads a model from one line: the text before a `%` or `*` comment,
    /// trimmed, must be a whole model card.
    pub fn from_str(s: &str) -> (r: Result<Model, Error>)
        ensures
            match r {
                Ok(m) => model_card_line(s@) == Some(m@),
                Err(e) => model_card_line(s@) is None && e is InvalidFormat,
            },
    {
        let all = to_chars(s);
        let c = strip_comment(all.as_slice(), true);
        if c.len() == 0 {
            return Err(Error::InvalidFormat("Empty line after comment removal".to_owned()));
        }
        match read_model_card(c.as_slice(), 0) {
            Some((e, m)) => {
                if e != c.len() {
                    return Err(Error::InvalidFormat(card_message("Failed to parse .model line '", c.as_slice(), "'")));
                }
                Ok(m)
            },
            None => Err(Error::InvalidFormat(card_message("Failed to parse .model line '", c.as_slice(), "'"))),
        }
    }
}

impl std::str::FromStr for Model {
    type Err = Error;

    fn from_str(s: &str) -> (r: Result<Model, Error>)
        ensures
            match r {
                Ok(m) => model_card_line(s@) == Some(m@),
                Err(e) => model_card_line(s@) is None && e is InvalidFormat,
            },
    {
        Model::from_str(s)
    }
}

/// The type keywords and the types they name, compared on the keyword's
/// uppercase form (`NMOS` is the N-channel MOSFET, `PMOS` the P-channel
/// one, `D` the diode, and so on); any other keyword is kept as written.
pub proof fn law_model_type_names(s: Seq<char>)
    ensures
        uppercase_of(s) == seq!['R'] ==> model_type_of(s) == ModelTypeView::Resistor,
        uppercase_of(s) == seq!['C'] ==> model_type_of(s) == ModelTypeView::Capacitor,
        uppercase_of(s) == seq!['L'] ==> model_type_of(s) == ModelTypeView::Inductor,
        uppercase_of(s) == seq!['S', 'W'] ==> model_type_of(s) == ModelTypeView::VoltageSwitch,
        uppercase_of(s) == seq!['C', 'S', 'W'] ==> model_type_of(s) == ModelTypeView::CurrentSwitch,
        uppercase_of(s) == seq!['U', 'R', 'C'] ==> model_type_of(s) == ModelTypeView::UniformRC,
        uppercase_of(s) == seq!['L', 'T', 'R', 'A'] ==> model_type_of(s) == ModelTypeView::LossyTransLine,
        uppercase_of(s) == seq!['D'] ==> model_type_of(s) == ModelTypeView::Diode,
        uppercase_of(s) == seq!['N', 'P', 'N'] ==> model_type_of(s) == ModelTypeView::NpnBjt,
        uppercase_of(s) == seq!['P', 'N', 'P'] ==> model_type_of(s) == ModelTypeView::PnpBjt,
        uppercase_of(s) == seq!['N', 'J', 'F'] ==> model_type_of(s) == ModelTypeView::NChannelJfet,
        uppercase_of(s) == seq!['P', 'J', 'F'] ==> model_type_of(s) == ModelTypeView::PChannelJfet,
        uppercase_of(s) == seq!['N', 'M', 'O', 'S'] ==> model_type_of(s) == ModelTypeView::NChannelMosfet,
        uppercase_of(s) == seq!['P', 'M', 'O', 'S'] ==> model_type_of(s) == ModelTypeView::PChannelMosfet,
        uppercase_of(s) == seq!['N', 'M', 'F'] ==> model_type_of(s) == ModelTypeView::NChannelMesfet,
        uppercase_of(s) == seq!['P', 'M', 'F'] ==> model_type_of(s) == ModelTypeView::PChannelMesfet,
        uppercase_of(s) == seq!['V', 'D', 'M', 'O', 'S'] ==> model_type_of(s) == ModelTypeView::PowerMosfet,
        (uppercase_of(s) != seq!['R'] && uppercase_of(s) != seq!['C'] && uppercase_of(s) != seq!['L'] && uppercase_of(s) != seq!['S', 'W'] && uppercase_of(s) != seq!['C', 'S', 'W'] && uppercase_of(s) != seq!['U', 'R', 'C'] && uppercase_of(s) != seq!['L', 'T', 'R', 'A'] && uppercase_of(s) != seq!['D'] && uppercase_of(s) != seq!['N', 'P', 'N'] && uppercase_of(s) != seq!['P', 'N', 'P'] && uppercase_of(s) != seq!['N', 'J', 'F'] && uppercase_of(s) != seq!['P', 'J', 'F'] && uppercase_of(s) != seq!['N', 'M', 'O', 'S'] && uppercase_of(s) != seq!['P', 'M', 'O', 'S'] && uppercase_of(s) != seq!['N', 'M', 'F'] && uppercase_of(s) != seq!['P', 'M', 'F'] && uppercase_of(s) != seq!['V', 'D', 'M', 'O', 'S']) ==> model_type_of(s) == ModelTypeView::Unknown(s),
{
    let u = uppercase_of(s);
    if u == seq!['R'] {
        assert(u.len() == 1);
        assert(u[0] == 'R');
    }
    if u == seq!['C'] {
        assert(u.len() == 1);
        assert(u[0] == 'C');
    }
    if u == seq!['L'] {
        assert(u.len() == 1);
        assert(u[0] == 'L');
    }
    if u == seq!['S', 'W'] {
        assert(u.len() == 2);
        assert(u[0] == 'S');
        assert(u[1] == 'W');
    }
    if u == seq!['C', 'S', 'W'] {
        assert(u.len() == 3);
        assert(u[0] == 'C');
        assert(u[1] == 'S');
        assert(u[2] == 'W');
    }
    if u == seq!['U', 'R', 'C'] {
        assert(u.len() == 3);
        assert(u[0] == 'U');
        assert(u[1] == 'R');
        assert(u[2] == 'C');
    }
    if u == seq!['L', 'T', 'R', 'A'] {
        assert(u.len() == 4);
        assert(u[0] == 'L');
        assert(u[1] == 'T');
        assert(u[2] == 'R');
        assert(u[3] == 'A');
    }
    if u == seq!['D'] {
        assert(u.len() == 1);
        assert(u[0] == 'D');
    }
    if u == seq!['N', 'P', 'N'] {
        assert(u.len() == 3);
        assert(u[0] == 'N');
        assert(u[1] == 'P');
        assert(u[2] == 'N');
    }
    if u == seq!['P', 'N', 'P'] {
        assert(u.len() == 3);
        assert(u[0] == 'P');
        assert(u[1] == 'N');
        assert(u[2] == 'P');
    }
    if u == seq!['N', 'J', 'F'] {
        assert(u.len() == 3);
        assert(u[0] == 'N');
        assert(u[1] == 'J');
        assert(u[2] == 'F');
    }
    if u == seq!['P', 'J', 'F'] {
        assert(u.len() == 3);
        assert(u[0] == 'P');
        assert(u[1] == 'J');
        assert(u[2] == 'F');
    }
    if u == seq!['N', 'M', 'O', 'S'] {
        assert(u.len() == 4);
        assert(u[0] == 'N');
        assert(u[1] == 'M');
        assert(u[2] == 'O');
        assert(u[3] == 'S');
    }
    if u == seq!['P', 'M', 'O', 'S'] {
        assert(u.len() == 4);
        assert(u[0] == 'P');
        assert(u[1] == 'M');
        assert(u[2] == 'O');
        assert(u[3] == 'S');
    }
    if u == seq!['N', 'M', 'F'] {
        assert(u.len() == 3);
        assert(u[0] == 'N');
        assert(u[1] == 'M');
        assert(u[2] == 'F');
    }
    if u == seq!['P', 'M', 'F'] {
        assert(u.len() == 3);
        assert(u[0] == 'P');
        assert(u[1] == 'M');
        assert(u[2] == 'F');
    }
    if u == seq!['V', 'D', 'M', 'O', 'S'] {
        assert(u.len() == 5);
        assert(u[0] == 'V');
        assert(u[1] == 'D');
        assert(u[2] == 'M');
        assert(u[3] == 'O');
        assert(u[4] == 'S');
    }
}

/// A type's view is the type of the same name.
pub proof fn law_model_type_view(t: ModelType)
    ensures
        (t is Resistor) == (t@ is Resistor),
        (t is Capacitor) == (t@ is Capacitor),
        (t is Inductor) == (t@ is Inductor),
        (t is VoltageSwitch) == (t@ is VoltageSwitch),
        (t is CurrentSwitch) == (t@ is CurrentSwitch),
        (t is UniformRC) == (t@ is UniformRC),
        (t is LossyTransLine) == (t@ is LossyTransLine),
        (t is Diode) == (t@ is Diode),
        (t is NpnBjt) == (t@ is NpnBjt),
        (t is PnpBjt) == (t@ is PnpBjt),
        (t is NChannelJfet) == (t@ is NChannelJfet),
        (t is PChannelJfet) == (t@ is PChannelJfet),
        (t is NChannelMosfet) == (t@ is NChannelMosfet),
        (t is PChannelMosfet) == (t@ is PChannelMosfet),
        (t is NChannelMesfet) == (t@ is NChannelMesfet),
        (t is PChannelMesfet) == (t@ is PChannelMesfet),
        (t is PowerMosfet) == (t@ is PowerMosfet),
        (t is Unknown) == (t@ is Unknown),
{
}

} // verus!
