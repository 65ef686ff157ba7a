//! A diode model: `.model <name> D (IS=... RS=... N=...)`.

use vstd::prelude::*;

use crate::models::{last_value, number_pairs, ModelTrait};
use crate::name_map::NameMap;
use crate::number::{Number, NumberView};
use crate::text::{equal_no_case, matches_no_case, push_char, same_no_case};

verus! {

/// A diode model: `.model <name> D (IS=... RS=... N=...)`.
#[derive(Debug, Clone)]
pub struct DiodeModel {
    /// The name that the `.model` card gave.
    pub name: String,
    /// The saturation current (parameter `IS`).
    pub saturation_current: Number,
    /// The parasitic resistance (parameter `RS`).
    pub parasitic_resistance: Number,
    /// The emission coefficient (parameter `N`).
    pub emission_coefficient: Number,
}

pub struct DiodeModelView {
    pub name: Seq<char>,
    pub saturation_current: NumberView,
    pub parasitic_resistance: NumberView,
    pub emission_coefficient: NumberView,
}

impl View for DiodeModel {
    type V = DiodeModelView;

    open spec fn view(&self) -> DiodeModelView {
        DiodeModelView {
            name: self.name@,
            saturation_current: self.saturation_current@,
            parasitic_resistance: self.parasitic_resistance@,
            emission_coefficient: self.emission_coefficient@,
        }
    }
}

/// The model named `name` with the default parameters.
pub open spec fn named_diode_model(name: Seq<char>) -> DiodeModelView {
    DiodeModelView {
        name: name,
        saturation_current: NumberView { literal: seq!['1', 'e', '-', '1', '2'], power_of_ten: 0 },
        parasitic_resistance: NumberView { literal: seq!['0', '.', '0'], power_of_ten: 0 },
        emission_coefficient: NumberView { literal: seq!['1', '.', '0'], power_of_ten: 0 },
    }
}

/// One parameter applied to a model: the key, compared up to case, picks the
/// field; other keys leave the model unchanged.
pub open spec fn apply_diode_parameter(m: DiodeModelView, p: (Seq<char>, NumberView)) -> DiodeModelView {
    if same_no_case(p.0, seq!['i', 's']) {
        DiodeModelView { saturation_current: p.1, ..m }
    } else if same_no_case(p.0, seq!['r', 's']) {
        DiodeModelView { parasitic_resistance: p.1, ..m }
    } else if same_no_case(p.0, seq!['n']) {
        DiodeModelView { emission_coefficient: p.1, ..m }
    } else {
        m
    }
}

/// The parameters applied one after the other, in order.
pub open spec fn apply_diode_parameters(m: DiodeModelView, ps: Seq<(Seq<char>, NumberView)>) -> DiodeModelView
    decreases ps.len(),
{
    if ps.len() == 0 {
        m
    } else {
        apply_diode_parameter(apply_diode_parameters(m, ps.drop_last()), ps.last())
    }
}

impl DiodeModel {
    /// The model named `name` with the default parameters.
    pub fn named(name: String) -> (r: DiodeModel)
        ensures
            r@ == named_diode_model(name@),
    {
        let saturation_current_chars: [char; 5] = ['1', 'e', '-', '1', '2'];
        assert(saturation_current_chars@ == seq!['1', 'e', '-', '1', '2']);
        let parasitic_resistance_chars: [char; 3] = ['0', '.', '0'];
        assert(parasitic_resistance_chars@ == seq!['0', '.', '0']);
        let emission_coefficient_chars: [char; 3] = ['1', '.', '0'];
        assert(emission_coefficient_chars@ == seq!['1', '.', '0']);
        DiodeModel {
            name,
            saturation_current: Number::from_literal(&saturation_current_chars),
            parasitic_resistance: Number::from_literal(&parasitic_resistance_chars),
            emission_coefficient: Number::from_literal(&emission_coefficient_chars),
        }
    }

    /// A copy of this model.
    pub fn duplicate(&self) -> (r: DiodeModel)
        ensures
            r@ == self@,
    {
        DiodeModel {
            name: self.name.clone(),
            saturation_current: self.saturation_current.duplicate(),
            parasitic_resistance: self.parasitic_resistance.duplicate(),
            emission_coefficient: self.emission_coefficient.duplicate(),
        }
    }

    /// Sets the fields that the parameters name, in the order of the map;
    /// keys are compared up to case and unknown keys are ignored.
    pub fn apply_model_parameters(&mut self, parameters: &NameMap<Number>)
        ensures
            final(self)@ == apply_diode_parameters(old(self)@, number_pairs(*parameters)),
    {
        let n = parameters.len();
        let ghost ps = number_pairs(*parameters);
        let ghost start = self@;
        let mut i: usize = 0;
        while i < n
            invariant
                i <= n,
                n == parameters.pairs().len(),
                ps == number_pairs(*parameters),
                self@ == apply_diode_parameters(start, ps.take(i as int)),
            decreases n - i,
        {
            let (key, value) = parameters.entry(i);
            let k = crate::text::to_chars(key.as_str());
            let key_saturation_current: [char; 2] = ['i', 's'];
            assert(key_saturation_current@ == seq!['i', 's']);
            let key_parasitic_resistance: [char; 2] = ['r', 's'];
            assert(key_parasitic_resistance@ == seq!['r', 's']);
            let key_emission_coefficient: [char; 1] = ['n'];
            assert(key_emission_coefficient@ == seq!['n']);
            assert(ps[i as int] == (k@, value@));
            assert(ps.take(i + 1).drop_last() == ps.take(i as int));
            assert(ps.take(i + 1).last() == ps[i as int]);
            if equal_no_case(k.as_slice(), &key_saturation_current) {
                self.saturation_current = value.duplicate();
            } else if equal_no_case(k.as_slice(), &key_parasitic_resistance) {
                self.parasitic_resistance = value.duplicate();
            } else if equal_no_case(k.as_slice(), &key_emission_coefficient) {
                self.emission_coefficient = value.duplicate();
            }
            i += 1;
        }
        assert(ps.take(n as int) == ps);
    }
}

impl Default for DiodeModel {
    fn default() -> (r: DiodeModel)
        ensures
            r@ == named_diode_model(seq![]),
    {
        let mut name = String::new();
        assert(name@ == Seq::<char>::empty());
        DiodeModel::named(name)
    }
}

impl ModelTrait for DiodeModel {
    fn apply_model_parameters(&mut self, parameters: &NameMap<Number>)
        ensures
            final(self)@ == apply_diode_parameters(old(self)@, number_pairs(*parameters)),
    {
        DiodeModel::apply_model_parameters(self, parameters)
    }
}

/// Each parameter sets its own field, whatever the case of its key: after
/// a list of parameters the saturation current is the value of the last
/// `IS`, the parasitic resistance that of the last `RS` and the emission
/// coefficient that of the last `N`; a field that no parameter names keeps
/// its value, and so does the name.
pub proof fn law_diode_parameters(m: DiodeModelView, ps: Seq<(Seq<char>, NumberView)>)
    ensures
        apply_diode_parameters(m, ps).name == m.name,
        apply_diode_parameters(m, ps).saturation_current == last_value(
            ps,
            seq!['i', 's'],
            m.saturation_current,
        ),
        apply_diode_parameters(m, ps).parasitic_resistance == last_value(
            ps,
            seq!['r', 's'],
            m.parasitic_resistance,
        ),
        apply_diode_parameters(m, ps).emission_coefficient == last_value(
            ps,
            seq!['n'],
            m.emission_coefficient,
        ),
    decreases ps.len(),
{
    if ps.len() > 0 {
        law_diode_parameters(m, ps.drop_last());
        let k = ps.last().0;
        if same_no_case(k, seq!['i', 's']) {
            assert(matches_no_case(k[0int + 0int], seq!['i', 's'][0]));
        }
        if same_no_case(k, seq!['r', 's']) {
            assert(matches_no_case(k[0int + 0int], seq!['r', 's'][0]));
        }
    }
}

/// The model that a name gives before any parameter: that name, a 1e-12 A
/// saturation current, no parasitic resistance and an emission
/// coefficient of 1.
pub proof fn law_diode_defaults(name: Seq<char>)
    ensures
        named_diode_model(name).name == name,
        named_diode_model(name).saturation_current == (NumberView {
            literal: seq!['1', 'e', '-', '1', '2'],
            power_of_ten: 0,
        }),
        named_diode_model(name).parasitic_resistance == (NumberView { literal: seq!['0', '.', '0'], power_of_ten: 0 }),
        named_diode_model(name).emission_coefficient == (NumberView { literal: seq!['1', '.', '0'], power_of_ten: 0 }),
{
}

} // verus!
