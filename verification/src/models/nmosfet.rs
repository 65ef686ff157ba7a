//! An N-channel MOSFET model: `.model <name> NMOS (W=... L=... VTO=... KP=... LAMBDA=...)`.

use vstd::prelude::*;

use crate::models::{last_value, number_pairs, ModelTrait};
use crate::name_map::NameMap;
use crate::number::{Number, NumberView};
use crate::text::{equal_no_case, matches_no_case, push_char, same_no_case};

verus! {

/// An N-channel MOSFET model: `.model <name> NMOS (W=... L=... VTO=... KP=... LAMBDA=...)`.
#[derive(Debug, Clone)]
pub struct NMosfetModel {
    /// The name that the `.model` card gave.
    pub name: String,
    /// The channel width in meters (parameter `W`).
    pub width: Number,
    /// The channel length in meters (parameter `L`).
    pub length: Number,
    /// The threshold voltage in volts (parameter `VTO`).
    pub voltage_threshold: Number,
    /// The process transconductance in A/V² (parameter `KP`).
    pub process_transconductance: Number,
    /// The channel length modulation in 1/V (parameter `LAMBDA`).
    pub channel_length_modulation: Number,
}

pub struct NMosfetModelView {
    pub name: Seq<char>,
    pub width: NumberView,
    pub length: NumberView,
    pub voltage_threshold: NumberView,
    pub process_transconductance: NumberView,
    pub channel_length_modulation: NumberView,
}

impl View for NMosfetModel {
    type V = NMosfetModelView;

    open spec fn view(&self) -> NMosfetModelView {
        NMosfetModelView {
            name: self.name@,
            width: self.width@,
            length: self.length@,
            voltage_threshold: self.voltage_threshold@,
            process_transconductance: self.process_transconductance@,
            channel_length_modulation: self.channel_length_modulation@,
        }
    }
}

/// The model named `name` with the default parameters.
pub open spec fn named_nmosfet_model(name: Seq<char>) -> NMosfetModelView {
    NMosfetModelView {
        name: name,
        width: NumberView { literal: seq!['1', 'e', '-', '6'], power_of_ten: 0 },
        length: NumberView { literal: seq!['1', 'e', '-', '6'], power_of_ten: 0 },
        voltage_threshold: NumberView { literal: seq!['0', '.', '0'], power_of_ten: 0 },
        process_transconductance: NumberView { literal: seq!['2', 'e', '-', '5'], power_of_ten: 0 },
        channel_length_modulation: NumberView { literal: seq!['0', '.', '0', '2'], power_of_ten: 0 },
    }
}

/// One parameter applied to a model: the key, compared up to case, picks the
/// field; other keys leave the model unchanged.
pub open spec fn apply_nmosfet_parameter(m: NMosfetModelView, p: (Seq<char>, NumberView)) -> NMosfetModelView {
    if same_no_case(p.0, seq!['w']) {
        NMosfetModelView { width: p.1, ..m }
    } else if same_no_case(p.0, seq!['l']) {
        NMosfetModelView { length: p.1, ..m }
    } else if same_no_case(p.0, seq!['v', 't', 'o']) {
        NMosfetModelView { voltage_threshold: p.1, ..m }
    } else if same_no_case(p.0, seq!['k', 'p']) {
        NMosfetModelView { process_transconductance: p.1, ..m }
    } else if same_no_case(p.0, seq!['l', 'a', 'm', 'b', 'd', 'a']) {
        NMosfetModelView { channel_length_modulation: p.1, ..m }
    } else {
        m
    }
}

/// The parameters applied one after the other, in order.
pub open spec fn apply_nmosfet_parameters(m: NMosfetModelView, ps: Seq<(Seq<char>, NumberView)>) -> NMosfetModelView
    decreases ps.len(),
{
    if ps.len() == 0 {
        m
    } else {
        apply_nmosfet_parameter(apply_nmosfet_parameters(m, ps.drop_last()), ps.last())
    }
}

impl NMosfetModel {
    /// The model named `name` with the default parameters.
    pub fn named(name: String) -> (r: NMosfetModel)
        ensures
            r@ == named_nmosfet_model(name@),
    {
        let width_chars: [char; 4] = ['1', 'e', '-', '6'];
        assert(width_chars@ == seq!['1', 'e', '-', '6']);
        let length_chars: [char; 4] = ['1', 'e', '-', '6'];
        assert(length_chars@ == seq!['1', 'e', '-', '6']);
        let voltage_threshold_chars: [char; 3] = ['0', '.', '0'];
        assert(voltage_threshold_chars@ == seq!['0', '.', '0']);
        let process_transconductance_chars: [char; 4] = ['2', 'e', '-', '5'];
        assert(process_transconductance_chars@ == seq!['2', 'e', '-', '5']);
        let channel_length_modulation_chars: [char; 4] = ['0', '.', '0', '2'];
        assert(channel_length_modulation_chars@ == seq!['0', '.', '0', '2']);
        NMosfetModel {
            name,
            width: Number::from_literal(&width_chars),
            length: Number::from_literal(&length_chars),
            voltage_threshold: Number::from_literal(&voltage_threshold_chars),
            process_transconductance: Number::from_literal(&process_transconductance_chars),
            channel_length_modulation: Number::from_literal(&channel_length_modulation_chars),
        }
    }

    /// A copy of this model.
    pub fn duplicate(&self) -> (r: NMosfetModel)
        ensures
            r@ == self@,
    {
        NMosfetModel {
            name: self.name.clone(),
            width: self.width.duplicate(),
            length: self.length.duplicate(),
            voltage_threshold: self.voltage_threshold.duplicate(),
            process_transconductance: self.process_transconductance.duplicate(),
            channel_length_modulation: self.channel_length_modulation.duplicate(),
        }
    }

    /// Sets the fields that the parameters name, in the order of the map;
    /// keys are compared up to case and unknown keys are ignored.
    pub fn apply_model_parameters(&mut self, parameters: &NameMap<Number>)
        ensures
            final(self)@ == apply_nmosfet_parameters(old(self)@, number_pairs(*parameters)),
    {
        let n = parameters.len();
        let ghost ps = number_pairs(*parameters);
        let ghost start = self@;
        let mut i: usize = 0;
        while i < n
            invariant
                i <= n,
                n == parameters.pairs().len(),
                ps == number_pairs(*parameters),
                self@ == apply_nmosfet_parameters(start, ps.take(i as int)),
            decreases n - i,
        {
            let (key, value) = parameters.entry(i);
            let k = crate::text::to_chars(key.as_str());
            let key_width: [char; 1] = ['w'];
            assert(key_width@ == seq!['w']);
            let key_length: [char; 1] = ['l'];
            assert(key_length@ == seq!['l']);
            let key_voltage_threshold: [char; 3] = ['v', 't', 'o'];
            assert(key_voltage_threshold@ == seq!['v', 't', 'o']);
            let key_process_transconductance: [char; 2] = ['k', 'p'];
            assert(key_process_transconductance@ == seq!['k', 'p']);
            let key_channel_length_modulation: [char; 6] = ['l', 'a', 'm', 'b', 'd', 'a'];
            assert(key_channel_length_modulation@ == seq!['l', 'a', 'm', 'b', 'd', 'a']);
            assert(ps[i as int] == (k@, value@));
            assert(ps.take(i + 1).drop_last() == ps.take(i as int));
            assert(ps.take(i + 1).last() == ps[i as int]);
            if equal_no_case(k.as_slice(), &key_width) {
                self.width = value.duplicate();
            } else if equal_no_case(k.as_slice(), &key_length) {
                self.length = value.duplicate();
            } else if equal_no_case(k.as_slice(), &key_voltage_threshold) {
                self.voltage_threshold = value.duplicate();
            } else if equal_no_case(k.as_slice(), &key_process_transconductance) {
                self.process_transconductance = value.duplicate();
            } else if equal_no_case(k.as_slice(), &key_channel_length_modulation) {
                self.channel_length_modulation = value.duplicate();
            }
            i += 1;
        }
        assert(ps.take(n as int) == ps);
    }
}

impl Default for NMosfetModel {
    fn default() -> (r: NMosfetModel)
        ensures
            r@ == named_nmosfet_model(seq!['d', 'e', 'f', 'a', 'u', 'l', 't']),
    {
        let mut name = String::new();
        push_char(&mut name, 'd');
        push_char(&mut name, 'e');
        push_char(&mut name, 'f');
        push_char(&mut name, 'a');
        push_char(&mut name, 'u');
        push_char(&mut name, 'l');
        push_char(&mut name, 't');
        assert(name@ == seq!['d', 'e', 'f', 'a', 'u', 'l', 't']);
        NMosfetModel::named(name)
    }
}

impl ModelTrait for NMosfetModel {
    fn apply_model_parameters(&mut self, parameters: &NameMap<Number>)
        ensures
            final(self)@ == apply_nmosfet_parameters(old(self)@, number_pairs(*parameters)),
    {
        NMosfetModel::apply_model_parameters(self, parameters)
    }
}

/// Each parameter sets its own field, whatever the case of its key: after
/// a list of parameters the width is the value of the last `W`, the length
/// that of the last `L`, the threshold that of the last `VTO`, the
/// transconductance that of the last `KP` and the channel length
/// modulation that of the last `LAMBDA`; a field that no parameter names
/// keeps its value, and so does the name.
pub proof fn law_nmosfet_parameters(m: NMosfetModelView, ps: Seq<(Seq<char>, NumberView)>)
    ensures
        apply_nmosfet_parameters(m, ps).name == m.name,
        apply_nmosfet_parameters(m, ps).width == last_value(ps, seq!['w'], m.width),
        apply_nmosfet_parameters(m, ps).length == last_value(ps, seq!['l'], m.length),
        apply_nmosfet_parameters(m, ps).voltage_threshold == last_value(
            ps,
            seq!['v', 't', 'o'],
            m.voltage_threshold,
        ),
        apply_nmosfet_parameters(m, ps).process_transconductance == last_value(
            ps,
            seq!['k', 'p'],
            m.process_transconductance,
        ),
        apply_nmosfet_parameters(m, ps).channel_length_modulation == last_value(
            ps,
            seq!['l', 'a', 'm', 'b', 'd', 'a'],
            m.channel_length_modulation,
        ),
    decreases ps.len(),
{
    if ps.len() > 0 {
        law_nmosfet_parameters(m, ps.drop_last());
        let k = ps.last().0;
        if same_no_case(k, seq!['w']) {
            assert(matches_no_case(k[0int + 0int], seq!['w'][0]));
        }
        if same_no_case(k, seq!['l']) {
            assert(matches_no_case(k[0int + 0int], seq!['l'][0]));
        }
        if same_no_case(k, seq!['v', 't', 'o']) {
            assert(matches_no_case(k[0int + 0int], seq!['v', 't', 'o'][0]));
        }
        if same_no_case(k, seq!['k', 'p']) {
            assert(matches_no_case(k[0int + 1int], seq!['k', 'p'][1]));
        }
    }
}

/// The model that a name gives before any parameter: that name, a 1 µm
/// channel width and length, a 0 V threshold, a 2e-5 A/V² transconductance
/// and a 0.02 /V channel length modulation.
pub proof fn law_nmosfet_defaults(name: Seq<char>)
    ensures
        named_nmosfet_model(name).name == name,
        named_nmosfet_model(name).width == (NumberView { literal: seq!['1', 'e', '-', '6'], power_of_ten: 0 }),
        named_nmosfet_model(name).length == (NumberView { literal: seq!['1', 'e', '-', '6'], power_of_ten: 0 }),
        named_nmosfet_model(name).voltage_threshold == (NumberView { literal: seq!['0', '.', '0'], power_of_ten: 0 }),
        named_nmosfet_model(name).process_transconductance == (NumberView {
            literal: seq!['2', 'e', '-', '5'],
            power_of_ten: 0,
        }),
        named_nmosfet_model(name).channel_length_modulation == (NumberView {
            literal: seq!['0', '.', '0', '2'],
            power_of_ten: 0,
        }),
{
}

} // verus!
