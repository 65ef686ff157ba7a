//! Voltage sources: `V<name> <plus> <minus> [<dc>] [DC <v>] [AC <v>]
//! [PULSE(...)] [SIN(...)]`.

use vstd::prelude::*;

use crate::error::Error;
use crate::number::{double_at, parse_double, Number, NumberView};
use crate::syntax::{
    blanks_at, name_at, read_spaced_name, read_spaced_value, read_value, remainder, scan_blanks,
    scan_name, skip_blank_run, skip_blanks, spaced_name, spaced_value, value_at, ParseFailure,
};
use crate::text::{
    card_message,
    prefixed, push_char, starts_no_case, starts_with_no_case, strip_comment, string_from, to_chars,
    without_comment,
};

verus! {

/// The parameters of a PULSE waveform.
#[derive(Debug, Clone, PartialEq, Eq)]
pub struct Pulse {
    /// Initial value before the pulse.
    pub initial_value: Number,
    /// Value during the pulse.
    pub pulsed_value: Number,
    /// Time before the pulse begins.
    pub delay_time: Number,
    /// Time for the value to rise from initial to pulsed.
    pub rise_time: Number,
    /// Time for the value to fall from pulsed to initial.
    pub fall_time: Number,
    /// Duration of the pulse at its pulsed value.
    pub pulse_width: Number,
    /// Total duration of one cycle of the pulse.
    pub period: Number,
}

pub struct PulseView {
    pub initial_value: NumberView,
    pub pulsed_value: NumberView,
    pub delay_time: NumberView,
    pub rise_time: NumberView,
    pub fall_time: NumberView,
    pub pulse_width: NumberView,
    pub period: NumberView,
}

impl View for Pulse {
    type V = PulseView;

    open spec fn view(&self) -> PulseView {
        PulseView {
            initial_value: self.initial_value@,
            pulsed_value: self.pulsed_value@,
            delay_time: self.delay_time@,
            rise_time: self.rise_time@,
            fall_time: self.fall_time@,
            pulse_width: self.pulse_width@,
            period: self.period@,
        }
    }
}

/// The parameters of a SIN waveform.
#[derive(Debug, Clone, PartialEq, Eq)]
pub struct Sinusoidal {
    /// Offset value.
    pub offset: Number,
    /// Amplitude of the sine wave.
    pub amplitude: Number,
    /// Frequency of the sine wave in hertz.
    pub frequency: Number,
    /// Delay before the sine wave starts.
    pub delay: Number,
    /// Damping factor of the sine wave.
    pub damping: Number,
    /// Phase shift in degrees.
    pub phase: Number,
}

pub struct SinusoidalView {
    pub offset: NumberView,
    pub amplitude: NumberView,
    pub frequency: NumberView,
    pub delay: NumberView,
    pub damping: NumberView,
    pub phase: NumberView,
}

impl View for Sinusoidal {
    type V = SinusoidalView;

    open spec fn view(&self) -> SinusoidalView {
        SinusoidalView {
            offset: self.offset@,
            amplitude: self.amplitude@,
            frequency: self.frequency@,
            delay: self.delay@,
            damping: self.damping@,
            phase: self.phase@,
        }
    }
}

/// A voltage source of a circuit.
#[derive(Debug, Clone)]
pub struct VoltageSource {
    pub name: String,
    pub plus: String,
    pub minus: String,
    pub dc_value: Number,
    pub ac_amplitude: Number,
    pub pulse: Option<Pulse>,
    pub sinusoidal: Option<Sinusoidal>,
}

pub struct VoltageSourceView {
    pub name: Seq<char>,
    pub plus: Seq<char>,
    pub minus: Seq<char>,
    pub dc_value: NumberView,
    pub ac_amplitude: NumberView,
    pub pulse: Option<PulseView>,
    pub sinusoidal: Option<SinusoidalView>,
}

pub open spec fn pulse_view(p: Option<Pulse>) -> Option<PulseView> {
    match p {
        Some(x) => Some(x@),
        None => None,
    }
}

pub open spec fn sinusoidal_view(p: Option<Sinusoidal>) -> Option<SinusoidalView> {
    match p {
        Some(x) => Some(x@),
        None => None,
    }
}

impl View for VoltageSource {
    type V = VoltageSourceView;

    open spec fn view(&self) -> VoltageSourceView {
        VoltageSourceView {
            name: self.name@,
            plus: self.plus@,
            minus: self.minus@,
            dc_value: self.dc_value@,
            ac_amplitude: self.ac_amplitude@,
            pulse: pulse_view(self.pulse),
            sinusoidal: sinusoidal_view(self.sinusoidal),
        }
    }
}

/// One optional parameter block of a voltage source card.
pub enum Param {
    Dc(Number),
    Ac(Number),
    Pulse(Pulse),
    Sinusoidal(Sinusoidal),
}

pub enum ParamView {
    Dc(NumberView),
    Ac(NumberView),
    Pulse(PulseView),
    Sinusoidal(SinusoidalView),
}

impl View for Param {
    type V = ParamView;

    open spec fn view(&self) -> ParamView {
        match self {
            Param::Dc(n) => ParamView::Dc(n@),
            Param::Ac(n) => ParamView::Ac(n@),
            Param::Pulse(p) => ParamView::Pulse(p@),
            Param::Sinusoidal(p) => ParamView::Sinusoidal(p@),
        }
    }
}

// ---------------------------------------------------------------------------
// Grammar
// ---------------------------------------------------------------------------

/// `<keyword> <blanks> <float>`: the `DC` and `AC` blocks.
pub open spec fn keyed_double_at(s: Seq<char>, i: int, key: Seq<char>) -> Result<
    (int, NumberView),
    ParseFailure,
> {
    if starts_no_case(s, i, key) {
        match blanks_at(s, i + key.len()) {
            Some(b) => double_at(s, b),
            None => Err(ParseFailure::Error),
        }
    } else {
        Err(ParseFailure::Error)
    }
}

/// `k` values, each after at least one blank.
pub open spec fn more_values(s: Seq<char>, i: int, k: nat) -> Option<(int, Seq<NumberView>)>
    decreases k,
{
    if k == 0 {
        Some((i, Seq::empty()))
    } else {
        match spaced_value(s, i) {
            Some((e, v)) => match more_values(s, e, (k - 1) as nat) {
                Some((e2, vs)) => Some((e2, seq![v] + vs)),
                None => None,
            },
            None => None,
        }
    }
}

/// `<keyword> ( v1 v2 ... vk )`: blanks are optional around the
/// parentheses and before the first value, and separate the others.
pub open spec fn keyed_values_at(s: Seq<char>, i: int, key: Seq<char>, k: nat) -> Option<
    (int, Seq<NumberView>),
> {
    if !starts_no_case(s, i, key) {
        None
    } else {
        let o = skip_blanks(s, i + key.len());
        if !(o < s.len() && s[o] == '(') {
            None
        } else {
            match value_at(s, skip_blanks(s, o + 1)) {
                None => None,
                Some((e1, v1)) => match more_values(s, e1, (k - 1) as nat) {
                    None => None,
                    Some((e2, vs)) => {
                        let c = skip_blanks(s, e2);
                        if c < s.len() && s[c] == ')' {
                            Some((c + 1, seq![v1] + vs))
                        } else {
                            None
                        }
                    },
                },
            }
        }
    }
}

pub open spec fn pulse_of(v: Seq<NumberView>) -> PulseView {
    PulseView {
        initial_value: v[0],
        pulsed_value: v[1],
        delay_time: v[2],
        rise_time: v[3],
        fall_time: v[4],
        pulse_width: v[5],
        period: v[6],
    }
}

pub open spec fn sinusoidal_of(v: Seq<NumberView>) -> SinusoidalView {
    SinusoidalView {
        offset: v[0],
        amplitude: v[1],
        frequency: v[2],
        delay: v[3],
        damping: v[4],
        phase: v[5],
    }
}

/// The values of a `PULSE(...)` block are, in order, the initial value,
/// the pulsed value, the delay, the rise time, the fall time, the pulse
/// width and the period; those of a `SIN(...)` block the offset, the
/// amplitude, the frequency, the delay, the damping and the phase.
pub proof fn law_waveform_order(v: Seq<NumberView>)
    ensures
        pulse_of(v).initial_value == v[0] && pulse_of(v).pulsed_value == v[1] && pulse_of(v).delay_time
            == v[2] && pulse_of(v).rise_time == v[3] && pulse_of(v).fall_time == v[4]
            && pulse_of(v).pulse_width == v[5] && pulse_of(v).period == v[6],
        sinusoidal_of(v).offset == v[0] && sinusoidal_of(v).amplitude == v[1] && sinusoidal_of(
            v,
        ).frequency == v[2] && sinusoidal_of(v).delay == v[3] && sinusoidal_of(v).damping == v[4]
            && sinusoidal_of(v).phase == v[5],
{
}

pub open spec fn dc_key() -> Seq<char> {
    seq!['d', 'c']
}

pub open spec fn ac_key() -> Seq<char> {
    seq!['a', 'c']
}

pub open spec fn pulse_key() -> Seq<char> {
    seq!['p', 'u', 'l', 's', 'e']
}

pub open spec fn sin_key() -> Seq<char> {
    seq!['s', 'i', 'n']
}

/// One parameter block after blanks: `DC`, `AC`, `PULSE(...)` or `SIN(...)`,
/// tried in that order.
pub open spec fn param_at(s: Seq<char>, i: int) -> Result<(int, ParamView), ParseFailure> {
    match blanks_at(s, i) {
        None => Err(ParseFailure::Error),
        Some(b) => match keyed_double_at(s, b, dc_key()) {
            Ok((e, v)) => Ok((e, ParamView::Dc(v))),
            Err(ParseFailure::Failure) => Err(ParseFailure::Failure),
            Err(ParseFailure::Error) => match keyed_double_at(s, b, ac_key()) {
                Ok((e, v)) => Ok((e, ParamView::Ac(v))),
                Err(ParseFailure::Failure) => Err(ParseFailure::Failure),
                Err(ParseFailure::Error) => match keyed_values_at(s, b, pulse_key(), 7) {
                    Some((e, vs)) => Ok((e, ParamView::Pulse(pulse_of(vs)))),
                    None => match keyed_values_at(s, b, sin_key(), 6) {
                        Some((e, vs)) => Ok((e, ParamView::Sinusoidal(sinusoidal_of(vs)))),
                        None => Err(ParseFailure::Error),
                    },
                },
            },
        },
    }
}

/// Zero or more parameter blocks from `i`, in order; a block that must
/// consume input and does not ends the repetition with an error.
pub open spec fn params_from(s: Seq<char>, i: int) -> Result<(int, Seq<ParamView>), ParseFailure>
    decreases s.len() - i,
{
    match param_at(s, i) {
        Err(ParseFailure::Error) => Ok((i, Seq::empty())),
        Err(ParseFailure::Failure) => Err(ParseFailure::Failure),
        Ok((e, p)) => if e <= i || e > s.len() {
            Err(ParseFailure::Error)
        } else {
            match params_from(s, e) {
                Ok((e2, ps)) => Ok((e2, seq![p] + ps)),
                Err(f) => Err(f),
            }
        },
    }
}

/// The settings that the parameter blocks leave, each later block
/// overriding the earlier ones of its kind.
pub struct SourceSettings {
    pub dc_value: NumberView,
    pub ac_amplitude: NumberView,
    pub pulse: Option<PulseView>,
    pub sinusoidal: Option<SinusoidalView>,
}

pub open spec fn apply_param(st: SourceSettings, p: ParamView) -> SourceSettings {
    match p {
        ParamView::Dc(v) => SourceSettings { dc_value: v, ..st },
        ParamView::Ac(v) => SourceSettings { ac_amplitude: v, ..st },
        ParamView::Pulse(v) => SourceSettings { pulse: Some(v), ..st },
        ParamView::Sinusoidal(v) => SourceSettings { sinusoidal: Some(v), ..st },
    }
}

pub open spec fn apply_params(st: SourceSettings, ps: Seq<ParamView>) -> SourceSettings
    decreases ps.len(),
{
    if ps.len() == 0 {
        st
    } else {
        apply_param(apply_params(st, ps.drop_last()), ps.last())
    }
}

/// Each parameter block sets its own setting and leaves the others: `DC`
/// the DC value, `AC` the AC amplitude, `PULSE` the pulse and `SIN` the
/// sine; with no blocks the settings stay as they were.
pub proof fn law_source_params(st: SourceSettings, p: ParamView)
    ensures
        apply_params(st, Seq::<ParamView>::empty()) == st,
        p matches ParamView::Dc(v) ==> apply_param(st, p) == (SourceSettings { dc_value: v, ..st }),
        p matches ParamView::Ac(v) ==> apply_param(st, p) == (SourceSettings { ac_amplitude: v, ..st }),
        p matches ParamView::Pulse(v) ==> apply_param(st, p) == (SourceSettings { pulse: Some(v), ..st }),
        p matches ParamView::Sinusoidal(v) ==> apply_param(st, p) == (SourceSettings {
            sinusoidal: Some(v),
            ..st
        }),
{
}

/// The number zero, written `0`.
pub open spec fn zero() -> NumberView {
    NumberView { literal: seq!['0'], power_of_ten: 0 }
}

/// The optional float right after the nodes, by where reading goes on.
pub open spec fn implicit_dc_at(s: Seq<char>, i: int) -> Result<
    (int, Option<NumberView>),
    ParseFailure,
> {
    match blanks_at(s, i) {
        Some(b) => match double_at(s, b) {
            Ok((e, v)) => Ok((e, Some(v))),
            Err(ParseFailure::Error) => Ok((i, None)),
            Err(ParseFailure::Failure) => Err(ParseFailure::Failure),
        },
        None => Ok((i, None)),
    }
}

/// The voltage source card at `s[i..]`: `V` or `v`, a name, two nodes, an
/// optional DC value and any number of parameter blocks.
pub open spec fn voltage_source_at(s: Seq<char>, i: int) -> Result<
    (int, VoltageSourceView),
    ParseFailure,
> {
    if !(0 <= i < s.len() && (s[i] == 'V' || s[i] == 'v')) {
        Err(ParseFailure::Error)
    } else {
        match name_at(s, i + 1) {
            None => Err(ParseFailure::Error),
            Some(n) => match spaced_name(s, n) {
                None => Err(ParseFailure::Error),
                Some((pb, pe)) => match spaced_name(s, pe) {
                    None => Err(ParseFailure::Error),
                    Some((mb, me)) => match implicit_dc_at(s, me) {
                        Err(f) => Err(f),
                        Ok((d, implicit)) => match params_from(s, d) {
                            Err(f) => Err(f),
                            Ok((e, ps)) => {
                                let init = SourceSettings {
                                    dc_value: match implicit {
                                        Some(v) => v,
                                        None => zero(),
                                    },
                                    ac_amplitude: zero(),
                                    pulse: None,
                                    sinusoidal: None,
                                };
                                let st = apply_params(init, ps);
                                Ok(
                                    (
                                        e,
                                        VoltageSourceView {
                                            name: s.subrange(i + 1, n),
                                            plus: s.subrange(pb, pe),
                                            minus: s.subrange(mb, me),
                                            dc_value: st.dc_value,
                                            ac_amplitude: st.ac_amplitude,
                                            pulse: st.pulse,
                                            sinusoidal: st.sinusoidal,
                                        },
                                    ),
                                )
                            },
                        },
                    },
                },
            },
        }
    }
}

/// The voltage source that a whole line describes: the text before `%`,
/// trimmed, must be exactly one voltage source card.
pub open spec fn voltage_source_line(s: Seq<char>) -> Option<VoltageSourceView> {
    let c = without_comment(s, false);
    match voltage_source_at(c, 0) {
        Ok((e, v)) => if e == c.len() {
            Some(v)
        } else {
            None
        },
        Err(_) => None,
    }
}

// ---------------------------------------------------------------------------
// Reading
// ---------------------------------------------------------------------------

fn read_keyed_double(s: &[char], i: usize, key: &[char]) -> (r: Result<
    (usize, Number),
    ParseFailure,
>)
    requires
        i <= s@.len(),
    ensures
        match r {
            Ok((e, n)) => keyed_double_at(s@, i as int, key@) == Ok::<_, ParseFailure>(
                (e as int, n@),
            ) && i < e <= s@.len(),
            Err(f) => keyed_double_at(s@, i as int, key@) == Err::<(int, NumberView), _>(f),
        },
{
    if starts_with_no_case(s, i, key) {
        match scan_blanks(s, i + key.len()) {
            Some(b) => parse_double(s, b),
            None => Err(ParseFailure::Error),
        }
    } else {
        Err(ParseFailure::Error)
    }
}

fn read_more_values(s: &[char], i: usize, k: usize) -> (r: Option<(usize, Vec<Number>)>)
    requires
        i <= s@.len(),
    ensures
        match r {
            Some((e, vs)) => more_values(s@, i as int, k as nat) == Some(
                (e as int, vs@.map_values(|n: Number| n@)),
            ) && i <= e <= s@.len(),
            None => more_values(s@, i as int, k as nat) is None,
        },
    decreases k,
{
    if k == 0 {
        let v: Vec<Number> = Vec::new();
        assert(v@.map_values(|n: Number| n@) =~= Seq::<NumberView>::empty());
        return Some((i, v));
    }
    match read_spaced_value(s, i) {
        Some((e, v)) => match read_more_values(s, e, k - 1) {
            Some((e2, vs)) => {
                let mut out: Vec<Number> = Vec::new();
                out.push(v);
                let ghost first = out@;
                let mut rest = vs;
                out.append(&mut rest);
                assert(out@.map_values(|n: Number| n@) =~= seq![first[0]@] + vs@.map_values(
                    |n: Number| n@,
                ));
                Some((e2, out))
            },
            None => None,
        },
        None => None,
    }
}

fn read_keyed_values(s: &[char], i: usize, key: &[char], k: usize) -> (r: Option<
    (usize, Vec<Number>),
>)
    requires
        i <= s@.len(),
        k >= 1,
    ensures
        match r {
            Some((e, vs)) => keyed_values_at(s@, i as int, key@, k as nat) == Some(
                (e as int, vs@.map_values(|n: Number| n@)),
            ) && i < e <= s@.len() && vs@.len() == k,
            None => keyed_values_at(s@, i as int, key@, k as nat) is None,
        },
{
    if !starts_with_no_case(s, i, key) {
        return None;
    }
    let o = skip_blank_run(s, i + key.len());
    if !(o < s.len() && s[o] == '(') {
        return None;
    }
    let b = skip_blank_run(s, o + 1);
    match read_value(s, b) {
        None => None,
        Some((e1, v1)) => match read_more_values(s, e1, k - 1) {
            None => None,
            Some((e2, vs)) => {
                let c = skip_blank_run(s, e2);
                if c < s.len() && s[c] == ')' {
                    let mut out: Vec<Number> = Vec::new();
                    out.push(v1);
                    let ghost first = out@;
                    let mut rest = vs;
                    out.append(&mut rest);
                    assert(out@.map_values(|n: Number| n@) =~= seq![first[0]@] + vs@.map_values(
                        |n: Number| n@,
                    ));
                    proof {
                        lemma_more_values_len(s@, e1 as int, (k - 1) as nat);
                    }
                    Some((c + 1, out))
                } else {
                    None
                }
            },
        },
    }
}

proof fn lemma_more_values_len(s: Seq<char>, i: int, k: nat)
    ensures
        more_values(s, i, k) matches Some((_, vs)) ==> vs.len() == k,
    decreases k,
{
    if k > 0 {
        if let Some((e, v)) = spaced_value(s, i) {
            lemma_more_values_len(s, e, (k - 1) as nat);
        }
    }
}

fn pulse_from(vs: Vec<Number>) -> (p: Pulse)
    requires
        vs@.len() == 7,
    ensures
        p@ == pulse_of(vs@.map_values(|n: Number| n@)),
{
    let mut vs = vs;
    let ghost all = vs@;
    let period = vs.pop().unwrap();
    let pulse_width = vs.pop().unwrap();
    let fall_time = vs.pop().unwrap();
    let rise_time = vs.pop().unwrap();
    let delay_time = vs.pop().unwrap();
    let pulsed_value = vs.pop().unwrap();
    let initial_value = vs.pop().unwrap();
    Pulse {
        initial_value,
        pulsed_value,
        delay_time,
        rise_time,
        fall_time,
        pulse_width,
        period,
    }
}

fn sinusoidal_from(vs: Vec<Number>) -> (p: Sinusoidal)
    requires
        vs@.len() == 6,
    ensures
        p@ == sinusoidal_of(vs@.map_values(|n: Number| n@)),
{
    let mut vs = vs;
    let phase = vs.pop().unwrap();
    let damping = vs.pop().unwrap();
    let delay = vs.pop().unwrap();
    let frequency = vs.pop().unwrap();
    let amplitude = vs.pop().unwrap();
    let offset = vs.pop().unwrap();
    Sinusoidal { offset, amplitude, frequency, delay, damping, phase }
}

fn read_param(s: &[char], i: usize) -> (r: Result<(usize, Param), ParseFailure>)
    requires
        i <= s@.len(),
    ensures
        match r {
            Ok((e, p)) => param_at(s@, i as int) == Ok::<_, ParseFailure>((e as int, p@)) && i < e
                <= s@.len(),
            Err(f) => param_at(s@, i as int) == Err::<(int, ParamView), _>(f),
        },
{
    let b = match scan_blanks(s, i) {
        Some(b) => b,
        None => return Err(ParseFailure::Error),
    };
    let dc: [char; 2] = ['d', 'c'];
    let ac: [char; 2] = ['a', 'c'];
    let pulse: [char; 5] = ['p', 'u', 'l', 's', 'e'];
    let sin: [char; 3] = ['s', 'i', 'n'];
    assert(dc@ == dc_key());
    assert(ac@ == ac_key());
    assert(pulse@ == pulse_key());
    assert(sin@ == sin_key());
    match read_keyed_double(s, b, &dc) {
        Ok((e, v)) => return Ok((e, Param::Dc(v))),
        Err(ParseFailure::Failure) => return Err(ParseFailure::Failure),
        Err(ParseFailure::Error) => {},
    }
    match read_keyed_double(s, b, &ac) {
        Ok((e, v)) => return Ok((e, Param::Ac(v))),
        Err(ParseFailure::Failure) => return Err(ParseFailure::Failure),
        Err(ParseFailure::Error) => {},
    }
    match read_keyed_values(s, b, &pulse, 7) {
        Some((e, vs)) => return Ok((e, Param::Pulse(pulse_from(vs)))),
        None => {},
    }
    match read_keyed_values(s, b, &sin, 6) {
        Some((e, vs)) => Ok((e, Param::Sinusoidal(sinusoidal_from(vs)))),
        None => Err(ParseFailure::Error),
    }
}

/// The number zero, written `0`.
pub fn zero_number() -> (n: Number)
    ensures
        n@ == zero(),
{
    let mut literal = String::new();
    push_char(&mut literal, '0');
    Number { literal, power_of_ten: 0 }
}

pub open spec fn settings_of(
    dc: Number,
    ac: Number,
    pulse: Option<Pulse>,
    sinusoidal: Option<Sinusoidal>,
) -> SourceSettings {
    SourceSettings {
        dc_value: dc@,
        ac_amplitude: ac@,
        pulse: pulse_view(pulse),
        sinusoidal: sinusoidal_view(sinusoidal),
    }
}

pub fn read_voltage_source(s: &[char], i: usize) -> (r: Result<(usize, VoltageSource), ParseFailure>)
    requires
        i <= s@.len(),
    ensures
        match r {
            Ok((e, x)) => voltage_source_at(s@, i as int) == Ok::<_, ParseFailure>(
                (e as int, x@),
            ) && i < e <= s@.len(),
            Err(f) => voltage_source_at(s@, i as int) == Err::<(int, VoltageSourceView), _>(f),
        },
{
    if !(i < s.len() && (s[i] == 'V' || s[i] == 'v')) {
        return Err(ParseFailure::Error);
    }
    let n = match scan_name(s, i + 1) {
        Some(n) => n,
        None => return Err(ParseFailure::Error),
    };
    let (pe, plus) = match read_spaced_name(s, n) {
        Some(x) => x,
        None => return Err(ParseFailure::Error),
    };
    let (me, minus) = match read_spaced_name(s, pe) {
        Some(x) => x,
        None => return Err(ParseFailure::Error),
    };
    let (d, implicit): (usize, Option<Number>) = match scan_blanks(s, me) {
        Some(b) => match parse_double(s, b) {
            Ok((e, v)) => (e, Some(v)),
            Err(ParseFailure::Error) => (me, None),
            Err(ParseFailure::Failure) => return Err(ParseFailure::Failure),
        },
        None => (me, None),
    };
    assert(implicit_dc_at(s@, me as int) == Ok::<_, ParseFailure>(
        (
            d as int,
            match implicit {
                Some(v) => Some(v@),
                None => None,
            },
        ),
    ));
    let mut dc = match implicit {
        Some(v) => v,
        None => zero_number(),
    };
    let mut ac = zero_number();
    let mut pulse: Option<Pulse> = None;
    let mut sinusoidal: Option<Sinusoidal> = None;
    let ghost init = settings_of(dc, ac, pulse, sinusoidal);
    let ghost mut done: Seq<ParamView> = Seq::empty();
    let mut j = d;
    loop
        invariant
            d <= j <= s@.len(),
            settings_of(dc, ac, pulse, sinusoidal) == apply_params(init, done),
            params_from(s@, d as int) == (match params_from(s@, j as int) {
                Ok((e, rest)) => Ok((e, done + rest)),
                Err(f) => Err(f),
            }),
            params_from(s@, d as int) == Err::<(int, Seq<ParamView>), ParseFailure>(
                ParseFailure::Failure,
            ) ==> voltage_source_at(s@, i as int) == Err::<(int, VoltageSourceView), ParseFailure>(
                ParseFailure::Failure,
            ),
        ensures
            d <= j <= s@.len(),
            settings_of(dc, ac, pulse, sinusoidal) == apply_params(init, done),
            params_from(s@, d as int) == Ok::<_, ParseFailure>((j as int, done)),
        decreases s@.len() - j,
    {
        match read_param(s, j) {
            Err(ParseFailure::Failure) => return Err(ParseFailure::Failure),
            Err(ParseFailure::Error) => {
                assert(done + Seq::<ParamView>::empty() == done);
                break ;
            },
            Ok((e, p)) => {
                let ghost pv = p@;
                match p {
                    Param::Dc(v) => {
                        dc = v;
                    },
                    Param::Ac(v) => {
                        ac = v;
                    },
                    Param::Pulse(v) => {
                        pulse = Some(v);
                    },
                    Param::Sinusoidal(v) => {
                        sinusoidal = Some(v);
                    },
                }
                proof {
                    assert((done.push(pv)).drop_last() == done);
                    assert(settings_of(dc, ac, pulse, sinusoidal) == apply_param(
                        apply_params(init, done),
                        pv,
                    ));
                    match params_from(s@, e as int) {
                        Ok((e2, rest)) => {
                            assert(done + (seq![pv] + rest) == done.push(pv) + rest);
                        },
                        Err(_) => {},
                    }
                    done = done.push(pv);
                }
                j = e;
            },
        }
    }
    let name = string_from(s, i + 1, n);
    Ok((j, VoltageSource { name, plus, minus, dc_value: dc, ac_amplitude: ac, pulse, sinusoidal }))
}

/// Reads a voltage source card at the start of `input`; returns the rest of
/// the input and the source.
pub fn parse_voltage_source(input: &str) -> (r: Result<(&str, VoltageSource), ParseFailure>)
    ensures
        match r {
            Ok((rest, x)) => voltage_source_at(input@, 0) == Ok::<_, ParseFailure>(
                (input@.len() - rest@.len(), x@),
            ) && rest@ == input@.skip(input@.len() - rest@.len()),
            Err(f) => voltage_source_at(input@, 0) == Err::<(int, VoltageSourceView), _>(f),
        },
{
    let s = to_chars(input);
    match read_voltage_source(s.as_slice(), 0) {
        Ok((e, x)) => Ok((remainder(input, e), x)),
        Err(f) => Err(f),
    }
}

impl Pulse {
    /// A copy of these parameters.
    pub fn duplicate(&self) -> (r: Pulse)
        ensures
            r@ == self@,
    {
        Pulse {
            initial_value: self.initial_value.duplicate(),
            pulsed_value: self.pulsed_value.duplicate(),
            delay_time: self.delay_time.duplicate(),
            rise_time: self.rise_time.duplicate(),
            fall_time: self.fall_time.duplicate(),
            pulse_width: self.pulse_width.duplicate(),
            period: self.period.duplicate(),
        }
    }
}

impl Sinusoidal {
    /// A copy of these parameters.
    pub fn duplicate(&self) -> (r: Sinusoidal)
        ensures
            r@ == self@,
    {
        Sinusoidal {
            offset: self.offset.duplicate(),
            amplitude: self.amplitude.duplicate(),
            frequency: self.frequency.duplicate(),
            delay: self.delay.duplicate(),
            damping: self.damping.duplicate(),
            phase: self.phase.duplicate(),
        }
    }
}

impl VoltageSource {
    /// A copy of this voltage source.
    pub fn duplicate(&self) -> (r: VoltageSource)
        ensures
            r@ == self@,
    {
        let pulse = match &self.pulse {
            Some(p) => Some(p.duplicate()),
            None => None,
        };
        let sinusoidal = match &self.sinusoidal {
            Some(p) => Some(p.duplicate()),
            None => None,
        };
        VoltageSource {
            name: self.name.clone(),
            plus: self.plus.clone(),
            minus: self.minus.clone(),
            dc_value: self.dc_value.duplicate(),
            ac_amplitude: self.ac_amplitude.duplicate(),
            pulse,
            sinusoidal,
        }
    }

    /// The two terminals of the source: `plus`, then `minus`.
    pub fn nodes(&self) -> (r: Vec<&str>)
        ensures
            r@.len() == 2,
            r@[0]@ == self.plus@,
            r@[1]@ == self.minus@,
    {
        let mut v: Vec<&str> = Vec::new();
        v.push(self.plus.as_str());
        v.push(self.minus.as_str());
        v
    }

    /// Returns the identifier of the source: `V` followed by its name.
    pub fn identifier(&self) -> (r: String)
        ensures
            r@ == seq!['V'] + self.name@,
    {
        prefixed('V', self.name.as_str())
    }

    /// Reads a voltage source from one line: the text before a `%` comment,
    /// trimmed, must be a whole voltage source card.
    pub fn from_str(s: &str) -> (r: Result<VoltageSource, Error>)
        ensures
            match r {
                Ok(x) => voltage_source_line(s@) == Some(x@),
                Err(e) => voltage_source_line(s@) is None && e is InvalidFormat,
            },
    {
        let all = to_chars(s);
        let c = strip_comment(all.as_slice(), false);
        match read_voltage_source(c.as_slice(), 0) {
            Ok((e, x)) => {
                if e != c.len() {
                    return Err(Error::InvalidFormat(card_message("Parsing Error: '", c.as_slice(), "'")));
                }
                Ok(x)
            },
            Err(_) => Err(Error::InvalidFormat(card_message("Parsing Error: '", c.as_slice(), "'"))),
        }
    }
}

impl std::str::FromStr for VoltageSource {
    type Err = Error;

    fn from_str(s: &str) -> (r: Result<VoltageSource, Error>)
        ensures
            match r {
                Ok(x) => voltage_source_line(s@) == Some(x@),
                Err(e) => voltage_source_line(s@) is None && e is InvalidFormat,
            },
    {
        VoltageSource::from_str(s)
    }
}

} // verus!
