//! Circuit elements and the grammar of their cards.

use vstd::prelude::*;

use crate::error::Error;
use crate::models::{key_value_at, read_key_value};
use crate::number::{
    decimal_digits, decimal_string, lemma_u32_round_trip, u32_value, Number, NumberView,
};
use crate::syntax::{
    blanks_at, name_at, read_spaced_name, read_spaced_value, scan_blanks, scan_name, spaced_name,
    spaced_value, ParseFailure,
};
use crate::text::{
    equal_no_case, framed, same_no_case, starts_no_case, starts_with_no_case, string_from,
    to_chars,
};

pub mod bjt;
pub mod capacitor;
pub mod current_source;
pub mod diode;
pub mod inductor;
pub mod mosfet;
pub mod nmosfet;
pub mod resistor;
pub mod subcircuit;
pub mod voltage_source;

use bjt::{bjt_at, read_bjt, BJTView, BJT};
use capacitor::{capacitor_at, read_capacitor, Capacitor, CapacitorView};
use current_source::{current_source_at, read_current_source, CurrentSource, CurrentSourceView};
use diode::{diode_at, read_diode, Diode, DiodeView};
use inductor::{inductor_at, read_inductor, Inductor, InductorView};
use nmosfet::{nmosfet_at, read_nmosfet, NMOSFETView, NMOSFET};
use resistor::{read_resistor, resistor_at, Resistor, ResistorView};
use subcircuit::{
    read_subckt_instance, subckt_instance_at, SubcircuitInstance, SubcircuitInstanceView,
};
use voltage_source::{read_voltage_source, voltage_source_at, VoltageSource, VoltageSourceView};

verus! {

/// The fields that resistors, capacitors, inductors and current sources
/// share: `<letter><name> <plus> <minus> <value>`.
pub struct TwoTerminal {
    pub name: String,
    pub plus: String,
    pub minus: String,
    pub value: Number,
}

pub struct TwoTerminalView {
    pub name: Seq<char>,
    pub plus: Seq<char>,
    pub minus: Seq<char>,
    pub value: NumberView,
}

impl View for TwoTerminal {
    type V = TwoTerminalView;

    open spec fn view(&self) -> TwoTerminalView {
        TwoTerminalView {
            name: self.name@,
            plus: self.plus@,
            minus: self.minus@,
            value: self.value@,
        }
    }
}

/// The card `<letter><name> <plus> <minus> <value>` at `s[i..]`: the letter
/// in either case, a name glued to it, two node names and a value, each
/// after at least one blank.
pub open spec fn two_terminal_at(s: Seq<char>, i: int, letter: char) -> Option<
    (int, TwoTerminalView),
> {
    if !starts_no_case(s, i, seq![letter]) {
        None
    } else {
        match name_at(s, i + 1) {
            None => None,
            Some(n) => match spaced_name(s, n) {
                None => None,
                Some((pb, pe)) => match spaced_name(s, pe) {
                    None => None,
                    Some((mb, me)) => match spaced_value(s, me) {
                        None => None,
                        Some((e, v)) => Some(
                            (
                                e,
                                TwoTerminalView {
                                    name: s.subrange(i + 1, n),
                                    plus: s.subrange(pb, pe),
                                    minus: s.subrange(mb, me),
                                    value: v,
                                },
                            ),
                        ),
                    },
                },
            },
        }
    }
}

pub fn read_two_terminal(s: &[char], i: usize, letter: char) -> (r: Option<(usize, TwoTerminal)>)
    requires
        i <= s@.len(),
    ensures
        match r {
            Some((e, t)) => two_terminal_at(s@, i as int, letter) == Some((e as int, t@)) && i
                < e <= s@.len(),
            None => two_terminal_at(s@, i as int, letter) is None,
        },
{
    let tag: [char; 1] = [letter];
    assert(tag@ == seq![letter]);
    if !starts_with_no_case(s, i, &tag) {
        return None;
    }
    let n = match scan_name(s, i + 1) {
        Some(n) => n,
        None => return None,
    };
    let (pe, plus) = match read_spaced_name(s, n) {
        Some(x) => x,
        None => return None,
    };
    let (me, minus) = match read_spaced_name(s, pe) {
        Some(x) => x,
        None => return None,
    };
    let (e, value) = match read_spaced_value(s, me) {
        Some(x) => x,
        None => return None,
    };
    let name = string_from(s, i + 1, n);
    Some((e, TwoTerminal { name, plus, minus, value }))
}


// ---------------------------------------------------------------------------
// Instance parameters: ` KEY=VALUE` pairs after a device card
// ---------------------------------------------------------------------------

/// The `KEY=VALUE` pairs from `j`, each after at least one blank; it stops
/// (before the blanks) where no further pair follows.
pub open spec fn spaced_key_values(s: Seq<char>, j: int) -> (int, Seq<(Seq<char>, NumberView)>)
    decreases s.len() - j,
{
    match blanks_at(s, j) {
        None => (j, Seq::empty()),
        Some(b) => match key_value_at(s, b) {
            None => (j, Seq::empty()),
            Some((e, kv)) => if e <= j || e > s.len() {
                (j, Seq::empty())
            } else {
                let (e2, kvs) = spaced_key_values(s, e);
                (e2, seq![kv] + kvs)
            },
        },
    }
}

/// The pairs of a list of parameters, by their views.
pub open spec fn param_views(ps: Seq<(String, Number)>) -> Seq<(Seq<char>, NumberView)> {
    ps.map_values(|p: (String, Number)| (p.0@, p.1@))
}

/// The value of the last parameter whose key is the letter `c` in either
/// case.
pub open spec fn instance_param(kvs: Seq<(Seq<char>, NumberView)>, c: char) -> Option<NumberView>
    decreases kvs.len(),
{
    if kvs.len() == 0 {
        None
    } else if same_no_case(kvs.last().0, seq![c]) {
        Some(kvs.last().1)
    } else {
        instance_param(kvs.drop_last(), c)
    }
}

/// Reads the ` KEY=VALUE` pairs from `j`.
pub fn read_spaced_params(s: &[char], j: usize) -> (r: (usize, Vec<(String, Number)>))
    requires
        j <= s@.len(),
    ensures
        spaced_key_values(s@, j as int) == (r.0 as int, param_views(r.1@)),
        j <= r.0 <= s@.len(),
{
    let mut out: Vec<(String, Number)> = Vec::new();
    let mut k = j;
    loop
        invariant
            j <= k <= s@.len(),
            spaced_key_values(s@, j as int).0 == spaced_key_values(s@, k as int).0,
            spaced_key_values(s@, j as int).1 == param_views(out@) + spaced_key_values(
                s@,
                k as int,
            ).1,
        ensures
            j <= k <= s@.len(),
            spaced_key_values(s@, j as int) == (k as int, param_views(out@)),
        decreases s@.len() - k,
    {
        let b = match scan_blanks(s, k) {
            Some(b) => b,
            None => {
                assert(param_views(out@) + Seq::<(Seq<char>, NumberView)>::empty() == param_views(out@));
                break;
            },
        };
        match read_key_value(s, b) {
            None => {
                assert(param_views(out@) + Seq::<(Seq<char>, NumberView)>::empty() == param_views(out@));
                break;
            },
            Some((e, key, value)) => {
                let ghost old_out = out@;
                let ghost kv = (key@, value@);
                out.push((key, value));
                proof {
                    assert(param_views(out@) == param_views(old_out).push(kv));
                    let rest = spaced_key_values(s@, e as int).1;
                    assert(param_views(old_out) + (seq![kv] + rest) == param_views(out@) + rest);
                }
                k = e;
            },
        }
    }
    (k, out)
}

/// The value of the last parameter named by the letter `c` in either case.
pub fn find_param(ps: &Vec<(String, Number)>, c: char) -> (r: Option<Number>)
    ensures
        match r {
            Some(n) => instance_param(param_views(ps@), c) == Some(n@),
            None => instance_param(param_views(ps@), c) is None,
        },
{
    let key: [char; 1] = [c];
    assert(key@ == seq![c]);
    let mut found: Option<Number> = None;
    let mut i: usize = 0;
    while i < ps.len()
        invariant
            i <= ps@.len(),
            key@ == seq![c],
            match found {
                Some(n) => instance_param(param_views(ps@.take(i as int)), c) == Some(n@),
                None => instance_param(param_views(ps@.take(i as int)), c) is None,
            },
        decreases ps@.len() - i,
    {
        let k = crate::text::to_chars(ps[i].0.as_str());
        proof {
            let pv = param_views(ps@.take(i + 1));
            assert(pv.drop_last() == param_views(ps@.take(i as int)));
            assert(pv.last() == (ps@[i as int].0@, ps@[i as int].1@));
        }
        if equal_no_case(k.as_slice(), &key) {
            found = Some(ps[i].1.duplicate());
        }
        i += 1;
    }
    assert(ps@.take(ps@.len() as int) == ps@);
    found
}

/// Mutable references to each string of a slice, in order.
pub fn refs_of(s: &mut [String]) -> (r: Vec<&mut String>)
    ensures
        r@.len() == old(s)@.len(),
        forall|i: int| 0 <= i < r@.len() ==> *r@[i] == old(s)@[i],
        final(s)@.len() == r@.len(),
        forall|i: int| 0 <= i < r@.len() ==> final(s)@[i] == *final(r@[i]),
    decreases old(s)@.len(),
{
    if s.len() == 0 {
        let v: Vec<&mut String> = Vec::new();
        return v;
    }
    let ghost s0 = s@;
    let (a, b) = s.split_at_mut(1);
    let ghost a0 = a@;
    let ghost b0 = b@;
    assert(a0 == s0.subrange(0, 1));
    assert(b0 == s0.subrange(1, s0.len() as int));
    let first = a.first_mut().unwrap();
    assert(*first == s0[0]);
    let mut rest = refs_of(b);
    let ghost tail = rest@;
    rest.insert(0, first);
    assert forall|i: int| 0 <= i < rest@.len() implies *rest@[i] == old(s)@[i] by {
        if i > 0 {
            assert(rest@[i] == tail[i - 1]);
            assert(*tail[i - 1] == b0[i - 1]);
        }
    }
    rest
}


// ---------------------------------------------------------------------------
// Elements
// ---------------------------------------------------------------------------

/// Any component that a circuit can hold.
#[derive(Debug, Clone)]
pub enum Element {
    VoltageSource(VoltageSource),
    CurrentSource(CurrentSource),
    Resistor(Resistor),
    Capacitor(Capacitor),
    Inductor(Inductor),
    Diode(Diode),
    BJT(BJT),
    NMOSFET(NMOSFET),
    SubcktInstance(SubcircuitInstance),
}

pub enum ElementView {
    VoltageSource(VoltageSourceView),
    CurrentSource(CurrentSourceView),
    Resistor(ResistorView),
    Capacitor(CapacitorView),
    Inductor(InductorView),
    Diode(DiodeView),
    BJT(BJTView),
    NMOSFET(NMOSFETView),
    SubcktInstance(SubcircuitInstanceView),
}

impl View for Element {
    type V = ElementView;

    open spec fn view(&self) -> ElementView {
        match self {
            Element::VoltageSource(x) => ElementView::VoltageSource(x@),
            Element::CurrentSource(x) => ElementView::CurrentSource(x@),
            Element::Resistor(x) => ElementView::Resistor(x@),
            Element::Capacitor(x) => ElementView::Capacitor(x@),
            Element::Inductor(x) => ElementView::Inductor(x@),
            Element::Diode(x) => ElementView::Diode(x@),
            Element::BJT(x) => ElementView::BJT(x@),
            Element::NMOSFET(x) => ElementView::NMOSFET(x@),
            Element::SubcktInstance(x) => ElementView::SubcktInstance(x@),
        }
    }
}

/// The elements of a list, by their views.
pub open spec fn views(v: Seq<Element>) -> Seq<ElementView> {
    v.map_values(|e: Element| e@)
}

/// The nodes of an element, in the order `Element::nodes` lists them: the
/// two terminals, `plus` then `minus`; collector, emitter, base; drain,
/// gate, source; the nodes of a subcircuit instance.
pub open spec fn element_nodes(e: ElementView) -> Seq<Seq<char>> {
    match e {
        ElementView::VoltageSource(x) => seq![x.plus, x.minus],
        ElementView::CurrentSource(x) => seq![x.plus, x.minus],
        ElementView::Resistor(x) => seq![x.plus, x.minus],
        ElementView::Capacitor(x) => seq![x.plus, x.minus],
        ElementView::Inductor(x) => seq![x.plus, x.minus],
        ElementView::Diode(x) => seq![x.plus, x.minus],
        ElementView::BJT(x) => seq![x.collector, x.emitter, x.base],
        ElementView::NMOSFET(x) => seq![x.drain, x.gate, x.source],
        ElementView::SubcktInstance(x) => x.nodes,
    }
}

/// The element with the nodes that `element_nodes` lists replaced by `ns`,
/// position by position; everything else is unchanged.
pub open spec fn with_nodes(e: ElementView, ns: Seq<Seq<char>>) -> ElementView {
    match e {
        ElementView::VoltageSource(x) => ElementView::VoltageSource(
            VoltageSourceView { plus: ns[0], minus: ns[1], ..x },
        ),
        ElementView::CurrentSource(x) => ElementView::CurrentSource(
            CurrentSourceView { plus: ns[0], minus: ns[1], ..x },
        ),
        ElementView::Resistor(x) => ElementView::Resistor(
            ResistorView { plus: ns[0], minus: ns[1], ..x },
        ),
        ElementView::Capacitor(x) => ElementView::Capacitor(
            CapacitorView { plus: ns[0], minus: ns[1], ..x },
        ),
        ElementView::Inductor(x) => ElementView::Inductor(
            InductorView { plus: ns[0], minus: ns[1], ..x },
        ),
        ElementView::Diode(x) => ElementView::Diode(DiodeView { plus: ns[0], minus: ns[1], ..x }),
        ElementView::BJT(x) => ElementView::BJT(
            BJTView { collector: ns[0], emitter: ns[1], base: ns[2], ..x },
        ),
        ElementView::NMOSFET(x) => ElementView::NMOSFET(
            NMOSFETView { drain: ns[0], gate: ns[1], source: ns[2], ..x },
        ),
        ElementView::SubcktInstance(x) => ElementView::SubcktInstance(
            SubcircuitInstanceView { nodes: ns, ..x },
        ),
    }
}

/// The name of an element: the text after its type letters (a diode's
/// number in decimal; an instance's instance name).
pub open spec fn element_name(e: ElementView) -> Seq<char> {
    match e {
        ElementView::VoltageSource(x) => x.name,
        ElementView::CurrentSource(x) => x.name,
        ElementView::Resistor(x) => x.name,
        ElementView::Capacitor(x) => x.name,
        ElementView::Inductor(x) => x.name,
        ElementView::Diode(x) => decimal_digits(x.name as nat),
        ElementView::BJT(x) => x.name,
        ElementView::NMOSFET(x) => x.name,
        ElementView::SubcktInstance(x) => x.instance_name,
    }
}

/// The element renamed to `n`. A diode is numbered: it takes `n` only where
/// `n` reads as a `u32`, and keeps its number otherwise.
pub open spec fn with_name(e: ElementView, n: Seq<char>) -> ElementView {
    match e {
        ElementView::VoltageSource(x) => ElementView::VoltageSource(
            VoltageSourceView { name: n, ..x },
        ),
        ElementView::CurrentSource(x) => ElementView::CurrentSource(
            CurrentSourceView { name: n, ..x },
        ),
        ElementView::Resistor(x) => ElementView::Resistor(ResistorView { name: n, ..x }),
        ElementView::Capacitor(x) => ElementView::Capacitor(CapacitorView { name: n, ..x }),
        ElementView::Inductor(x) => ElementView::Inductor(InductorView { name: n, ..x }),
        ElementView::Diode(x) => match u32_value(n) {
            Some(v) => ElementView::Diode(DiodeView { name: v, ..x }),
            None => e,
        },
        ElementView::BJT(x) => ElementView::BJT(BJTView { name: n, ..x }),
        ElementView::NMOSFET(x) => ElementView::NMOSFET(NMOSFETView { name: n, ..x }),
        ElementView::SubcktInstance(x) => ElementView::SubcktInstance(
            SubcircuitInstanceView { instance_name: n, ..x },
        ),
    }
}

/// The letter that leads an element's identifier.
pub open spec fn element_letter(e: ElementView) -> char {
    match e {
        ElementView::VoltageSource(_) => 'V',
        ElementView::CurrentSource(_) => 'I',
        ElementView::Resistor(_) => 'R',
        ElementView::Capacitor(_) => 'C',
        ElementView::Inductor(_) => 'L',
        ElementView::Diode(_) => 'D',
        ElementView::BJT(_) => 'Q',
        ElementView::NMOSFET(_) => 'M',
        ElementView::SubcktInstance(_) => 'X',
    }
}

/// The identifier of an element: its letter followed by its name.
pub open spec fn element_identifier(e: ElementView) -> Seq<char> {
    seq![element_letter(e)] + element_name(e)
}

/// Whether the element's current is a variable of its own in the modified
/// nodal analysis: always for voltage sources, inductors and current
/// sources, as the card says for resistors and capacitors, never for the
/// others.
pub open spec fn element_is_g2(e: ElementView) -> bool {
    match e {
        ElementView::VoltageSource(_) => true,
        ElementView::Inductor(_) => true,
        ElementView::Resistor(x) => x.g2,
        ElementView::Capacitor(x) => x.g2,
        ElementView::CurrentSource(_) => true,
        _ => false,
    }
}

/// Whether the element is one of the non-linear devices: diodes, bipolar
/// transistors and MOSFETs.
pub open spec fn element_is_nonlinear(e: ElementView) -> bool {
    match e {
        ElementView::Diode(_) | ElementView::BJT(_) | ElementView::NMOSFET(_) => true,
        _ => false,
    }
}

/// The nodes written into an element are the ones read back, and writing
/// an element's own nodes into it changes nothing.
pub proof fn law_nodes_read_back(e: ElementView, ns: Seq<Seq<char>>)
    requires
        ns.len() == element_nodes(e).len(),
    ensures
        element_nodes(with_nodes(e, ns)) == ns,
        with_nodes(e, element_nodes(e)) == e,
{
    assert(element_nodes(with_nodes(e, ns)) =~= ns);
}

/// A new name is read back (for any element but a diode, whose name is a
/// number), and renaming an element to its own name changes nothing.
pub proof fn law_name_read_back(e: ElementView, n: Seq<char>)
    ensures
        !(e is Diode) ==> element_name(with_name(e, n)) == n,
        with_name(e, element_name(e)) == e,
        element_nodes(with_name(e, n)) == element_nodes(e),
{
    if let ElementView::Diode(d) = e {
        lemma_u32_round_trip(d.name);
    }
}

/// The element card at the start of `s`: the first of resistor, capacitor,
/// inductor, voltage source, current source, diode, bipolar transistor,
/// MOSFET and subcircuit instance that matches. A voltage source card that
/// fails past the point of no return (an exponent without digits) ends the
/// search.
pub open spec fn element_at(s: Seq<char>) -> Result<(int, ElementView), ParseFailure> {
    if let Some((e, x)) = resistor_at(s, 0) {
        Ok((e, ElementView::Resistor(x)))
    } else if let Some((e, x)) = capacitor_at(s, 0) {
        Ok((e, ElementView::Capacitor(x)))
    } else if let Some((e, x)) = inductor_at(s, 0) {
        Ok((e, ElementView::Inductor(x)))
    } else {
        match voltage_source_at(s, 0) {
            Ok((e, x)) => Ok((e, ElementView::VoltageSource(x))),
            Err(ParseFailure::Failure) => Err(ParseFailure::Failure),
            Err(ParseFailure::Error) => if let Some((e, x)) = current_source_at(s, 0) {
                Ok((e, ElementView::CurrentSource(x)))
            } else if let Some((e, x)) = diode_at(s, 0) {
                Ok((e, ElementView::Diode(x)))
            } else if let Some((e, x)) = bjt_at(s, 0) {
                Ok((e, ElementView::BJT(x)))
            } else if let Some((e, x)) = nmosfet_at(s, 0) {
                Ok((e, ElementView::NMOSFET(x)))
            } else if let Some((e, x)) = subckt_instance_at(s, 0) {
                Ok((e, ElementView::SubcktInstance(x)))
            } else {
                Err(ParseFailure::Error)
            },
        }
    }
}

/// The element that a line starts with; what follows the card is ignored.
pub open spec fn element_line(s: Seq<char>) -> Option<ElementView> {
    match element_at(s) {
        Ok((_, x)) => Some(x),
        Err(_) => None,
    }
}

pub(crate) fn read_element(s: &[char]) -> (r: Result<(usize, Element), ParseFailure>)
    ensures
        match r {
            Ok((e, x)) => element_at(s@) == Ok::<_, ParseFailure>((e as int, x@)),
            Err(f) => element_at(s@) == Err::<(int, ElementView), _>(f),
        },
{
    if let Some((e, x)) = read_resistor(s, 0) {
        return Ok((e, Element::Resistor(x)));
    }
    if let Some((e, x)) = read_capacitor(s, 0) {
        return Ok((e, Element::Capacitor(x)));
    }
    if let Some((e, x)) = read_inductor(s, 0) {
        return Ok((e, Element::Inductor(x)));
    }
    match read_voltage_source(s, 0) {
        Ok((e, x)) => {
            return Ok((e, Element::VoltageSource(x)));
        },
        Err(ParseFailure::Failure) => {
            return Err(ParseFailure::Failure);
        },
        Err(ParseFailure::Error) => {},
    }
    if let Some((e, x)) = read_current_source(s, 0) {
        return Ok((e, Element::CurrentSource(x)));
    }
    if let Some((e, x)) = read_diode(s, 0) {
        return Ok((e, Element::Diode(x)));
    }
    if let Some((e, x)) = read_bjt(s, 0) {
        return Ok((e, Element::BJT(x)));
    }
    if let Some((e, x)) = read_nmosfet(s, 0) {
        return Ok((e, Element::NMOSFET(x)));
    }
    if let Some((e, x)) = read_subckt_instance(s, 0) {
        return Ok((e, Element::SubcktInstance(x)));
    }
    Err(ParseFailure::Error)
}

/// Reads the element card that `input` starts with, trying each kind of
/// card in turn; text after the card is ignored.
pub fn parse_element(input: &str) -> (r: Result<Element, Error>)
    ensures
        match r {
            Ok(x) => element_line(input@) == Some(x@),
            Err(e) => element_line(input@) is None && (e matches Error::Unexpected(m) && m@
                == "Failed to parse element from input '"@ + input@ + "'"@),
        },
{
    let s = to_chars(input);
    match read_element(s.as_slice()) {
        Ok((_, x)) => Ok(x),
        Err(_) => Err(Error::Unexpected(framed("Failed to parse element from input '", input, "'"))),
    }
}

impl Element {
    /// The nodes of the element, in the order that `element_nodes` gives.
    pub fn nodes(&self) -> (r: Vec<&str>)
        ensures
            r@.len() == element_nodes(self@).len(),
            forall|i: int| 0 <= i < r@.len() ==> #[trigger] r@[i]@ == element_nodes(self@)[i],
    {
        let mut v: Vec<&str> = Vec::new();
        match self {
            Element::VoltageSource(x) => {
                v.push(x.plus.as_str());
                v.push(x.minus.as_str());
            },
            Element::CurrentSource(x) => {
                v.push(x.plus.as_str());
                v.push(x.minus.as_str());
            },
            Element::Resistor(x) => {
                v.push(x.plus.as_str());
                v.push(x.minus.as_str());
            },
            Element::Capacitor(x) => {
                v.push(x.plus.as_str());
                v.push(x.minus.as_str());
            },
            Element::Inductor(x) => {
                v.push(x.plus.as_str());
                v.push(x.minus.as_str());
            },
            Element::Diode(x) => {
                v.push(x.plus.as_str());
                v.push(x.minus.as_str());
            },
            Element::BJT(x) => {
                v.push(x.collector.as_str());
                v.push(x.emitter.as_str());
                v.push(x.base.as_str());
            },
            Element::NMOSFET(x) => {
                v.push(x.drain.as_str());
                v.push(x.gate.as_str());
                v.push(x.source.as_str());
            },
            Element::SubcktInstance(x) => {
                let mut i: usize = 0;
                while i < x.nodes.len()
                    invariant
                        i <= x.nodes@.len(),
                        v@.len() == i,
                        forall|j: int| 0 <= j < i ==> #[trigger] v@[j]@ == x.nodes@[j]@,
                    decreases x.nodes@.len() - i,
                {
                    v.push(x.nodes[i].as_str());
                    i += 1;
                }
            },
        }
        v
    }

    /// Mutable references to the nodes of the element, in the order that
    /// `element_nodes` gives; what is written through them becomes the
    /// element's nodes, and nothing else of it changes.
    pub fn nodes_mut(&mut self) -> (r: Vec<&mut String>)
        ensures
            r@.len() == element_nodes(old(self)@).len(),
            forall|i: int| 0 <= i < r@.len() ==> (*r@[i])@ == element_nodes(old(self)@)[i],
            element_nodes(final(self)@).len() == r@.len(),
            forall|i: int|
                0 <= i < r@.len() ==> element_nodes(final(self)@)[i] == (*final(r@[i]))@,
            final(self)@ == with_nodes(old(self)@, element_nodes(final(self)@)),
    {
        let mut v: Vec<&mut String> = Vec::new();
        match self {
            Element::VoltageSource(x) => {
                v.push(&mut x.plus);
                v.push(&mut x.minus);
            },
            Element::CurrentSource(x) => {
                v.push(&mut x.plus);
                v.push(&mut x.minus);
            },
            Element::Resistor(x) => {
                v.push(&mut x.plus);
                v.push(&mut x.minus);
            },
            Element::Capacitor(x) => {
                v.push(&mut x.plus);
                v.push(&mut x.minus);
            },
            Element::Inductor(x) => {
                v.push(&mut x.plus);
                v.push(&mut x.minus);
            },
            Element::Diode(x) => {
                v.push(&mut x.plus);
                v.push(&mut x.minus);
            },
            Element::BJT(x) => {
                v.push(&mut x.collector);
                v.push(&mut x.emitter);
                v.push(&mut x.base);
            },
            Element::NMOSFET(x) => {
                v.push(&mut x.drain);
                v.push(&mut x.gate);
                v.push(&mut x.source);
            },
            Element::SubcktInstance(x) => {
                v = refs_of(x.nodes.as_mut_slice());
            },
        }
        v
    }

    /// The name of the element (see `element_name`).
    pub fn name(&self) -> (r: String)
        ensures
            r@ == element_name(self@),
    {
        match self {
            Element::VoltageSource(x) => x.name.clone(),
            Element::CurrentSource(x) => x.name.clone(),
            Element::Resistor(x) => x.name.clone(),
            Element::Capacitor(x) => x.name.clone(),
            Element::Inductor(x) => x.name.clone(),
            Element::Diode(x) => decimal_string(x.name as u64),
            Element::BJT(x) => x.name.clone(),
            Element::NMOSFET(x) => x.name.clone(),
            Element::SubcktInstance(x) => x.instance_name.clone(),
        }
    }

    /// Renames the element (see `with_name`: a diode keeps its number
    /// unless the new name reads as a `u32`).
    pub fn set_name(&mut self, new_name: &str)
        ensures
            final(self)@ == with_name(old(self)@, new_name@),
    {
        match self {
            Element::VoltageSource(x) => x.name = new_name.to_owned(),
            Element::CurrentSource(x) => x.name = new_name.to_owned(),
            Element::Resistor(x) => x.name = new_name.to_owned(),
            Element::Capacitor(x) => x.name = new_name.to_owned(),
            Element::Inductor(x) => x.name = new_name.to_owned(),
            Element::Diode(x) => {
                let digits = to_chars(new_name);
                if let Some(v) = crate::number::parse_u32(digits.as_slice()) {
                    x.name = v;
                }
            },
            Element::BJT(x) => x.name = new_name.to_owned(),
            Element::NMOSFET(x) => x.name = new_name.to_owned(),
            Element::SubcktInstance(x) => x.instance_name = new_name.to_owned(),
        }
    }

    /// Whether the element's current is a variable of its own (group 2).
    pub fn is_g2(&self) -> (r: bool)
        ensures
            r == element_is_g2(self@),
    {
        match self {
            Element::VoltageSource(_) => true,
            Element::Inductor(_) => true,
            Element::Resistor(x) => x.g2,
            Element::Capacitor(x) => x.g2,
            Element::CurrentSource(_) => true,
            Element::Diode(_) | Element::BJT(_) | Element::NMOSFET(_) | Element::SubcktInstance(
                _,
            ) => false,
        }
    }

    /// Whether the element is non-linear.
    pub fn is_nonlinear(&self) -> (r: bool)
        ensures
            r == element_is_nonlinear(self@),
    {
        match self {
            Element::Diode(_) | Element::BJT(_) | Element::NMOSFET(_) => true,
            _ => false,
        }
    }

    /// The identifier of the element: its letter followed by its name.
    pub fn identifier(&self) -> (r: String)
        ensures
            r@ == element_identifier(self@),
    {
        match self {
            Element::VoltageSource(x) => x.identifier(),
            Element::CurrentSource(x) => x.identifier(),
            Element::Resistor(x) => x.identifier(),
            Element::Capacitor(x) => x.identifier(),
            Element::Inductor(x) => x.identifier(),
            Element::Diode(x) => x.identifier(),
            Element::BJT(x) => x.identifier(),
            Element::NMOSFET(x) => x.identifier(),
            Element::SubcktInstance(x) => x.identifier(),
        }
    }

    /// A copy of the element.
    pub fn duplicate(&self) -> (r: Element)
        ensures
            r@ == self@,
    {
        match self {
            Element::VoltageSource(x) => Element::VoltageSource(x.duplicate()),
            Element::CurrentSource(x) => Element::CurrentSource(x.duplicate()),
            Element::Resistor(x) => Element::Resistor(x.duplicate()),
            Element::Capacitor(x) => Element::Capacitor(x.duplicate()),
            Element::Inductor(x) => Element::Inductor(x.duplicate()),
            Element::Diode(x) => Element::Diode(x.duplicate()),
            Element::BJT(x) => Element::BJT(x.duplicate()),
            Element::NMOSFET(x) => Element::NMOSFET(x.duplicate()),
            Element::SubcktInstance(x) => Element::SubcktInstance(x.duplicate()),
        }
    }
}

impl From<VoltageSource> for Element {
    fn from(item: VoltageSource) -> Element {
        Element::VoltageSource(item)
    }
}

impl vstd::std_specs::convert::FromSpecImpl<VoltageSource> for Element {
    open spec fn obeys_from_spec() -> bool {
        true
    }

    open spec fn from_spec(item: VoltageSource) -> Element {
        Element::VoltageSource(item)
    }
}

impl From<CurrentSource> for Element {
    fn from(item: CurrentSource) -> Element {
        Element::CurrentSource(item)
    }
}

impl vstd::std_specs::convert::FromSpecImpl<CurrentSource> for Element {
    open spec fn obeys_from_spec() -> bool {
        true
    }

    open spec fn from_spec(item: CurrentSource) -> Element {
        Element::CurrentSource(item)
    }
}

impl From<Resistor> for Element {
    fn from(item: Resistor) -> Element {
        Element::Resistor(item)
    }
}

impl vstd::std_specs::convert::FromSpecImpl<Resistor> for Element {
    open spec fn obeys_from_spec() -> bool {
        true
    }

    open spec fn from_spec(item: Resistor) -> Element {
        Element::Resistor(item)
    }
}

impl From<Capacitor> for Element {
    fn from(item: Capacitor) -> Element {
        Element::Capacitor(item)
    }
}

impl vstd::std_specs::convert::FromSpecImpl<Capacitor> for Element {
    open spec fn obeys_from_spec() -> bool {
        true
    }

    open spec fn from_spec(item: Capacitor) -> Element {
        Element::Capacitor(item)
    }
}

impl From<Inductor> for Element {
    fn from(item: Inductor) -> Element {
        Element::Inductor(item)
    }
}

impl vstd::std_specs::convert::FromSpecImpl<Inductor> for Element {
    open spec fn obeys_from_spec() -> bool {
        true
    }

    open spec fn from_spec(item: Inductor) -> Element {
        Element::Inductor(item)
    }
}

impl From<Diode> for Element {
    fn from(item: Diode) -> Element {
        Element::Diode(item)
    }
}

impl vstd::std_specs::convert::FromSpecImpl<Diode> for Element {
    open spec fn obeys_from_spec() -> bool {
        true
    }

    open spec fn from_spec(item: Diode) -> Element {
        Element::Diode(item)
    }
}

impl From<BJT> for Element {
    fn from(item: BJT) -> Element {
        Element::BJT(item)
    }
}

impl vstd::std_specs::convert::FromSpecImpl<BJT> for Element {
    open spec fn obeys_from_spec() -> bool {
        true
    }

    open spec fn from_spec(item: BJT) -> Element {
        Element::BJT(item)
    }
}

impl From<NMOSFET> for Element {
    fn from(item: NMOSFET) -> Element {
        Element::NMOSFET(item)
    }
}

impl vstd::std_specs::convert::FromSpecImpl<NMOSFET> for Element {
    open spec fn obeys_from_spec() -> bool {
        true
    }

    open spec fn from_spec(item: NMOSFET) -> Element {
        Element::NMOSFET(item)
    }
}

/// What each kind of element is to the analysis: diodes, bipolar
/// transistors and MOSFETs are the nonlinear elements; voltage sources,
/// current sources and inductors always take a current unknown (group 2),
/// resistors and capacitors only when marked so, and no other element does;
/// an element's view is of its own kind.
pub proof fn law_element_kinds(e: Element)
    ensures
        element_is_nonlinear(e@) <==> (e is Diode || e is BJT || e is NMOSFET),
        element_is_g2(e@) <==> (e is VoltageSource || e is Inductor || e is CurrentSource || (
        e matches Element::Resistor(x) && x.g2) || (e matches Element::Capacitor(x) && x.g2)),
        element_is_nonlinear(e@) ==> !element_is_g2(e@),
        (e is VoltageSource) == (e@ is VoltageSource),
        (e is CurrentSource) == (e@ is CurrentSource),
        (e is Resistor) == (e@ is Resistor),
        (e is Capacitor) == (e@ is Capacitor),
        (e is Inductor) == (e@ is Inductor),
        (e is Diode) == (e@ is Diode),
        (e is BJT) == (e@ is BJT),
        (e is NMOSFET) == (e@ is NMOSFET),
        (e is SubcktInstance) == (e@ is SubcktInstance),
{
}

/// Each element's letter and nodes: `V`, `I`, `R`, `C`, `L` and `D` with
/// their plus and minus nodes, in that order; `Q` with collector, emitter
/// and base; `M` with drain, gate and source; `X` with the instance's
/// nodes.
pub proof fn law_element_identity(e: Element)
    ensures
        e matches Element::VoltageSource(x) ==> element_letter(e@) == 'V' && element_nodes(e@) == seq![x.plus@, x.minus@],
        e matches Element::CurrentSource(x) ==> element_letter(e@) == 'I' && element_nodes(e@) == seq![x.plus@, x.minus@],
        e matches Element::Resistor(x) ==> element_letter(e@) == 'R' && element_nodes(e@) == seq![x.plus@, x.minus@],
        e matches Element::Capacitor(x) ==> element_letter(e@) == 'C' && element_nodes(e@) == seq![x.plus@, x.minus@],
        e matches Element::Inductor(x) ==> element_letter(e@) == 'L' && element_nodes(e@) == seq![x.plus@, x.minus@],
        e matches Element::Diode(x) ==> element_letter(e@) == 'D' && element_nodes(e@) == seq![x.plus@, x.minus@],
        e matches Element::BJT(x) ==> element_letter(e@) == 'Q' && element_nodes(e@) == seq![x.collector@, x.emitter@, x.base@],
        e matches Element::NMOSFET(x) ==> element_letter(e@) == 'M' && element_nodes(e@) == seq![x.drain@, x.gate@, x.source@],
        e matches Element::SubcktInstance(x) ==> element_letter(e@) == 'X' && element_nodes(e@)
            == x@.nodes,
{
}

} // verus!
