//! Reading a whole netlist into a circuit.
//!
//! The netlist is read line by line; on each line the text from the first
//! `%` or `*` on is a comment, and what precedes it is trimmed. Lines that
//! are then empty carry nothing. Keywords are matched up
//! to case. `.control` ... `.endc` blocks and `.subckt` ... `.ends`
//! definitions are skipped (the definitions are collected beforehand, see
//! `parse_subcircuits`), `.end` is ignored, `.model` lines define models
//! and every other line must start with an element card. Subcircuit
//! instances are replaced by the primitive elements that they stand for.

use vstd::prelude::*;

use crate::circuit::{index_view, models_view, Circuit, CircuitView};
use crate::elements::diode::Diode;
use crate::elements::nmosfet::NMOSFET;
use crate::elements::subcircuit::{
    all_primitive, collect_subcircuits, definitions_view, ends_keyword, expand, is_blank_line,
    law_expansion_is_primitive, lemma_expand_more_fuel, subckt_keyword, subcircuits_of,
    SubcircuitDefinition, SubcircuitDefinitionView, SubcktScan,
};
use crate::elements::{
    element_identifier, element_is_g2, element_line, element_nodes, read_element, views, Element,
    ElementView,
};
use crate::error::Error;
use crate::models::{model_line, model_name, parse_model, Model, ModelView};
use crate::name_map::NameMap;
use crate::text::{
    contains_string, equal_no_case, framed, lines_of, lines_view, same_no_case,
    split_lines, starts_no_case, starts_with_no_case, string_from, strings_view, to_chars,
    strip_comment, trim_chars, trimmed, without_comment, wrapped,
};

verus! {

// ---------------------------------------------------------------------------
// The line scan
// ---------------------------------------------------------------------------

pub open spec fn control_keyword() -> Seq<char> {
    seq!['.', 'c', 'o', 'n', 't', 'r', 'o', 'l']
}

pub open spec fn endc_keyword() -> Seq<char> {
    seq!['.', 'e', 'n', 'd', 'c']
}

pub open spec fn end_keyword() -> Seq<char> {
    seq!['.', 'e', 'n', 'd']
}

pub open spec fn model_keyword() -> Seq<char> {
    seq!['.', 'm', 'o', 'd', 'e', 'l']
}

/// What the scan of a netlist has gathered so far.
pub struct DescState {
    pub elements: Seq<ElementView>,
    pub models: Map<Seq<char>, ModelView>,
    pub control: bool,
    pub subckt: bool,
}

/// Why a netlist is refused.
pub enum DescFailure {
    /// A subcircuit definition, or the expansion of an instance, is wrong.
    InvalidFormat,
    /// The line with this number (counted from 1) holds no valid card.
    ParseError(nat),
    /// The netlist holds no element.
    EmptyNetlist,
}

/// The outcome of the line scan: the state reached, a failure, or an
/// instance whose expansion needs more levels than allowed.
pub enum DescScan {
    Reached(DescState),
    Failed(DescFailure),
    Unended,
}

/// One line, number `number`, of the scan, its comment removed and trimmed (see the module
/// documentation).
pub open spec fn desc_step(
    defs: Map<Seq<char>, SubcircuitDefinitionView>,
    st: DescState,
    line: Seq<char>,
    number: nat,
    fuel: nat,
) -> DescScan {
    if is_blank_line(line) {
        DescScan::Reached(st)
    } else if starts_no_case(line, 0, control_keyword()) {
        DescScan::Reached(DescState { control: true, ..st })
    } else if starts_no_case(line, 0, endc_keyword()) {
        DescScan::Reached(DescState { control: false, ..st })
    } else if st.control {
        DescScan::Reached(st)
    } else if starts_no_case(line, 0, subckt_keyword()) {
        DescScan::Reached(DescState { subckt: true, ..st })
    } else if starts_no_case(line, 0, ends_keyword()) {
        DescScan::Reached(DescState { subckt: false, ..st })
    } else if st.subckt {
        DescScan::Reached(st)
    } else if same_no_case(line, end_keyword()) {
        DescScan::Reached(st)
    } else if starts_no_case(line, 0, model_keyword()) {
        match model_line(line) {
            None => DescScan::Failed(DescFailure::ParseError(number)),
            Some(m) => DescScan::Reached(
                DescState { models: st.models.insert(model_name(m), m), ..st },
            ),
        }
    } else {
        match element_line(line) {
            None => DescScan::Failed(DescFailure::ParseError(number)),
            Some(ElementView::SubcktInstance(inst)) => match expand(defs, inst, fuel) {
                None => DescScan::Unended,
                Some(Err(())) => DescScan::Failed(DescFailure::InvalidFormat),
                Some(Ok(more)) => DescScan::Reached(
                    DescState { elements: st.elements + more, ..st },
                ),
            },
            Some(e) => DescScan::Reached(DescState { elements: st.elements.push(e), ..st }),
        }
    }
}

/// The scan over the lines, each without its comment and trimmed, numbered
/// from 1; it stops at
/// the first failure.
pub open spec fn desc_scan(
    defs: Map<Seq<char>, SubcircuitDefinitionView>,
    lines: Seq<Seq<char>>,
    fuel: nat,
) -> DescScan
    decreases lines.len(),
{
    if lines.len() == 0 {
        DescScan::Reached(
            DescState {
                elements: Seq::empty(),
                models: Map::empty(),
                control: false,
                subckt: false,
            },
        )
    } else {
        match desc_scan(defs, lines.drop_last(), fuel) {
            DescScan::Reached(st) => desc_step(
                defs,
                st,
                without_comment(lines.last(), true),
                lines.len(),
                fuel,
            ),
            other => other,
        }
    }
}

// ---------------------------------------------------------------------------
// Numbering the unknowns
// ---------------------------------------------------------------------------

/// The numbering built so far: the index of each unknown, the nodes met
/// (in order) and the next free index.
pub struct IndexState {
    pub index: Map<Seq<char>, nat>,
    pub nodes: Seq<Seq<char>>,
    pub counter: nat,
}

/// The ground node.
pub open spec fn ground() -> Seq<char> {
    seq!['0']
}

/// The unknown for the voltage of a node: `V(<node>)`.
pub open spec fn voltage_key(node: Seq<char>) -> Seq<char> {
    seq!['V', '('] + node + seq![')']
}

/// The unknown for the current through an element: `I(<identifier>)`.
pub open spec fn current_key(e: ElementView) -> Seq<char> {
    seq!['I', '('] + element_identifier(e) + seq![')']
}

/// The nodes of one element, in order: a node met for the first time is
/// recorded and, unless it is ground, numbered.
pub open spec fn index_nodes(st: IndexState, ns: Seq<Seq<char>>) -> IndexState
    decreases ns.len(),
{
    if ns.len() == 0 {
        st
    } else {
        let s1 = index_nodes(st, ns.drop_last());
        let n = ns.last();
        if s1.nodes.contains(n) {
            s1
        } else if n == ground() {
            IndexState { nodes: s1.nodes.push(n), ..s1 }
        } else {
            IndexState {
                index: s1.index.insert(voltage_key(n), s1.counter),
                nodes: s1.nodes.push(n),
                counter: s1.counter + 1,
            }
        }
    }
}

/// One element: its current first, if it is of group 2, then its nodes.
pub open spec fn index_element(st: IndexState, e: ElementView) -> IndexState {
    let s1 = if element_is_g2(e) {
        IndexState { index: st.index.insert(current_key(e), st.counter), counter: st.counter + 1, ..st }
    } else {
        st
    };
    index_nodes(s1, element_nodes(e))
}

/// The numbering of the unknowns of a list of elements, taken in order.
pub open spec fn index_elements(elems: Seq<ElementView>) -> IndexState
    decreases elems.len(),
{
    if elems.len() == 0 {
        IndexState { index: Map::empty(), nodes: Seq::empty(), counter: 0 }
    } else {
        index_element(index_elements(elems.drop_last()), elems.last())
    }
}

// ---------------------------------------------------------------------------
// Models
// ---------------------------------------------------------------------------

/// Whether every diode and MOSFET names a model of its own kind.
pub open spec fn models_complete(elems: Seq<ElementView>, models: Map<Seq<char>, ModelView>) -> bool {
    forall|i: int|
        0 <= i < elems.len() ==> match #[trigger] elems[i] {
            ElementView::Diode(d) => models.contains_key(d.model_name) && models[d.model_name] is Diode,
            ElementView::NMOSFET(m) => models.contains_key(m.model_name)
                && models[m.model_name] is NMosfet,
            _ => true,
        }
}

/// An element with the model that it names: a diode or MOSFET takes its
/// model from the map; other elements are unchanged.
pub open spec fn with_model(e: ElementView, models: Map<Seq<char>, ModelView>) -> ElementView {
    match e {
        ElementView::Diode(d) => match models[d.model_name] {
            ModelView::Diode(m) => ElementView::Diode(crate::elements::diode::DiodeView { model: m, ..d }),
            _ => e,
        },
        ElementView::NMOSFET(x) => match models[x.model_name] {
            ModelView::NMosfet(m) => ElementView::NMOSFET(
                crate::elements::nmosfet::NMOSFETView { model: m, ..x },
            ),
            _ => e,
        },
        _ => e,
    }
}

/// Every element with the model that it names.
pub open spec fn with_models(elems: Seq<ElementView>, models: Map<Seq<char>, ModelView>) -> Seq<
    ElementView,
> {
    elems.map_values(|e: ElementView| with_model(e, models))
}

// ---------------------------------------------------------------------------
// The whole netlist
// ---------------------------------------------------------------------------

/// The outcome of reading a netlist: a circuit, a failure, or a stop that
/// the code cannot recover from (a `.subckt` keyword that cannot be cut, a
/// numbering beyond `usize`, a diode or MOSFET whose model is missing).
pub enum Description {
    Parsed(CircuitView),
    Failed(DescFailure),
    Aborted,
}

/// What reading `input` gives when instances may nest `fuel` levels deep;
/// `None` where that is not enough.
pub open spec fn describe(input: Seq<char>, fuel: nat) -> Option<Description> {
    match subcircuits_of(input) {
        SubcktScan::Aborted => Some(Description::Aborted),
        SubcktScan::Refused => Some(Description::Failed(DescFailure::InvalidFormat)),
        SubcktScan::Reached(sub) => match desc_scan(sub.defs, split_lines(input), fuel) {
            DescScan::Unended => None,
            DescScan::Failed(f) => Some(Description::Failed(f)),
            DescScan::Reached(st) => {
                let ix = index_elements(st.elements);
                if ix.counter > usize::MAX {
                    Some(Description::Aborted)
                } else if st.elements.len() == 0 {
                    Some(Description::Failed(DescFailure::EmptyNetlist))
                } else if !models_complete(st.elements, st.models) {
                    Some(Description::Aborted)
                } else {
                    Some(
                        Description::Parsed(
                            CircuitView {
                                elements: with_models(st.elements, st.models),
                                index_map: ix.index,
                                nodes: ix.nodes,
                                models: st.models,
                                subcircuit_definitions: sub.defs,
                            },
                        ),
                    )
                }
            },
        },
    }
}

/// Whether an error is the one that a failure calls for.
pub open spec fn error_for(e: Error, f: DescFailure) -> bool {
    match f {
        DescFailure::InvalidFormat => e is InvalidFormat,
        DescFailure::ParseError(n) => e matches Error::ParseError { line, .. } && line == n,
        DescFailure::EmptyNetlist => e is EmptyNetlist,
    }
}


// ---------------------------------------------------------------------------
// Lemmas
// ---------------------------------------------------------------------------

proof fn lemma_desc_scan_prefix(
    defs: Map<Seq<char>, SubcircuitDefinitionView>,
    lines: Seq<Seq<char>>,
    fuel: nat,
    k: int,
)
    requires
        0 <= k <= lines.len(),
        !(desc_scan(defs, lines.take(k), fuel) is Reached),
    ensures
        desc_scan(defs, lines, fuel) == desc_scan(defs, lines.take(k), fuel),
    decreases lines.len() - k,
{
    if k < lines.len() {
        assert(lines.take(k + 1).drop_last() == lines.take(k));
        lemma_desc_scan_prefix(defs, lines, fuel, k + 1);
    } else {
        assert(lines.take(k) == lines);
    }
}

/// More levels of nesting change nothing once the scan has an outcome.
pub proof fn lemma_desc_scan_more_fuel(
    defs: Map<Seq<char>, SubcircuitDefinitionView>,
    lines: Seq<Seq<char>>,
    fuel: nat,
    more: nat,
)
    requires
        !(desc_scan(defs, lines, fuel) is Unended),
        fuel <= more,
    ensures
        desc_scan(defs, lines, more) == desc_scan(defs, lines, fuel),
    decreases lines.len(),
{
    if lines.len() > 0 {
        let prev = desc_scan(defs, lines.drop_last(), fuel);
        if prev is Unended {
            assert(desc_scan(defs, lines, fuel) is Unended);
        }
        lemma_desc_scan_more_fuel(defs, lines.drop_last(), fuel, more);
        if let DescScan::Reached(st) = prev {
            let line = without_comment(lines.last(), true);
            if let Some(ElementView::SubcktInstance(inst)) = element_line(line) {
                if expand(defs, inst, fuel) is Some {
                    lemma_expand_more_fuel(defs, inst, fuel, more);
                }
            }
        }
    }
}

proof fn lemma_index_nodes_prefix(st: IndexState, ns: Seq<Seq<char>>, k: int)
    requires
        0 <= k <= ns.len(),
    ensures
        st.counter <= index_nodes(st, ns.take(k)).counter <= index_nodes(st, ns).counter,
    decreases ns.len() - k,
{
    lemma_index_nodes_grows(st, ns.take(k));
    if k < ns.len() {
        lemma_index_nodes_prefix(st, ns, k + 1);
        assert(ns.take(k + 1).drop_last() == ns.take(k));
        assert(index_nodes(st, ns.take(k)).counter <= index_nodes(st, ns.take(k + 1)).counter);
    } else {
        assert(ns.take(k) == ns);
    }
}

proof fn lemma_index_nodes_grows(st: IndexState, ns: Seq<Seq<char>>)
    ensures
        st.counter <= index_nodes(st, ns).counter,
    decreases ns.len(),
{
    if ns.len() > 0 {
        lemma_index_nodes_grows(st, ns.drop_last());
    }
}

proof fn lemma_index_elements_prefix(elems: Seq<ElementView>, k: int)
    requires
        0 <= k <= elems.len(),
    ensures
        index_elements(elems.take(k)).counter <= index_elements(elems).counter,
    decreases elems.len() - k,
{
    if k < elems.len() {
        lemma_index_elements_prefix(elems, k + 1);
        assert(elems.take(k + 1).drop_last() == elems.take(k));
        let st = index_elements(elems.take(k));
        let e = elems[k];
        let s1 = if element_is_g2(e) {
            IndexState { index: st.index.insert(current_key(e), st.counter), counter: st.counter + 1, ..st }
        } else {
            st
        };
        lemma_index_nodes_grows(s1, element_nodes(e));
    } else {
        assert(elems.take(k) == elems);
    }
}

proof fn lemma_index_view_insert(m: Map<Seq<char>, usize>, k: Seq<char>, v: usize)
    ensures
        index_view(m.insert(k, v)) == index_view(m).insert(k, v as nat),
{
    assert(index_view(m.insert(k, v)) =~= index_view(m).insert(k, v as nat));
}

proof fn lemma_models_view_insert(m: Map<Seq<char>, Model>, k: Seq<char>, v: Model)
    ensures
        models_view(m.insert(k, v)) == models_view(m).insert(k, v@),
{
    assert(models_view(m.insert(k, v)) =~= models_view(m).insert(k, v@));
}

// ---------------------------------------------------------------------------
// Laws of the numbering
// ---------------------------------------------------------------------------

/// A numbering in which ground has no unknown, no two unknowns share an
/// index, every index is below the count, no node is listed twice and every
/// listed node but ground has its voltage unknown.
pub open spec fn numbering_sound(ix: IndexState) -> bool {
    &&& !ix.index.contains_key(voltage_key(ground()))
    &&& forall|a: Seq<char>, b: Seq<char>|
        #![trigger ix.index[a], ix.index[b]]
        ix.index.contains_key(a) && ix.index.contains_key(b) && a != b ==> ix.index[a]
            != ix.index[b]
    &&& forall|a: Seq<char>| #[trigger] ix.index.contains_key(a) ==> ix.index[a] < ix.counter
    &&& forall|i: int, j: int|
        0 <= i < j < ix.nodes.len() ==> #[trigger] ix.nodes[i] != #[trigger] ix.nodes[j]
    &&& forall|i: int|
        0 <= i < ix.nodes.len() && #[trigger] ix.nodes[i] != ground() ==> ix.index.contains_key(
            voltage_key(ix.nodes[i]),
        )
}

/// `b` keeps the unknowns and the nodes of `a`.
pub open spec fn numbering_grows(a: IndexState, b: IndexState) -> bool {
    &&& forall|k: Seq<char>| #[trigger] a.index.contains_key(k) ==> b.index.contains_key(k)
    &&& forall|n: Seq<char>| #[trigger] a.nodes.contains(n) ==> b.nodes.contains(n)
    &&& a.counter <= b.counter
}

proof fn lemma_voltage_key_injective(a: Seq<char>, b: Seq<char>)
    requires
        voltage_key(a) == voltage_key(b),
    ensures
        a == b,
{
    assert(voltage_key(a).len() == a.len() + 3);
    assert(voltage_key(b).len() == b.len() + 3);
    assert(voltage_key(a).subrange(2, 2 + a.len() as int) =~= a);
    assert(voltage_key(b).subrange(2, 2 + b.len() as int) =~= b);
}

proof fn lemma_keys_differ(n: Seq<char>, e: ElementView)
    ensures
        voltage_key(n) != current_key(e),
{
    assert(voltage_key(n)[0] == 'V');
    assert(current_key(e)[0] == 'I');
}

/// A fresh unknown keeps a numbering sound.
proof fn lemma_fresh_unknown(ix: IndexState, k: Seq<char>)
    requires
        numbering_sound(ix),
        k != voltage_key(ground()),
    ensures
        numbering_sound(IndexState { index: ix.index.insert(k, ix.counter), counter: ix.counter + 1, ..ix }),
        numbering_grows(ix, IndexState { index: ix.index.insert(k, ix.counter), counter: ix.counter + 1, ..ix }),
{
    let m = ix.index.insert(k, ix.counter);
    assert forall|a: Seq<char>, b: Seq<char>|
        #![trigger m[a], m[b]]
        m.contains_key(a) && m.contains_key(b) && a != b implies m[a] != m[b] by {
        if a != k && b != k {
            assert(ix.index[a] != ix.index[b]);
        } else if a == k {
            assert(ix.index.contains_key(b));
            assert(ix.index[b] < ix.counter);
        } else {
            assert(ix.index.contains_key(a));
            assert(ix.index[a] < ix.counter);
        }
    }
    assert forall|a: Seq<char>| #[trigger] m.contains_key(a) implies m[a] < ix.counter + 1 by {
        if a != k {
            assert(ix.index.contains_key(a));
        }
    }
}

proof fn lemma_index_nodes_sound(st: IndexState, ns: Seq<Seq<char>>)
    requires
        numbering_sound(st),
    ensures
        numbering_sound(index_nodes(st, ns)),
        numbering_grows(st, index_nodes(st, ns)),
        forall|j: int| 0 <= j < ns.len() ==> index_nodes(st, ns).nodes.contains(#[trigger] ns[j]),
    decreases ns.len(),
{
    if ns.len() > 0 {
        let s1 = index_nodes(st, ns.drop_last());
        lemma_index_nodes_sound(st, ns.drop_last());
        let n = ns.last();
        let r = index_nodes(st, ns);
        if s1.nodes.contains(n) {
        } else if n == ground() {
            assert forall|i: int, j: int|
                0 <= i < j < r.nodes.len() implies #[trigger] r.nodes[i] != #[trigger] r.nodes[j] by {
                if j == r.nodes.len() - 1 {
                    assert(s1.nodes[i] == r.nodes[i]);
                    assert(!s1.nodes.contains(n));
                }
            }
            assert forall|i: int|
                0 <= i < r.nodes.len() && #[trigger] r.nodes[i] != ground() implies r.index.contains_key(
                voltage_key(r.nodes[i]),
            ) by {
                assert(i < s1.nodes.len());
                assert(r.nodes[i] == s1.nodes[i]);
            }
            assert(r.nodes[r.nodes.len() - 1] == n);
            assert forall|x: Seq<char>| #[trigger] s1.nodes.contains(x) implies r.nodes.contains(x) by {
                let k = choose|k: int| 0 <= k < s1.nodes.len() && s1.nodes[k] == x;
                assert(r.nodes[k] == x);
            }
        } else {
            assert(voltage_key(n) != voltage_key(ground())) by {
                if voltage_key(n) == voltage_key(ground()) {
                    lemma_voltage_key_injective(n, ground());
                }
            }
            lemma_fresh_unknown(s1, voltage_key(n));
            let s2 = IndexState { index: s1.index.insert(voltage_key(n), s1.counter), counter: s1.counter + 1, ..s1 };
            assert(r == IndexState { nodes: s1.nodes.push(n), ..s2 });
            assert forall|i: int, j: int|
                0 <= i < j < r.nodes.len() implies #[trigger] r.nodes[i] != #[trigger] r.nodes[j] by {
                if j == r.nodes.len() - 1 {
                    assert(s1.nodes[i] == r.nodes[i]);
                    assert(!s1.nodes.contains(n));
                } else {
                    assert(s1.nodes[i] == r.nodes[i]);
                    assert(s1.nodes[j] == r.nodes[j]);
                }
            }
            assert forall|i: int|
                0 <= i < r.nodes.len() && #[trigger] r.nodes[i] != ground() implies r.index.contains_key(
                voltage_key(r.nodes[i]),
            ) by {
                if i < s1.nodes.len() {
                    assert(r.nodes[i] == s1.nodes[i]);
                    assert(s1.index.contains_key(voltage_key(s1.nodes[i])));
                }
            }
            assert(r.nodes[r.nodes.len() - 1] == n);
            assert forall|x: Seq<char>| #[trigger] s1.nodes.contains(x) implies r.nodes.contains(x) by {
                let k = choose|k: int| 0 <= k < s1.nodes.len() && s1.nodes[k] == x;
                assert(r.nodes[k] == x);
            }
        }
        assert forall|j: int| 0 <= j < ns.len() implies r.nodes.contains(#[trigger] ns[j]) by {
            if j < ns.len() - 1 {
                assert(ns.drop_last()[j] == ns[j]);
                assert(s1.nodes.contains(ns[j]));
            } else if !s1.nodes.contains(n) {
                assert(r.nodes[r.nodes.len() - 1] == n);
            }
        }
    }
}

proof fn lemma_index_element_sound(st: IndexState, e: ElementView)
    requires
        numbering_sound(st),
    ensures
        numbering_sound(index_element(st, e)),
        numbering_grows(st, index_element(st, e)),
        forall|j: int|
            0 <= j < element_nodes(e).len() ==> index_element(st, e).nodes.contains(
                #[trigger] element_nodes(e)[j],
            ),
        element_is_g2(e) ==> index_element(st, e).index.contains_key(current_key(e)),
{
    let s1 = if element_is_g2(e) {
        IndexState { index: st.index.insert(current_key(e), st.counter), counter: st.counter + 1, ..st }
    } else {
        st
    };
    if element_is_g2(e) {
        lemma_keys_differ(ground(), e);
        lemma_fresh_unknown(st, current_key(e));
    }
    lemma_index_nodes_sound(s1, element_nodes(e));
    if element_is_g2(e) {
        assert(s1.index.contains_key(current_key(e)));
    }
}

proof fn lemma_index_elements_sound(elems: Seq<ElementView>)
    ensures
        numbering_sound(index_elements(elems)),
        forall|i: int, j: int|
            0 <= i < elems.len() && 0 <= j < element_nodes(elems[i]).len()
                ==> index_elements(elems).nodes.contains(#[trigger] element_nodes(elems[i])[j]),
        forall|i: int|
            0 <= i < elems.len() && element_is_g2(#[trigger] elems[i])
                ==> index_elements(elems).index.contains_key(current_key(elems[i])),
    decreases elems.len(),
{
    if elems.len() == 0 {
        let ix = index_elements(elems);
        assert(ix.nodes.len() == 0);
    } else {
        let prev = elems.drop_last();
        lemma_index_elements_sound(prev);
        let st = index_elements(prev);
        let e = elems.last();
        lemma_index_element_sound(st, e);
        let r = index_elements(elems);
        assert forall|i: int, j: int|
            0 <= i < elems.len() && 0 <= j < element_nodes(elems[i]).len() implies r.nodes.contains(
            #[trigger] element_nodes(elems[i])[j],
        ) by {
            if i < elems.len() - 1 {
                assert(prev[i] == elems[i]);
                assert(st.nodes.contains(element_nodes(prev[i])[j]));
            }
        }
        assert forall|i: int|
            0 <= i < elems.len() && element_is_g2(#[trigger] elems[i]) implies r.index.contains_key(
            current_key(elems[i]),
        ) by {
            if i < elems.len() - 1 {
                assert(prev[i] == elems[i]);
                assert(st.index.contains_key(current_key(prev[i])));
            }
        }
    }
}

proof fn lemma_with_model_keeps(e: ElementView, models: Map<Seq<char>, ModelView>)
    ensures
        element_nodes(with_model(e, models)) == element_nodes(e),
        element_is_g2(with_model(e, models)) == element_is_g2(e),
        element_identifier(with_model(e, models)) == element_identifier(e),
        (with_model(e, models) is SubcktInstance) == (e is SubcktInstance),
{
}

/// The numbering of a parsed circuit is sound: ground has no unknown, no
/// two unknowns share an index, no node is listed twice, every node but
/// ground has its voltage unknown, every node of every element is listed,
/// and every group 2 element has its current unknown.
pub proof fn law_numbering(input: Seq<char>, fuel: nat, c: CircuitView)
    requires
        describe(input, fuel) == Some(Description::Parsed(c)),
    ensures
        !c.index_map.contains_key(voltage_key(ground())),
        forall|a: Seq<char>, b: Seq<char>|
            #![trigger c.index_map[a], c.index_map[b]]
            c.index_map.contains_key(a) && c.index_map.contains_key(b) && a != b
                ==> c.index_map[a] != c.index_map[b],
        forall|i: int, j: int|
            0 <= i < j < c.nodes.len() ==> #[trigger] c.nodes[i] != #[trigger] c.nodes[j],
        forall|i: int|
            0 <= i < c.nodes.len() && #[trigger] c.nodes[i] != ground()
                ==> c.index_map.contains_key(voltage_key(c.nodes[i])),
        forall|i: int, j: int|
            0 <= i < c.elements.len() && 0 <= j < element_nodes(c.elements[i]).len()
                ==> c.nodes.contains(#[trigger] element_nodes(c.elements[i])[j]),
        forall|i: int|
            0 <= i < c.elements.len() && element_is_g2(#[trigger] c.elements[i])
                ==> c.index_map.contains_key(current_key(c.elements[i])),
{
    if let SubcktScan::Reached(sub) = subcircuits_of(input) {
        if let DescScan::Reached(st) = desc_scan(sub.defs, split_lines(input), fuel) {
            lemma_index_elements_sound(st.elements);
            let ix = index_elements(st.elements);
            assert(c.elements == with_models(st.elements, st.models));
            assert forall|i: int, j: int|
                0 <= i < c.elements.len() && 0 <= j < element_nodes(c.elements[i]).len()
                    implies c.nodes.contains(#[trigger] element_nodes(c.elements[i])[j]) by {
                lemma_with_model_keeps(st.elements[i], st.models);
                assert(ix.nodes.contains(element_nodes(st.elements[i])[j]));
            }
            assert forall|i: int|
                0 <= i < c.elements.len() && element_is_g2(
                    #[trigger] c.elements[i],
                ) implies c.index_map.contains_key(current_key(c.elements[i])) by {
                lemma_with_model_keeps(st.elements[i], st.models);
                assert(ix.index.contains_key(current_key(st.elements[i])));
            }
        }
    }
}

/// The current unknowns of the group 2 elements of `elems`.
pub open spec fn current_keys(elems: Seq<ElementView>) -> Set<Seq<char>>
    decreases elems.len(),
{
    if elems.len() == 0 {
        Set::empty()
    } else if element_is_g2(elems.last()) {
        current_keys(elems.drop_last()).insert(current_key(elems.last()))
    } else {
        current_keys(elems.drop_last())
    }
}

/// No two elements of group 2 share an identifier.
pub open spec fn g2_identifiers_distinct(elems: Seq<ElementView>) -> bool {
    forall|i: int, j: int|
        0 <= i < j < elems.len() && element_is_g2(elems[i]) && element_is_g2(elems[j])
            ==> element_identifier(#[trigger] elems[i]) != element_identifier(#[trigger] elems[j])
}

/// A numbering with one position per unknown: as many unknowns as the
/// counter says, each a node voltage of a recorded node or a current of
/// `elems`.
spec fn numbering_dense(ix: IndexState, elems: Seq<ElementView>) -> bool {
    &&& ix.index.dom().finite()
    &&& ix.index.dom().len() == ix.counter
    &&& forall|n: Seq<char>| #[trigger] ix.index.contains_key(voltage_key(n)) ==> ix.nodes.contains(n)
    &&& forall|k: Seq<char>|
        #[trigger] ix.index.contains_key(k) ==> (k.len() > 0 && k[0] == 'V') || current_keys(
            elems,
        ).contains(k)
}

proof fn lemma_current_keys_member(elems: Seq<ElementView>, k: Seq<char>)
    requires
        current_keys(elems).contains(k),
    ensures
        exists|i: int| 0 <= i < elems.len() && element_is_g2(elems[i]) && #[trigger] current_key(elems[i]) == k,
    decreases elems.len(),
{
    let prev = elems.drop_last();
    if element_is_g2(elems.last()) && k == current_key(elems.last()) {
        assert(current_key(elems[elems.len() - 1]) == k);
    } else {
        lemma_current_keys_member(prev, k);
        let i = choose|i: int| 0 <= i < prev.len() && element_is_g2(prev[i]) && #[trigger] current_key(prev[i]) == k;
        assert(prev[i] == elems[i]);
    }
}

proof fn lemma_current_key_injective(a: ElementView, b: ElementView)
    requires
        current_key(a) == current_key(b),
    ensures
        element_identifier(a) == element_identifier(b),
{
    let x = element_identifier(a);
    let y = element_identifier(b);
    assert(current_key(a).len() == x.len() + 3);
    assert(current_key(b).len() == y.len() + 3);
    assert(current_key(a).subrange(2, 2 + x.len() as int) =~= x);
    assert(current_key(b).subrange(2, 2 + y.len() as int) =~= y);
}

proof fn lemma_index_nodes_dense(st: IndexState, ns: Seq<Seq<char>>, elems: Seq<ElementView>)
    requires
        numbering_dense(st, elems),
    ensures
        numbering_dense(index_nodes(st, ns), elems),
    decreases ns.len(),
{
    if ns.len() > 0 {
        let s1 = index_nodes(st, ns.drop_last());
        lemma_index_nodes_dense(st, ns.drop_last(), elems);
        let n = ns.last();
        let r = index_nodes(st, ns);
        if s1.nodes.contains(n) {
        } else {
            assert forall|x: Seq<char>| #[trigger] s1.nodes.contains(x) implies r.nodes.contains(x) by {
                let k = choose|k: int| 0 <= k < s1.nodes.len() && s1.nodes[k] == x;
                assert(r.nodes[k] == x);
            }
            assert(r.nodes[r.nodes.len() - 1] == n);
            if n != ground() {
                assert(!s1.index.contains_key(voltage_key(n)));
                assert(r.index.dom() == s1.index.dom().insert(voltage_key(n)));
                assert forall|m: Seq<char>| #[trigger] r.index.contains_key(voltage_key(m)) implies r.nodes.contains(m) by {
                    if voltage_key(m) == voltage_key(n) {
                        lemma_voltage_key_injective(m, n);
                    } else {
                        assert(s1.index.contains_key(voltage_key(m)));
                    }
                }
                assert forall|k: Seq<char>| #[trigger] r.index.contains_key(k) implies (k.len() > 0
                    && k[0] == 'V') || current_keys(elems).contains(k) by {
                    if k == voltage_key(n) {
                        assert(k[0] == 'V');
                    } else {
                        assert(s1.index.contains_key(k));
                    }
                }
            }
        }
    }
}

proof fn lemma_index_element_dense(st: IndexState, e: ElementView, elems: Seq<ElementView>)
    requires
        numbering_dense(st, elems),
        element_is_g2(e) ==> !current_keys(elems).contains(current_key(e)),
    ensures
        numbering_dense(index_element(st, e), elems.push(e)),
{
    let all = elems.push(e);
    assert(all.drop_last() =~= elems);
    assert(all.last() == e);
    let s1 = if element_is_g2(e) {
        IndexState { index: st.index.insert(current_key(e), st.counter), counter: st.counter + 1, ..st }
    } else {
        st
    };
    if element_is_g2(e) {
        let k = current_key(e);
        assert(k[0] == 'I');
        assert(!st.index.contains_key(k));
        assert(s1.index.dom() == st.index.dom().insert(k));
        assert forall|m: Seq<char>| #[trigger] s1.index.contains_key(voltage_key(m)) implies s1.nodes.contains(m) by {
            lemma_keys_differ(m, e);
        }
        assert forall|x: Seq<char>| #[trigger] s1.index.contains_key(x) implies (x.len() > 0 && x[0]
            == 'V') || current_keys(all).contains(x) by {
            if x != k {
                assert(st.index.contains_key(x));
            }
        }
    } else {
        assert forall|x: Seq<char>| #[trigger] s1.index.contains_key(x) implies (x.len() > 0 && x[0]
            == 'V') || current_keys(all).contains(x) by {
            assert(st.index.contains_key(x));
        }
    }
    assert(numbering_dense(s1, all));
    lemma_index_nodes_dense(s1, element_nodes(e), all);
}

proof fn lemma_index_elements_dense(elems: Seq<ElementView>)
    requires
        g2_identifiers_distinct(elems),
    ensures
        numbering_dense(index_elements(elems), elems),
    decreases elems.len(),
{
    if elems.len() == 0 {
        let ix = index_elements(elems);
        assert(ix.index.dom() =~= Set::<Seq<char>>::empty());
    } else {
        let prev = elems.drop_last();
        let e = elems.last();
        assert forall|i: int, j: int|
            0 <= i < j < prev.len() && element_is_g2(prev[i]) && element_is_g2(prev[j]) implies element_identifier(
            #[trigger] prev[i],
        ) != element_identifier(#[trigger] prev[j]) by {
            assert(prev[i] == elems[i] && prev[j] == elems[j]);
        }
        lemma_index_elements_dense(prev);
        if element_is_g2(e) && current_keys(prev).contains(current_key(e)) {
            lemma_current_keys_member(prev, current_key(e));
            let i = choose|i: int| 0 <= i < prev.len() && element_is_g2(prev[i]) && #[trigger] current_key(prev[i]) == current_key(e);
            lemma_current_key_injective(prev[i], e);
            assert(prev[i] == elems[i]);
            assert(elems[elems.len() - 1] == e);
            assert(false);
        }
        lemma_index_element_dense(index_elements(prev), e, prev);
        assert(prev.push(e) =~= elems);
    }
}

/// Where no two elements of group 2 share an identifier, the unknowns of a
/// parsed circuit take the positions 0, 1, ... without a gap: every
/// position is below the number of unknowns, so a system of that size
/// holds every entry of every stamp.
pub proof fn law_positions_dense(input: Seq<char>, fuel: nat, c: CircuitView)
    requires
        describe(input, fuel) == Some(Description::Parsed(c)),
        g2_identifiers_distinct(c.elements),
    ensures
        c.index_map.dom().finite(),
        forall|k: Seq<char>| #[trigger] c.index_map.contains_key(k) ==> c.index_map[k] < c.index_map.dom().len(),
{
    if let SubcktScan::Reached(sub) = subcircuits_of(input) {
        if let DescScan::Reached(st) = desc_scan(sub.defs, split_lines(input), fuel) {
            let ix = index_elements(st.elements);
            assert(c.elements == with_models(st.elements, st.models));
            assert forall|i: int, j: int|
                0 <= i < j < st.elements.len() && element_is_g2(st.elements[i]) && element_is_g2(
                    st.elements[j],
                ) implies element_identifier(#[trigger] st.elements[i]) != element_identifier(
                #[trigger] st.elements[j],
            ) by {
                lemma_with_model_keeps(st.elements[i], st.models);
                lemma_with_model_keeps(st.elements[j], st.models);
                assert(c.elements[i] == with_model(st.elements[i], st.models));
                assert(c.elements[j] == with_model(st.elements[j], st.models));
            }
            lemma_index_elements_sound(st.elements);
            lemma_index_elements_dense(st.elements);
            assert(c.index_map == ix.index);
        }
    }
}

/// Whether `n` is a node of some element of `elems`.
pub open spec fn node_of(elems: Seq<ElementView>, n: Seq<char>) -> bool {
    exists|i: int, j: int|
        0 <= i < elems.len() && 0 <= j < element_nodes(elems[i]).len() && #[trigger] element_nodes(
            elems[i],
        )[j] == n
}

/// Whether `k` is the current unknown of some group 2 element of `elems`.
pub open spec fn current_of(elems: Seq<ElementView>, k: Seq<char>) -> bool {
    exists|i: int| 0 <= i < elems.len() && element_is_g2(elems[i]) && #[trigger] current_key(elems[i]) == k
}

/// Whether `k` is the voltage unknown of a listed node other than ground.
pub open spec fn voltage_of(nodes: Seq<Seq<char>>, k: Seq<char>) -> bool {
    exists|n: Seq<char>| #[trigger] nodes.contains(n) && n != ground() && k == voltage_key(n)
}

/// A numbering with nothing besides the unknowns of `elems`: every unknown
/// is a voltage of a listed node or a current of a group 2 element, and
/// every listed node is a node of some element.
spec fn numbering_exact(ix: IndexState, elems: Seq<ElementView>) -> bool {
    &&& forall|n: Seq<char>| #[trigger] ix.index.contains_key(voltage_key(n)) ==> ix.nodes.contains(n)
    &&& forall|k: Seq<char>|
        #[trigger] ix.index.contains_key(k) ==> voltage_of(ix.nodes, k) || current_of(elems, k)
    &&& forall|n: Seq<char>| #[trigger] ix.nodes.contains(n) ==> node_of(elems, n)
}

proof fn lemma_index_nodes_exact(st: IndexState, ns: Seq<Seq<char>>, elems: Seq<ElementView>)
    requires
        numbering_exact(st, elems),
        forall|j: int| 0 <= j < ns.len() ==> node_of(elems, #[trigger] ns[j]),
    ensures
        numbering_exact(index_nodes(st, ns), elems),
        forall|n: Seq<char>| #[trigger] st.nodes.contains(n) ==> index_nodes(st, ns).nodes.contains(n),
    decreases ns.len(),
{
    if ns.len() > 0 {
        let d = ns.drop_last();
        assert forall|j: int| 0 <= j < d.len() implies node_of(elems, #[trigger] d[j]) by {
            assert(d[j] == ns[j]);
        }
        lemma_index_nodes_exact(st, d, elems);
        let s1 = index_nodes(st, d);
        let n = ns.last();
        assert(node_of(elems, ns[ns.len() - 1]));
        let r = index_nodes(st, ns);
        if !s1.nodes.contains(n) {
            assert forall|x: Seq<char>| #[trigger] s1.nodes.contains(x) implies r.nodes.contains(x) by {
                let k = choose|k: int| 0 <= k < s1.nodes.len() && s1.nodes[k] == x;
                assert(r.nodes[k] == x);
            }
            assert(r.nodes[r.nodes.len() - 1] == n);
            assert forall|x: Seq<char>| #[trigger] r.nodes.contains(x) implies node_of(elems, x) by {
                let k = choose|k: int| 0 <= k < r.nodes.len() && r.nodes[k] == x;
                if k < s1.nodes.len() {
                    assert(s1.nodes[k] == x);
                    assert(s1.nodes.contains(x));
                }
            }
            assert forall|k: Seq<char>| #[trigger] s1.index.contains_key(k) && voltage_of(s1.nodes, k)
                implies voltage_of(r.nodes, k) by {
                let m = choose|m: Seq<char>| #[trigger] s1.nodes.contains(m) && m != ground() && k
                    == voltage_key(m);
                assert(r.nodes.contains(m));
            }
            if n != ground() {
                assert forall|m: Seq<char>| #[trigger] r.index.contains_key(voltage_key(m)) implies r.nodes.contains(m) by {
                    if voltage_key(m) == voltage_key(n) {
                        lemma_voltage_key_injective(m, n);
                    } else {
                        assert(s1.index.contains_key(voltage_key(m)));
                    }
                }
                assert forall|k: Seq<char>| #[trigger] r.index.contains_key(k) implies voltage_of(
                    r.nodes,
                    k,
                ) || current_of(elems, k) by {
                    if k == voltage_key(n) {
                        assert(r.nodes.contains(n));
                    } else {
                        assert(s1.index.contains_key(k));
                    }
                }
            } else {
                assert forall|k: Seq<char>| #[trigger] r.index.contains_key(k) implies voltage_of(
                    r.nodes,
                    k,
                ) || current_of(elems, k) by {
                    assert(s1.index.contains_key(k));
                }
            }
        }
    }
}

proof fn lemma_index_element_exact(st: IndexState, e: ElementView, elems: Seq<ElementView>)
    requires
        numbering_exact(st, elems),
    ensures
        numbering_exact(index_element(st, e), elems.push(e)),
{
    let all = elems.push(e);
    assert forall|n: Seq<char>| node_of(elems, n) implies node_of(all, n) by {
        let (i, j) = choose|i: int, j: int|
            0 <= i < elems.len() && 0 <= j < element_nodes(elems[i]).len() && #[trigger] element_nodes(
                elems[i],
            )[j] == n;
        assert(all[i] == elems[i]);
        assert(element_nodes(all[i])[j] == n);
    }
    assert forall|k: Seq<char>| current_of(elems, k) implies current_of(all, k) by {
        let i = choose|i: int| 0 <= i < elems.len() && element_is_g2(elems[i]) && #[trigger] current_key(
            elems[i],
        ) == k;
        assert(all[i] == elems[i]);
        assert(current_key(all[i]) == k);
    }
    let s1 = if element_is_g2(e) {
        IndexState { index: st.index.insert(current_key(e), st.counter), counter: st.counter + 1, ..st }
    } else {
        st
    };
    assert(all[elems.len() as int] == e);
    if element_is_g2(e) {
        assert(current_key(all[elems.len() as int]) == current_key(e));
        assert forall|m: Seq<char>| #[trigger] s1.index.contains_key(voltage_key(m)) implies s1.nodes.contains(m) by {
            lemma_keys_differ(m, e);
        }
    }
    assert forall|k: Seq<char>| #[trigger] s1.index.contains_key(k) implies voltage_of(s1.nodes, k)
        || current_of(all, k) by {
        if !(element_is_g2(e) && k == current_key(e)) {
            assert(st.index.contains_key(k));
        }
    }
    assert forall|n: Seq<char>| #[trigger] s1.nodes.contains(n) implies node_of(all, n) by {
        assert(st.nodes.contains(n));
    }
    let ns = element_nodes(e);
    assert forall|j: int| 0 <= j < ns.len() implies node_of(all, #[trigger] ns[j]) by {
        assert(element_nodes(all[elems.len() as int])[j] == ns[j]);
    }
    lemma_index_nodes_exact(s1, ns, all);
}

proof fn lemma_index_elements_exact(elems: Seq<ElementView>)
    ensures
        numbering_exact(index_elements(elems), elems),
    decreases elems.len(),
{
    if elems.len() == 0 {
        let ix = index_elements(elems);
        assert(ix.index.dom() =~= Set::<Seq<char>>::empty());
        assert(ix.nodes.len() == 0);
    } else {
        let prev = elems.drop_last();
        lemma_index_elements_exact(prev);
        lemma_index_element_exact(index_elements(prev), elems.last(), prev);
        assert(prev.push(elems.last()) =~= elems);
    }
}

/// The number of group 2 elements of a list.
pub open spec fn g2_count(elems: Seq<ElementView>) -> nat
    decreases elems.len(),
{
    if elems.len() == 0 {
        0
    } else {
        g2_count(elems.drop_last()) + if element_is_g2(elems.last()) {
            1nat
        } else {
            0nat
        }
    }
}

/// Whether ground is among `nodes`, as a number.
pub open spec fn ground_listed(nodes: Seq<Seq<char>>) -> int {
    if nodes.contains(ground()) {
        1
    } else {
        0
    }
}

proof fn lemma_index_nodes_count(st: IndexState, ns: Seq<Seq<char>>)
    ensures
        index_nodes(st, ns).counter + ground_listed(index_nodes(st, ns).nodes) - index_nodes(
            st,
            ns,
        ).nodes.len() == st.counter + ground_listed(st.nodes) - st.nodes.len(),
    decreases ns.len(),
{
    if ns.len() > 0 {
        lemma_index_nodes_count(st, ns.drop_last());
        let s1 = index_nodes(st, ns.drop_last());
        let n = ns.last();
        if !s1.nodes.contains(n) {
            let p = s1.nodes.push(n);
            assert(p[p.len() - 1] == n);
            assert(p.contains(ground()) <==> s1.nodes.contains(ground()) || n == ground()) by {
                if p.contains(ground()) {
                    let i = choose|i: int| 0 <= i < p.len() && p[i] == ground();
                    if i < s1.nodes.len() {
                        assert(s1.nodes[i] == p[i]);
                    }
                }
                if s1.nodes.contains(ground()) {
                    let i = choose|i: int| 0 <= i < s1.nodes.len() && s1.nodes[i] == ground();
                    assert(p[i] == ground());
                }
            }
        }
    }
}

/// The count of unknowns is the number of group 2 elements plus the number
/// of listed nodes other than ground; the listed nodes are distinct and
/// are the elements' nodes.
pub proof fn lemma_counter_of(elems: Seq<ElementView>)
    ensures
        index_elements(elems).counter + ground_listed(index_elements(elems).nodes) == g2_count(elems)
            + index_elements(elems).nodes.len(),
        index_elements(elems).nodes.no_duplicates(),
        forall|n: Seq<char>| #[trigger] index_elements(elems).nodes.contains(n) <==> node_of(elems, n),
    decreases elems.len(),
{
    lemma_index_elements_sound(elems);
    lemma_index_elements_exact(elems);
    let ix = index_elements(elems);
    assert forall|n: Seq<char>| node_of(elems, n) implies #[trigger] ix.nodes.contains(n) by {
        let (i, j) = choose|i: int, j: int|
            0 <= i < elems.len() && 0 <= j < element_nodes(elems[i]).len() && #[trigger] element_nodes(
                elems[i],
            )[j] == n;
        assert(ix.nodes.contains(element_nodes(elems[i])[j]));
    }
    if elems.len() == 0 {
        assert(!ix.nodes.contains(ground()));
    } else {
        let prev = elems.drop_last();
        lemma_counter_of(prev);
        let st = index_elements(prev);
        let e = elems.last();
        let s1 = if element_is_g2(e) {
            IndexState { index: st.index.insert(current_key(e), st.counter), counter: st.counter + 1, ..st }
        } else {
            st
        };
        lemma_index_nodes_count(s1, element_nodes(e));
    }
}

/// The models that the scan collects are filed under their own names.
proof fn lemma_models_named(defs: Map<Seq<char>, SubcircuitDefinitionView>, lines: Seq<Seq<char>>, fuel: nat)
    ensures
        desc_scan(defs, lines, fuel) matches DescScan::Reached(st) ==> forall|k: Seq<char>|
            #[trigger] st.models.contains_key(k) ==> model_name(st.models[k]) == k,
    decreases lines.len(),
{
    if lines.len() > 0 {
        lemma_models_named(defs, lines.drop_last(), fuel);
    }
}

/// Every diode and MOSFET of a parsed circuit carries the model that the
/// netlist's `.model` card of its model name defines, of its own kind; the
/// circuit's models are filed under their own names.
pub proof fn law_models_attached(input: Seq<char>, fuel: nat, c: CircuitView)
    requires
        describe(input, fuel) == Some(Description::Parsed(c)),
    ensures
        forall|k: Seq<char>| #[trigger] c.models.contains_key(k) ==> model_name(c.models[k]) == k,
        forall|i: int|
            0 <= i < c.elements.len() ==> match #[trigger] c.elements[i] {
                ElementView::Diode(d) => c.models.contains_key(d.model_name) && c.models[d.model_name]
                    == ModelView::Diode(d.model),
                ElementView::NMOSFET(x) => c.models.contains_key(x.model_name)
                    && c.models[x.model_name] == ModelView::NMosfet(x.model),
                _ => true,
            },
{
    if let SubcktScan::Reached(sub) = subcircuits_of(input) {
        if let DescScan::Reached(st) = desc_scan(sub.defs, split_lines(input), fuel) {
            lemma_models_named(sub.defs, split_lines(input), fuel);
            assert(c.elements == with_models(st.elements, st.models));
            assert(c.models == st.models);
            assert forall|i: int| 0 <= i < c.elements.len() implies match #[trigger] c.elements[i] {
                ElementView::Diode(d) => c.models.contains_key(d.model_name) && c.models[d.model_name]
                    == ModelView::Diode(d.model),
                ElementView::NMOSFET(x) => c.models.contains_key(x.model_name)
                    && c.models[x.model_name] == ModelView::NMosfet(x.model),
                _ => true,
            } by {
                assert(c.elements[i] == with_model(st.elements[i], st.models));
                assert(models_complete(st.elements, st.models));
                let e = st.elements[i];
                assert(match e {
                    ElementView::Diode(d) => st.models.contains_key(d.model_name) && st.models[d.model_name] is Diode,
                    ElementView::NMOSFET(m) => st.models.contains_key(m.model_name)
                        && st.models[m.model_name] is NMosfet,
                    _ => true,
                });
            }
        }
    }
}

/// The numbering of a parsed circuit holds nothing else: every unknown is
/// the voltage of a listed node other than ground or the current of a
/// group 2 element, and every listed node is a node of some element.
pub proof fn law_numbering_exact(input: Seq<char>, fuel: nat, c: CircuitView)
    requires
        describe(input, fuel) == Some(Description::Parsed(c)),
    ensures
        forall|k: Seq<char>|
            #[trigger] c.index_map.contains_key(k) ==> voltage_of(c.nodes, k) || current_of(
                c.elements,
                k,
            ),
        forall|n: Seq<char>| #[trigger] c.nodes.contains(n) ==> node_of(c.elements, n),
{
    if let SubcktScan::Reached(sub) = subcircuits_of(input) {
        if let DescScan::Reached(st) = desc_scan(sub.defs, split_lines(input), fuel) {
            let ix = index_elements(st.elements);
            lemma_index_elements_exact(st.elements);
            assert(c.elements == with_models(st.elements, st.models));
            assert forall|k: Seq<char>| current_of(st.elements, k) implies current_of(c.elements, k) by {
                let i = choose|i: int|
                    0 <= i < st.elements.len() && element_is_g2(st.elements[i]) && #[trigger] current_key(
                        st.elements[i],
                    ) == k;
                lemma_with_model_keeps(st.elements[i], st.models);
                assert(c.elements[i] == with_model(st.elements[i], st.models));
                assert(current_key(c.elements[i]) == k);
            }
            assert forall|n: Seq<char>| node_of(st.elements, n) implies node_of(c.elements, n) by {
                let (i, j) = choose|i: int, j: int|
                    0 <= i < st.elements.len() && 0 <= j < element_nodes(st.elements[i]).len()
                        && #[trigger] element_nodes(st.elements[i])[j] == n;
                lemma_with_model_keeps(st.elements[i], st.models);
                assert(c.elements[i] == with_model(st.elements[i], st.models));
                assert(element_nodes(c.elements[i])[j] == n);
            }
            assert forall|k: Seq<char>| #[trigger] c.index_map.contains_key(k) implies voltage_of(
                c.nodes,
                k,
            ) || current_of(c.elements, k) by {
                assert(ix.index.contains_key(k));
            }
            assert forall|n: Seq<char>| #[trigger] c.nodes.contains(n) implies node_of(c.elements, n) by {
                assert(ix.nodes.contains(n));
            }
        }
    }
}

proof fn lemma_desc_scan_primitive(
    defs: Map<Seq<char>, SubcircuitDefinitionView>,
    lines: Seq<Seq<char>>,
    fuel: nat,
)
    ensures
        desc_scan(defs, lines, fuel) matches DescScan::Reached(st) ==> all_primitive(st.elements),
    decreases lines.len(),
{
    if lines.len() > 0 {
        lemma_desc_scan_primitive(defs, lines.drop_last(), fuel);
        if let DescScan::Reached(st) = desc_scan(defs, lines.drop_last(), fuel) {
            let line = without_comment(lines.last(), true);
            match element_line(line) {
                Some(ElementView::SubcktInstance(inst)) => {
                    law_expansion_is_primitive(defs, inst, fuel);
                    if let Some(Ok(more)) = expand(defs, inst, fuel) {
                        let all = st.elements + more;
                        assert forall|i: int| 0 <= i < all.len() implies !(
                        #[trigger] all[i] is SubcktInstance) by {
                            if i < st.elements.len() {
                                assert(all[i] == st.elements[i]);
                            } else {
                                assert(all[i] == more[i - st.elements.len()]);
                            }
                        }
                    }
                },
                Some(e) => {
                    let all = st.elements.push(e);
                    assert forall|i: int| 0 <= i < all.len() implies !(
                    #[trigger] all[i] is SubcktInstance) by {
                        if i < st.elements.len() {
                            assert(all[i] == st.elements[i]);
                        }
                    }
                },
                None => {},
            }
        }
    }
}

/// A parsed circuit holds no subcircuit instance: every instance of the
/// netlist has been replaced by the primitive elements it stands for.
pub proof fn law_parsed_elements_primitive(input: Seq<char>, fuel: nat, c: CircuitView)
    requires
        describe(input, fuel) == Some(Description::Parsed(c)),
    ensures
        all_primitive(c.elements),
{
    if let SubcktScan::Reached(sub) = subcircuits_of(input) {
        lemma_desc_scan_primitive(sub.defs, split_lines(input), fuel);
        if let DescScan::Reached(st) = desc_scan(sub.defs, split_lines(input), fuel) {
            assert forall|i: int| 0 <= i < c.elements.len() implies !(
            #[trigger] c.elements[i] is SubcktInstance) by {
                lemma_with_model_keeps(st.elements[i], st.models);
            }
        }
    }
}

// ---------------------------------------------------------------------------
// The reading, step by step
// ---------------------------------------------------------------------------

/// The keywords that the line scan looks for.
struct Keywords {
    control: [char; 8],
    endc: [char; 5],
    subckt: [char; 7],
    ends: [char; 5],
    end: [char; 4],
    model: [char; 6],
}

impl Keywords {
    spec fn wf(&self) -> bool {
        &&& self.control@ == control_keyword()
        &&& self.endc@ == endc_keyword()
        &&& self.subckt@ == subckt_keyword()
        &&& self.ends@ == ends_keyword()
        &&& self.end@ == end_keyword()
        &&& self.model@ == model_keyword()
    }

    fn new() -> (k: Keywords)
        ensures
            k.wf(),
    {
        let k = Keywords {
            control: ['.', 'c', 'o', 'n', 't', 'r', 'o', 'l'],
            endc: ['.', 'e', 'n', 'd', 'c'],
            subckt: ['.', 's', 'u', 'b', 'c', 'k', 't'],
            ends: ['.', 'e', 'n', 'd', 's'],
            end: ['.', 'e', 'n', 'd'],
            model: ['.', 'm', 'o', 'd', 'e', 'l'],
        };
        assert(k.control@ == control_keyword());
        assert(k.endc@ == endc_keyword());
        assert(k.subckt@ == subckt_keyword());
        assert(k.ends@ == ends_keyword());
        assert(k.end@ == end_keyword());
        assert(k.model@ == model_keyword());
        k
    }
}

/// The scan state as the exec code holds it.
struct Scan {
    elements: Vec<Element>,
    models: NameMap<Model>,
    control: bool,
    subckt: bool,
}

impl Scan {
    spec fn state(&self) -> DescState {
        DescState {
            elements: views(self.elements@),
            models: models_view(self.models.map()),
            control: self.control,
            subckt: self.subckt,
        }
    }
}

/// One line of the scan, its comment removed and trimmed (see `desc_step`).
fn step_line(
    defs: &NameMap<SubcircuitDefinition>,
    keys: &Keywords,
    scan: &mut Scan,
    l: &[char],
    number: usize,
    fuel: u64,
) -> (r: Option<Result<(), Error>>)
    requires
        keys.wf(),
    ensures
        match r {
            None => desc_step(
                definitions_view(defs.map()),
                old(scan).state(),
                l@,
                number as nat,
                fuel as nat,
            ) is Unended,
            Some(Ok(())) => desc_step(
                definitions_view(defs.map()),
                old(scan).state(),
                l@,
                number as nat,
                fuel as nat,
            ) == DescScan::Reached(final(scan).state()),
            Some(Err(e)) => desc_step(
                definitions_view(defs.map()),
                old(scan).state(),
                l@,
                number as nat,
                fuel as nat,
            ) matches DescScan::Failed(f) && error_for(e, f),
        },
{
    if l.len() == 0 || l[0] == '%' || l[0] == '*' {
    } else if starts_with_no_case(l, 0, &keys.control) {
        scan.control = true;
    } else if starts_with_no_case(l, 0, &keys.endc) {
        scan.control = false;
    } else if scan.control {
    } else if starts_with_no_case(l, 0, &keys.subckt) {
        scan.subckt = true;
    } else if starts_with_no_case(l, 0, &keys.ends) {
        scan.subckt = false;
    } else if scan.subckt {
    } else if equal_no_case(l, &keys.end) {
    } else if starts_with_no_case(l, 0, &keys.model) {
        let text = string_from(l, 0, l.len());
        assert(l@.subrange(0, l@.len() as int) == l@);
        match parse_model(text.as_str()) {
            Ok(model) => {
                let ghost m0 = scan.models.map();
                let ghost md = model;
                let name = model.name().to_owned();
                scan.models.insert(name, model);
                proof {
                    lemma_models_view_insert(m0, model_name(md@), md);
                }
            },
            Err(_) => {
                let message = framed(
                    "Invalid format: Parsing Error: '",
                    text.as_str(),
                    "'",
                );
                return Some(Err(Error::ParseError { line: number, message }));
            },
        }
    } else {
        match read_element(l) {
            Err(_) => {
                let text = string_from(l, 0, l.len());
                let message = framed(
                    "Unexpected error: Failed to parse element from input '",
                    text.as_str(),
                    "'",
                );
                return Some(Err(Error::ParseError { line: number, message }));
            },
            Ok((_, Element::SubcktInstance(instance))) => {
                match instance.instantiate_within(defs, fuel) {
                    None => {
                        return None;
                    },
                    Some(Err(e)) => {
                        return Some(Err(e));
                    },
                    Some(Ok(mut more)) => {
                        let ghost before = scan.elements@;
                        let ghost added = more@;
                        scan.elements.append(&mut more);
                        assert(views(scan.elements@) =~= views(before) + views(added));
                    },
                }
            },
            Ok((_, element)) => {
                let ghost before = scan.elements@;
                scan.elements.push(element);
                assert(views(scan.elements@) =~= views(before).push(element@));
            },
        }
    }
    Some(Ok(()))
}

fn scan_lines(defs: &NameMap<SubcircuitDefinition>, lines: &Vec<Vec<char>>, fuel: u64) -> (r: Option<
    Result<(Vec<Element>, NameMap<Model>), Error>,
>)
    ensures
        match r {
            None => desc_scan(definitions_view(defs.map()), lines_view(lines@), fuel as nat) is Unended,
            Some(Ok((els, ms))) => desc_scan(
                definitions_view(defs.map()),
                lines_view(lines@),
                fuel as nat,
            ) matches DescScan::Reached(st) && st.elements == views(els@) && st.models
                == models_view(ms.map()),
            Some(Err(e)) => desc_scan(
                definitions_view(defs.map()),
                lines_view(lines@),
                fuel as nat,
            ) matches DescScan::Failed(f) && error_for(e, f),
        },
{
    let ghost dv = definitions_view(defs.map());
    let ghost all = lines_view(lines@);
    let keys = Keywords::new();
    let mut scan = Scan {
        elements: Vec::new(),
        models: NameMap::new(),
        control: false,
        subckt: false,
    };
    let mut i: usize = 0;
    assert(all.take(0) =~= Seq::<Seq<char>>::empty());
    assert(views(scan.elements@) =~= Seq::<ElementView>::empty());
    assert(models_view(scan.models.map()) =~= Map::<Seq<char>, ModelView>::empty());
    while i < lines.len()
        invariant
            i <= lines@.len(),
            all == lines_view(lines@),
            dv == definitions_view(defs.map()),
            keys.wf(),
            desc_scan(dv, all.take(i as int), fuel as nat) == DescScan::Reached(scan.state()),
        decreases lines@.len() - i,
    {
        let line = strip_comment(lines[i].as_slice(), true);
        let number = i + 1;
        proof {
            assert(all.take(i + 1).drop_last() == all.take(i as int));
            assert(all.take(i + 1).last() == lines@[i as int]@);
            assert(all.take(i + 1).len() == number);
        }
        match step_line(defs, &keys, &mut scan, line.as_slice(), number, fuel) {
            None => {
                proof {
                    lemma_desc_scan_prefix(dv, all, fuel as nat, i + 1);
                }
                return None;
            },
            Some(Err(e)) => {
                proof {
                    lemma_desc_scan_prefix(dv, all, fuel as nat, i + 1);
                }
                return Some(Err(e));
            },
            Some(Ok(())) => {},
        }
        i += 1;
    }
    assert(all.take(lines@.len() as int) == all);
    Some(Ok((scan.elements, scan.models)))
}

/// Numbers the unknowns of a list of elements (see `index_elements`);
/// `None` where the numbering goes beyond `usize`.
fn index_all(elements: &Vec<Element>) -> (r: Option<(NameMap<usize>, Vec<String>)>)
    ensures
        match r {
            None => index_elements(views(elements@)).counter > usize::MAX,
            Some((m, ns)) => index_elements(views(elements@)).counter <= usize::MAX && index_view(
                m.map(),
            ) == index_elements(views(elements@)).index && strings_view(ns@) == index_elements(
                views(elements@),
            ).nodes,
        },
{
    let ghost all = views(elements@);
    let mut index: NameMap<usize> = NameMap::new();
    let mut nodes: Vec<String> = Vec::new();
    let mut counter: usize = 0;
    let mut i: usize = 0;
    assert(all.take(0) =~= Seq::<ElementView>::empty());
    assert(index_view(index.map()) =~= Map::<Seq<char>, nat>::empty());
    assert(strings_view(nodes@) =~= Seq::<Seq<char>>::empty());
    while i < elements.len()
        invariant
            i <= elements@.len(),
            all == views(elements@),
            index_elements(all.take(i as int)) == (IndexState {
                index: index_view(index.map()),
                nodes: strings_view(nodes@),
                counter: counter as nat,
            }),
        decreases elements@.len() - i,
    {
        let e = &elements[i];
        let ghost st0 = index_elements(all.take(i as int));
        proof {
            assert(all.take(i + 1).drop_last() == all.take(i as int));
            assert(all.take(i + 1).last() == e@);
            lemma_index_elements_prefix(all, i + 1);
        }
        if e.is_g2() {
            if counter == usize::MAX {
                proof {
                    lemma_index_nodes_grows(
                        IndexState {
                            index: st0.index.insert(current_key(e@), st0.counter),
                            counter: st0.counter + 1,
                            ..st0
                        },
                        element_nodes(e@),
                    );
                }
                return None;
            }
            let id = e.identifier();
            let key = wrapped('I', id.as_str());
            let ghost m0 = index.map();
            index.insert(key, counter);
            proof {
                lemma_index_view_insert(m0, current_key(e@), counter);
            }
            counter = counter + 1;
        }
        let ghost s1 = IndexState {
            index: index_view(index.map()),
            nodes: strings_view(nodes@),
            counter: counter as nat,
        };
        assert(s1 == (if element_is_g2(e@) {
            IndexState { index: st0.index.insert(current_key(e@), st0.counter), counter: st0.counter + 1, ..st0 }
        } else {
            st0
        }));
        let ns = e.nodes();
        let ghost en = element_nodes(e@);
        let mut j: usize = 0;
        assert(en.take(0) =~= Seq::<Seq<char>>::empty());
        while j < ns.len()
            invariant
                j <= ns@.len() == en.len(),
                forall|k: int| 0 <= k < ns@.len() ==> #[trigger] ns@[k]@ == en[k],
                index_nodes(s1, en.take(j as int)) == (IndexState {
                    index: index_view(index.map()),
                    nodes: strings_view(nodes@),
                    counter: counter as nat,
                }),
                index_element(st0, e@) == index_nodes(s1, en),
                index_elements(all.take(i + 1)) == index_element(st0, e@),
                index_elements(all.take(i + 1)).counter <= index_elements(all).counter,
                all == views(elements@),
            decreases ns@.len() - j,
        {
            let n = ns[j];
            proof {
                assert(en.take(j + 1).drop_last() == en.take(j as int));
                assert(en.take(j + 1).last() == n@);
                lemma_index_nodes_prefix(s1, en, j + 1);
            }
            let ghost stj = index_nodes(s1, en.take(j as int));
            if !contains_string(&nodes, n) {
                let ghost before = nodes@;
                nodes.push(n.to_owned());
                assert(strings_view(nodes@) =~= strings_view(before).push(n@));
                let c = to_chars(n);
                let is_ground = c.len() == 1 && c[0] == '0';
                assert(is_ground == (n@ == ground())) by {
                    if c@.len() == 1 && c@[0] == '0' {
                        assert(c@ =~= ground());
                    }
                }
                if !is_ground {
                    if counter == usize::MAX {
                        assert(index_nodes(s1, en.take(j + 1)).counter == stj.counter + 1);
                        return None;
                    }
                    let key = wrapped('V', n);
                    let ghost m0 = index.map();
                    index.insert(key, counter);
                    proof {
                        lemma_index_view_insert(m0, voltage_key(n@), counter);
                    }
                    counter = counter + 1;
                }
            }
            j += 1;
        }
        assert(en.take(ns@.len() as int) == en);
        i += 1;
    }
    assert(all.take(elements@.len() as int) == all);
    Some((index, nodes))
}

/// Gives each diode and MOSFET the model that it names; `None` where one is
/// missing or of another kind.
fn attach_models(elements: &Vec<Element>, models: &NameMap<Model>) -> (r: Option<Vec<Element>>)
    ensures
        match r {
            None => !models_complete(views(elements@), models_view(models.map())),
            Some(v) => models_complete(views(elements@), models_view(models.map())) && views(v@)
                == with_models(views(elements@), models_view(models.map())),
        },
{
    let ghost all = views(elements@);
    let ghost mv = models_view(models.map());
    let mut out: Vec<Element> = Vec::new();
    let mut i: usize = 0;
    while i < elements.len()
        invariant
            i <= elements@.len(),
            all == views(elements@),
            mv == models_view(models.map()),
            models_complete(all.take(i as int), mv),
            views(out@) == with_models(all.take(i as int), mv),
        decreases elements@.len() - i,
    {
        let ghost before = out@;
        let e = &elements[i];
        match e {
            Element::Diode(d) => {
                match models.get(d.model_name.as_str()) {
                    Some(Model::Diode(m)) => {
                        let mut x = d.duplicate();
                        x.model = m.duplicate();
                        out.push(Element::Diode(x));
                    },
                    _ => {
                        assert(!models_complete(all, mv)) by {
                            assert(all[i as int] == e@);
                        }
                        return None;
                    },
                }
            },
            Element::NMOSFET(t) => {
                match models.get(t.model_name.as_str()) {
                    Some(Model::NMosfet(m)) => {
                        let mut x = t.duplicate();
                        x.model = m.duplicate();
                        out.push(Element::NMOSFET(x));
                    },
                    _ => {
                        assert(!models_complete(all, mv)) by {
                            assert(all[i as int] == e@);
                        }
                        return None;
                    },
                }
            },
            _ => {
                out.push(e.duplicate());
            },
        }
        proof {
            assert(all.take(i + 1) =~= all.take(i as int).push(all[i as int]));
            assert(all[i as int] == e@);
            assert(views(out@) =~= views(before).push(with_model(e@, mv)));
            assert(with_models(all.take(i + 1), mv) =~= with_models(all.take(i as int), mv).push(
                with_model(e@, mv),
            ));
            assert forall|k: int| 0 <= k < i + 1 implies match #[trigger] all.take(i + 1)[k] {
                ElementView::Diode(d) => mv.contains_key(d.model_name) && mv[d.model_name] is Diode,
                ElementView::NMOSFET(m) => mv.contains_key(m.model_name) && mv[m.model_name] is NMosfet,
                _ => true,
            } by {
                if k < i {
                    assert(all.take(i + 1)[k] == all.take(i as int)[k]);
                }
            }
        }
        i += 1;
    }
    assert(all.take(elements@.len() as int) == all);
    Some(out)
}

/// Reads a netlist into a circuit (see `describe`), letting instances nest
/// at most `fuel` levels deep: `None` where that is not enough, or where
/// the netlist is one that the reading cannot recover from (see
/// `Description::Aborted`).
pub fn parse_circuit_description_within(input: &str, fuel: u64) -> (r: Option<Result<Circuit, Error>>)
    ensures
        match r {
            None => describe(input@, fuel as nat) is None || describe(input@, fuel as nat) == Some(
                Description::Aborted,
            ),
            Some(Ok(c)) => describe(input@, fuel as nat) == Some(Description::Parsed(c@)),
            Some(Err(e)) => describe(input@, fuel as nat) matches Some(Description::Failed(f))
                && error_for(e, f),
        },
{
    let defs = match collect_subcircuits(input) {
        None => {
            return None;
        },
        Some(Err(e)) => {
            let inner = match e {
                Error::InvalidFormat(m) => m,
                _ => String::new(),
            };
            let message = framed(
                "Failed to parse subcircuits: Invalid format: ",
                inner.as_str(),
                "",
            );
            return Some(Err(Error::InvalidFormat(message)));
        },
        Some(Ok(d)) => d,
    };
    let lines = lines_of(input);
    let (elements, models) = match scan_lines(&defs, &lines, fuel) {
        None => {
            return None;
        },
        Some(Err(e)) => {
            return Some(Err(e));
        },
        Some(Ok(x)) => x,
    };
    let (index_map, nodes) = match index_all(&elements) {
        None => {
            return None;
        },
        Some(x) => x,
    };
    if elements.len() == 0 {
        return Some(Err(Error::EmptyNetlist));
    }
    let elements = match attach_models(&elements, &models) {
        None => {
            return None;
        },
        Some(v) => v,
    };
    Some(Ok(Circuit { elements, index_map, nodes, models, subcircuit_definitions: defs }))
}

/// Whether reading `input` comes to a circuit or a failure within the
/// nesting that a `u64` counts.
pub open spec fn description_defined(input: Seq<char>) -> bool {
    exists|fuel: nat|
        fuel <= u64::MAX && #[trigger] describe(input, fuel) is Some && describe(input, fuel)
            != Some(Description::Aborted)
}

/// What reading `input` gives, where it is defined.
pub open spec fn description(input: Seq<char>) -> Description {
    let fuel = choose|fuel: nat|
        fuel <= u64::MAX && #[trigger] describe(input, fuel) is Some && describe(input, fuel)
            != Some(Description::Aborted);
    describe(input, fuel).unwrap()
}

/// More levels of nesting change nothing once reading has an outcome.
pub proof fn lemma_describe_more_fuel(input: Seq<char>, fuel: nat, more: nat)
    requires
        describe(input, fuel) is Some,
        fuel <= more,
    ensures
        describe(input, more) == describe(input, fuel),
{
    if let SubcktScan::Reached(sub) = subcircuits_of(input) {
        lemma_desc_scan_more_fuel(sub.defs, split_lines(input), fuel, more);
    }
}

/// Reads a netlist into a circuit (see the module documentation and
/// `describe`). A definition that does not parse, or an instance whose
/// definition is missing or whose node count differs from the pin count,
/// gives `InvalidFormat`; a line that holds no valid card gives
/// `ParseError` with its number; a netlist without elements gives
/// `EmptyNetlist`.
pub fn parse_circuit_description(input: &str) -> (r: Result<Circuit, Error>)
    requires
        description_defined(input@),
    ensures
        match r {
            Ok(c) => description(input@) == Description::Parsed(c@),
            Err(e) => description(input@) matches Description::Failed(f) && error_for(e, f),
        },
{
    let ghost fuel = choose|fuel: nat|
        fuel <= u64::MAX && #[trigger] describe(input@, fuel) is Some && describe(input@, fuel)
            != Some(Description::Aborted);
    proof {
        lemma_describe_more_fuel(input@, fuel, u64::MAX as nat);
    }
    match parse_circuit_description_within(input, u64::MAX) {
        Some(r) => r,
        None => {
            assert(false);
            Err(Error::EmptyNetlist)
        },
    }
}

} // verus!
