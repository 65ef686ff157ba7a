//! Subcircuits: `.subckt <name> <pins...>` definitions, `X<name> <nodes...>
//! <definition>` instances, and the expansion of an instance into the
//! primitive elements that its definition stands for.

use vstd::prelude::*;

use crate::elements::{
    element_at, element_line, element_name, element_nodes, law_name_read_back, read_element, views,
    with_name, with_nodes, Element, ElementView,
};
use crate::error::Error;
use crate::name_map::NameMap;
use crate::number::decimal_string;
use crate::syntax::{name_at, remainder, scan_name, scan_spaced_name, spaced_name, ParseFailure};
use crate::text::{
    concat, framed, kelvin, lines_of, lines_view, matches_no_case, owned_strings, prefixed, push_char,
    split_lines, starts_no_case, starts_with_no_case, string_from, strings_view, to_chars,
    strip_comment, trim_chars, trimmed, without_comment,
};

verus! {

/// A subcircuit definition: its name, its pins and the elements it holds.
#[derive(Debug, Clone)]
pub struct SubcircuitDefinition {
    pub name: String,
    pub pins: Vec<String>,
    pub elements: Vec<Element>,
}

pub struct SubcircuitDefinitionView {
    pub name: Seq<char>,
    pub pins: Seq<Seq<char>>,
    pub elements: Seq<ElementView>,
}

impl View for SubcircuitDefinition {
    type V = SubcircuitDefinitionView;

    open spec fn view(&self) -> SubcircuitDefinitionView {
        SubcircuitDefinitionView {
            name: self.name@,
            pins: strings_view(self.pins@),
            elements: views(self.elements@),
        }
    }
}

/// A use of a subcircuit definition in a circuit.
#[derive(Debug, Clone)]
pub struct SubcircuitInstance {
    /// The name of the instance (the text after its leading `X`).
    pub instance_name: String,
    /// The name of the definition that the instance uses.
    pub definition_name: String,
    /// The nodes that the definition's pins connect to, pin by pin.
    pub nodes: Vec<String>,
}

pub struct SubcircuitInstanceView {
    pub instance_name: Seq<char>,
    pub definition_name: Seq<char>,
    pub nodes: Seq<Seq<char>>,
}

impl View for SubcircuitInstance {
    type V = SubcircuitInstanceView;

    open spec fn view(&self) -> SubcircuitInstanceView {
        SubcircuitInstanceView {
            instance_name: self.instance_name@,
            definition_name: self.definition_name@,
            nodes: strings_view(self.nodes@),
        }
    }
}

/// Copies of the strings of a list.
pub fn copy_strings(v: &Vec<String>) -> (r: Vec<String>)
    ensures
        strings_view(r@) == strings_view(v@),
{
    let mut out: Vec<String> = Vec::new();
    let mut i: usize = 0;
    while i < v.len()
        invariant
            i <= v@.len(),
            strings_view(out@) == strings_view(v@.take(i as int)),
        decreases v@.len() - i,
    {
        out.push(v[i].clone());
        assert(strings_view(v@.take(i + 1)) == strings_view(v@.take(i as int)).push(v@[i as int]@));
        i += 1;
    }
    assert(v@.take(v@.len() as int) == v@);
    out
}

fn owned_list(v: Vec<&str>) -> (r: Vec<String>)
    ensures
        strings_view(r@) == v@.map_values(|x: &str| x@),
{
    let r = owned_strings(&v);
    assert(strings_view(r@) =~= v@.map_values(|x: &str| x@));
    r
}

impl SubcircuitInstance {
    /// An instance named `instance_name` of the definition `definition_name`
    /// connected to `nodes`.
    pub fn new(instance_name: &str, definition_name: &str, nodes: Vec<&str>) -> (r:
        SubcircuitInstance)
        ensures
            r@ == (SubcircuitInstanceView {
                instance_name: instance_name@,
                definition_name: definition_name@,
                nodes: nodes@.map_values(|x: &str| x@),
            }),
    {
        SubcircuitInstance {
            instance_name: instance_name.to_owned(),
            definition_name: definition_name.to_owned(),
            nodes: owned_list(nodes),
        }
    }

    /// Returns the identifier of the instance: `X` followed by its name.
    pub fn identifier(&self) -> (r: String)
        ensures
            r@ == seq!['X'] + self.instance_name@,
    {
        prefixed('X', self.instance_name.as_str())
    }

    /// A copy of this instance.
    pub fn duplicate(&self) -> (r: SubcircuitInstance)
        ensures
            r@ == self@,
    {
        SubcircuitInstance {
            instance_name: self.instance_name.clone(),
            definition_name: self.definition_name.clone(),
            nodes: copy_strings(&self.nodes),
        }
    }
}

impl SubcircuitDefinition {
    /// A definition named `name` with the pins `pins` and no elements yet.
    pub fn new(name: &str, pins: Vec<&str>) -> (r: SubcircuitDefinition)
        ensures
            r@ == (SubcircuitDefinitionView {
                name: name@,
                pins: pins@.map_values(|x: &str| x@),
                elements: Seq::empty(),
            }),
    {
        let elements: Vec<Element> = Vec::new();
        let r = SubcircuitDefinition { name: name.to_owned(), pins: owned_list(pins), elements };
        assert(views(r.elements@) =~= Seq::<ElementView>::empty());
        r
    }
}

// ---------------------------------------------------------------------------
// The grammar of headers and instances
// ---------------------------------------------------------------------------

/// Names from `j`, each after at least one blank; it stops (before the
/// blanks) where no further name follows.
pub open spec fn spaced_names(s: Seq<char>, j: int) -> (int, Seq<Seq<char>>)
    decreases s.len() - j,
{
    match spaced_name(s, j) {
        None => (j, Seq::empty()),
        Some((b, e)) => if e <= j || e > s.len() {
            (j, Seq::empty())
        } else {
            let (e2, names) = spaced_names(s, e);
            (e2, seq![s.subrange(b, e)] + names)
        },
    }
}

pub fn read_spaced_names(s: &[char], j: usize) -> (r: (usize, Vec<String>))
    requires
        j <= s@.len(),
    ensures
        spaced_names(s@, j as int) == (r.0 as int, strings_view(r.1@)),
        j <= r.0 <= s@.len(),
{
    let mut out: Vec<String> = Vec::new();
    let mut k = j;
    loop
        invariant
            j <= k <= s@.len(),
            spaced_names(s@, j as int).0 == spaced_names(s@, k as int).0,
            spaced_names(s@, j as int).1 == strings_view(out@) + spaced_names(s@, k as int).1,
        ensures
            j <= k <= s@.len(),
            spaced_names(s@, j as int) == (k as int, strings_view(out@)),
        decreases s@.len() - k,
    {
        match scan_spaced_name(s, k) {
            None => {
                assert(strings_view(out@) + Seq::<Seq<char>>::empty() == strings_view(out@));
                break;
            },
            Some((b, e)) => {
                let ghost old_out = out@;
                out.push(string_from(s, b, e));
                proof {
                    assert(strings_view(out@) == strings_view(old_out).push(s@.subrange(
                        b as int,
                        e as int,
                    )));
                    let rest = spaced_names(s@, e as int).1;
                    assert(strings_view(old_out) + (seq![s@.subrange(b as int, e as int)] + rest)
                        == strings_view(out@) + rest);
                }
                k = e;
            },
        }
    }
    (k, out)
}

/// The keyword that opens a subcircuit definition.
pub open spec fn subckt_keyword() -> Seq<char> {
    seq!['.', 's', 'u', 'b', 'c', 'k', 't']
}

/// The header `.subckt <name> <pins...>` at the start of `s`: the keyword
/// in any case, then names each after at least one blank; the first is the
/// definition's name, the others its pins.
pub open spec fn subckt_header_at(s: Seq<char>) -> Option<(int, SubcircuitDefinitionView)> {
    if !starts_no_case(s, 0, subckt_keyword()) {
        None
    } else {
        match spaced_name(s, 7) {
            None => None,
            Some((b, n)) => {
                let (e, pins) = spaced_names(s, n);
                Some(
                    (
                        e,
                        SubcircuitDefinitionView {
                            name: s.subrange(b, n),
                            pins: pins,
                            elements: Seq::empty(),
                        },
                    ),
                )
            },
        }
    }
}

/// Text on which the keyword match of a header cannot be cut after its
/// seventh byte: `.subc` in any case followed by the KELVIN SIGN (three
/// bytes long, and equal to `k` up to case) and then the end of the text or
/// a `t`.
pub open spec fn kelvin_header(s: Seq<char>) -> bool {
    &&& s.len() >= 6
    &&& starts_no_case(s, 0, seq!['.', 's', 'u', 'b', 'c'])
    &&& s[5] == kelvin()
    &&& (s.len() == 6 || matches_no_case(s[6], 't'))
}

pub fn read_subckt_header(s: &[char]) -> (r: Option<(usize, SubcircuitDefinition)>)
    ensures
        match r {
            Some((e, d)) => subckt_header_at(s@) == Some((e as int, d@)) && e <= s@.len(),
            None => subckt_header_at(s@) is None,
        },
{
    let key: [char; 7] = ['.', 's', 'u', 'b', 'c', 'k', 't'];
    assert(key@ == subckt_keyword());
    if !starts_with_no_case(s, 0, &key) {
        return None;
    }
    match scan_spaced_name(s, 7) {
        None => None,
        Some((b, n)) => {
            let (e, pins) = read_spaced_names(s, n);
            let elements: Vec<Element> = Vec::new();
            let d = SubcircuitDefinition { name: string_from(s, b, n), pins, elements };
            assert(views(d.elements@) =~= Seq::<ElementView>::empty());
            Some((e, d))
        },
    }
}

/// Reads the header `.subckt <name> <pins...>` at the start of `input`;
/// returns the rest of the input and the (still empty) definition.
pub fn parse_subckt_header(input: &str) -> (r: Result<(&str, SubcircuitDefinition), ParseFailure>)
    requires
        !kelvin_header(input@),
    ensures
        match r {
            Ok((rest, d)) => subckt_header_at(input@) == Some((input@.len() - rest@.len(), d@))
                && rest@ == input@.skip(input@.len() - rest@.len()),
            Err(f) => subckt_header_at(input@) is None && f == ParseFailure::Error,
        },
{
    let s = to_chars(input);
    match read_subckt_header(s.as_slice()) {
        Some((e, d)) => Ok((remainder(input, e), d)),
        None => Err(ParseFailure::Error),
    }
}

/// The instance card `X<name> <nodes...> <definition>` at `s[i..]`: `X` or
/// `x`, a name glued to it, and at least one further name each after a
/// blank; the last of those names the definition, the others are the
/// nodes.
pub open spec fn subckt_instance_at(s: Seq<char>, i: int) -> Option<(int, SubcircuitInstanceView)> {
    if !starts_no_case(s, i, seq!['x']) {
        None
    } else {
        match name_at(s, i + 1) {
            None => None,
            Some(n) => {
                let (e, names) = spaced_names(s, n);
                if names.len() == 0 {
                    None
                } else {
                    Some(
                        (
                            e,
                            SubcircuitInstanceView {
                                instance_name: s.subrange(i + 1, n),
                                definition_name: names.last(),
                                nodes: names.drop_last(),
                            },
                        ),
                    )
                }
            },
        }
    }
}

pub fn read_subckt_instance(s: &[char], i: usize) -> (r: Option<(usize, SubcircuitInstance)>)
    requires
        i <= s@.len(),
    ensures
        match r {
            Some((e, x)) => subckt_instance_at(s@, i as int) == Some((e as int, x@)) && i < e
                <= s@.len(),
            None => subckt_instance_at(s@, i as int) is None,
        },
{
    let tag: [char; 1] = ['x'];
    assert(tag@ == seq!['x']);
    if !starts_with_no_case(s, i, &tag) {
        return None;
    }
    let n = match scan_name(s, i + 1) {
        Some(n) => n,
        None => return None,
    };
    let (e, mut names) = read_spaced_names(s, n);
    if names.len() == 0 {
        return None;
    }
    let ghost all = names@;
    let definition_name = names.pop().unwrap();
    assert(names@ == all.drop_last());
    assert(strings_view(names@) == strings_view(all).drop_last());
    let x = SubcircuitInstance {
        instance_name: string_from(s, i + 1, n),
        definition_name,
        nodes: names,
    };
    Some((e, x))
}

/// Reads an instance card at the start of `input`; returns the rest of the
/// input and the instance.
pub fn parse_subckt_instance(input: &str) -> (r: Result<(&str, SubcircuitInstance), ParseFailure>)
    ensures
        match r {
            Ok((rest, x)) => subckt_instance_at(input@, 0) == Some(
                (input@.len() - rest@.len(), x@),
            ) && rest@ == input@.skip(input@.len() - rest@.len()),
            Err(f) => subckt_instance_at(input@, 0) is None && f == ParseFailure::Error,
        },
{
    let s = to_chars(input);
    match read_subckt_instance(s.as_slice(), 0) {
        Some((e, x)) => Ok((remainder(input, e), x)),
        None => Err(ParseFailure::Error),
    }
}

// ---------------------------------------------------------------------------
// Expansion of instances
// ---------------------------------------------------------------------------

/// The node that a pin connects to: pins paired with nodes position by
/// position, a later pin of the same name winning.
pub open spec fn port_map(pins: Seq<Seq<char>>, nodes: Seq<Seq<char>>) -> Map<Seq<char>, Seq<char>>
    decreases pins.len(),
{
    if pins.len() == 0 {
        Map::empty()
    } else {
        port_map(pins.drop_last(), nodes).insert(pins.last(), nodes[pins.len() - 1])
    }
}

/// A node after the pins of a definition are replaced by the nodes they
/// connect to; a node that is no pin stays.
pub open spec fn renamed_node(ports: Map<Seq<char>, Seq<char>>, n: Seq<char>) -> Seq<char> {
    if ports.contains_key(n) {
        ports[n]
    } else {
        n
    }
}

/// An element of a definition as one instance of it holds it: its nodes
/// renamed through `ports`, and its name prefixed by the instance's name and
/// `_`.
pub open spec fn map_element(e: ElementView, ports: Map<Seq<char>, Seq<char>>, parent: Seq<char>) -> ElementView {
    let moved = with_nodes(e, element_nodes(e).map_values(|n: Seq<char>| renamed_node(ports, n)));
    with_name(moved, parent + seq!['_'] + element_name(e))
}

/// The values of a map of strings, by their characters.
pub open spec fn string_map_view(m: Map<Seq<char>, String>) -> Map<Seq<char>, Seq<char>> {
    m.map_values(|v: String| v@)
}

/// The definitions of a map, by their views.
pub open spec fn definitions_view(m: Map<Seq<char>, SubcircuitDefinition>) -> Map<
    Seq<char>,
    SubcircuitDefinitionView,
> {
    m.map_values(|d: SubcircuitDefinition| d@)
}

/// The primitive elements that an instance stands for, with at most `fuel`
/// levels of nested instances: `None` where that is not enough, an error
/// where a definition is missing or an instance's node count differs from
/// its definition's pin count (the first such, in order).
pub open spec fn expand(
    defs: Map<Seq<char>, SubcircuitDefinitionView>,
    inst: SubcircuitInstanceView,
    fuel: nat,
) -> Option<Result<Seq<ElementView>, ()>>
    decreases fuel, 0nat,
{
    if fuel == 0 {
        None
    } else if !defs.contains_key(inst.definition_name) {
        Some(Err(()))
    } else {
        let d = defs[inst.definition_name];
        if inst.nodes.len() != d.pins.len() {
            Some(Err(()))
        } else {
            expand_elements(
                defs,
                d.elements,
                port_map(d.pins, inst.nodes),
                inst.instance_name,
                (fuel - 1) as nat,
            )
        }
    }
}

/// The expansion of the elements of one definition for one instance: each
/// mapped by `map_element`; a mapped instance is expanded in turn, any other
/// element is kept.
pub open spec fn expand_elements(
    defs: Map<Seq<char>, SubcircuitDefinitionView>,
    elems: Seq<ElementView>,
    ports: Map<Seq<char>, Seq<char>>,
    parent: Seq<char>,
    fuel: nat,
) -> Option<Result<Seq<ElementView>, ()>>
    decreases fuel, elems.len(),
{
    if elems.len() == 0 {
        Some(Ok(Seq::empty()))
    } else {
        match expand_elements(defs, elems.drop_last(), ports, parent, fuel) {
            None => None,
            Some(Err(())) => Some(Err(())),
            Some(Ok(done)) => {
                let m = map_element(elems.last(), ports, parent);
                match m {
                    ElementView::SubcktInstance(inner) => match expand(defs, inner, fuel) {
                        None => None,
                        Some(Err(())) => Some(Err(())),
                        Some(Ok(more)) => Some(Ok(done + more)),
                    },
                    _ => Some(Ok(done.push(m))),
                }
            },
        }
    }
}

/// Whether the expansion of an instance ends: some number of levels,
/// within what a `u64` counts, is enough.
pub open spec fn expansion_ends(
    defs: Map<Seq<char>, SubcircuitDefinitionView>,
    inst: SubcircuitInstanceView,
) -> bool {
    exists|fuel: nat| fuel <= u64::MAX && #[trigger] expand(defs, inst, fuel) is Some
}

/// The expansion of an instance, where it ends.
pub open spec fn expansion(
    defs: Map<Seq<char>, SubcircuitDefinitionView>,
    inst: SubcircuitInstanceView,
) -> Result<Seq<ElementView>, ()> {
    let fuel = choose|fuel: nat| fuel <= u64::MAX && #[trigger] expand(defs, inst, fuel) is Some;
    expand(defs, inst, fuel).unwrap()
}

/// The rank of the definition an instance names: its rank where it is
/// defined, 0 where it is not.
pub open spec fn named_rank(
    defs: Map<Seq<char>, SubcircuitDefinitionView>,
    rank: Map<Seq<char>, nat>,
    name: Seq<char>,
) -> nat {
    if defs.contains_key(name) && rank.contains_key(name) {
        rank[name]
    } else {
        0
    }
}

/// Definitions that never reach themselves: each has a rank, and every
/// instance in a definition names a definition of lower rank (or none that
/// exists, which counts as rank 0, below every definition that holds an
/// instance).
pub open spec fn ranked(
    defs: Map<Seq<char>, SubcircuitDefinitionView>,
    rank: Map<Seq<char>, nat>,
) -> bool {
    forall|n: Seq<char>, i: int|
        #![trigger defs[n].elements[i]]
        defs.contains_key(n) && 0 <= i < defs[n].elements.len() && defs[n].elements[i] is SubcktInstance
            ==> rank.contains_key(n) && named_rank(
            defs,
            rank,
            defs[n].elements[i]->SubcktInstance_0.definition_name,
        ) < rank[n]
}

proof fn lemma_expand_elements_ranked(
    defs: Map<Seq<char>, SubcircuitDefinitionView>,
    rank: Map<Seq<char>, nat>,
    elems: Seq<ElementView>,
    ports: Map<Seq<char>, Seq<char>>,
    parent: Seq<char>,
    fuel: nat,
)
    requires
        ranked(defs, rank),
        forall|i: int|
            0 <= i < elems.len() && #[trigger] elems[i] is SubcktInstance ==> named_rank(
                defs,
                rank,
                elems[i]->SubcktInstance_0.definition_name,
            ) < fuel,
    ensures
        expand_elements(defs, elems, ports, parent, fuel) is Some,
    decreases fuel, elems.len(),
{
    if elems.len() > 0 {
        let d = elems.drop_last();
        assert forall|i: int| 0 <= i < d.len() && #[trigger] d[i] is SubcktInstance implies named_rank(
            defs,
            rank,
            d[i]->SubcktInstance_0.definition_name,
        ) < fuel by {
            assert(d[i] == elems[i]);
        }
        lemma_expand_elements_ranked(defs, rank, d, ports, parent, fuel);
        let last = elems.last();
        assert(last == elems[elems.len() - 1]);
        let m = map_element(last, ports, parent);
        if let ElementView::SubcktInstance(inner) = m {
            assert(last is SubcktInstance);
            assert(inner.definition_name == last->SubcktInstance_0.definition_name);
            lemma_expand_ranked(defs, rank, inner, fuel);
        }
    }
}

/// Where the definitions never reach themselves, an instance expands
/// within more levels than the rank of the definition it names.
pub proof fn lemma_expand_ranked(
    defs: Map<Seq<char>, SubcircuitDefinitionView>,
    rank: Map<Seq<char>, nat>,
    inst: SubcircuitInstanceView,
    fuel: nat,
)
    requires
        ranked(defs, rank),
        named_rank(defs, rank, inst.definition_name) < fuel,
    ensures
        expand(defs, inst, fuel) is Some,
    decreases fuel, 0nat,
{
    if defs.contains_key(inst.definition_name) {
        let n = inst.definition_name;
        let dd = defs[n];
        if inst.nodes.len() == dd.pins.len() {
            assert forall|i: int|
                0 <= i < dd.elements.len() && #[trigger] dd.elements[i] is SubcktInstance implies named_rank(
                defs,
                rank,
                dd.elements[i]->SubcktInstance_0.definition_name,
            ) < (fuel - 1) as nat by {
                assert(defs[n].elements[i] == dd.elements[i]);
                assert(rank.contains_key(n));
                assert(named_rank(defs, rank, n) == rank[n]);
            }
            lemma_expand_elements_ranked(
                defs,
                rank,
                dd.elements,
                port_map(dd.pins, inst.nodes),
                inst.instance_name,
                (fuel - 1) as nat,
            );
        }
    }
}

/// Definitions that never reach themselves, ranked below what a `u64`
/// counts, expand every instance: the precondition of `instantiate` holds.
pub proof fn lemma_ranked_expansion_ends(
    defs: Map<Seq<char>, SubcircuitDefinitionView>,
    rank: Map<Seq<char>, nat>,
    inst: SubcircuitInstanceView,
)
    requires
        ranked(defs, rank),
        named_rank(defs, rank, inst.definition_name) < u64::MAX,
    ensures
        expansion_ends(defs, inst),
{
    let fuel = (named_rank(defs, rank, inst.definition_name) + 1) as nat;
    lemma_expand_ranked(defs, rank, inst, fuel);
    assert(expand(defs, inst, fuel) is Some);
}

/// More levels change nothing once the expansion has ended.
pub proof fn lemma_expand_more_fuel(
    defs: Map<Seq<char>, SubcircuitDefinitionView>,
    inst: SubcircuitInstanceView,
    fuel: nat,
    more: nat,
)
    requires
        expand(defs, inst, fuel) is Some,
        fuel <= more,
    ensures
        expand(defs, inst, more) == expand(defs, inst, fuel),
    decreases fuel, 0nat,
{
    if defs.contains_key(inst.definition_name) {
        let d = defs[inst.definition_name];
        if inst.nodes.len() == d.pins.len() {
            lemma_expand_elements_more_fuel(
                defs,
                d.elements,
                port_map(d.pins, inst.nodes),
                inst.instance_name,
                (fuel - 1) as nat,
                (more - 1) as nat,
            );
        }
    }
}

pub proof fn lemma_expand_elements_more_fuel(
    defs: Map<Seq<char>, SubcircuitDefinitionView>,
    elems: Seq<ElementView>,
    ports: Map<Seq<char>, Seq<char>>,
    parent: Seq<char>,
    fuel: nat,
    more: nat,
)
    requires
        expand_elements(defs, elems, ports, parent, fuel) is Some,
        fuel <= more,
    ensures
        expand_elements(defs, elems, ports, parent, more) == expand_elements(
            defs,
            elems,
            ports,
            parent,
            fuel,
        ),
    decreases fuel, elems.len(),
{
    if elems.len() > 0 {
        lemma_expand_elements_more_fuel(defs, elems.drop_last(), ports, parent, fuel, more);
        if let Some(Ok(done)) = expand_elements(defs, elems.drop_last(), ports, parent, fuel) {
            let m = map_element(elems.last(), ports, parent);
            if let ElementView::SubcktInstance(inner) = m {
                lemma_expand_more_fuel(defs, inner, fuel, more);
            }
        }
    }
}

/// A prefix of the elements whose expansion does not end leaves the whole
/// without an end.
proof fn lemma_expand_prefix(
    defs: Map<Seq<char>, SubcircuitDefinitionView>,
    elems: Seq<ElementView>,
    ports: Map<Seq<char>, Seq<char>>,
    parent: Seq<char>,
    fuel: nat,
    k: int,
)
    requires
        0 <= k <= elems.len(),
        expand_elements(defs, elems, ports, parent, fuel) is Some,
    ensures
        expand_elements(defs, elems.take(k), ports, parent, fuel) is Some,
    decreases elems.len() - k,
{
    if k < elems.len() {
        lemma_expand_prefix(defs, elems, ports, parent, fuel, k + 1);
        assert(elems.take(k + 1).drop_last() == elems.take(k));
    } else {
        assert(elems.take(k) == elems);
    }
}

/// A prefix of the elements whose expansion fails makes the whole fail.
proof fn lemma_expand_prefix_error(
    defs: Map<Seq<char>, SubcircuitDefinitionView>,
    elems: Seq<ElementView>,
    ports: Map<Seq<char>, Seq<char>>,
    parent: Seq<char>,
    fuel: nat,
    k: int,
)
    requires
        0 <= k <= elems.len(),
        expand_elements(defs, elems.take(k), ports, parent, fuel) == Some(
            Err::<Seq<ElementView>, ()>(()),
        ),
    ensures
        expand_elements(defs, elems, ports, parent, fuel) == Some(Err::<Seq<ElementView>, ()>(())),
    decreases elems.len() - k,
{
    if k < elems.len() {
        assert(elems.take(k + 1).drop_last() == elems.take(k));
        lemma_expand_prefix_error(defs, elems, ports, parent, fuel, k + 1);
    } else {
        assert(elems.take(k) == elems);
    }
}

/// Whether a list holds no subcircuit instance.
pub open spec fn all_primitive(v: Seq<ElementView>) -> bool {
    forall|i: int| 0 <= i < v.len() ==> !(#[trigger] v[i] is SubcktInstance)
}

/// Expanding an instance leaves no instance behind: every element it gives
/// is a primitive one.
pub proof fn law_expansion_is_primitive(
    defs: Map<Seq<char>, SubcircuitDefinitionView>,
    inst: SubcircuitInstanceView,
    fuel: nat,
)
    ensures
        expand(defs, inst, fuel) matches Some(Ok(v)) ==> all_primitive(v),
    decreases fuel, 0nat,
{
    if fuel > 0 && defs.contains_key(inst.definition_name) {
        let d = defs[inst.definition_name];
        if inst.nodes.len() == d.pins.len() {
            lemma_expanded_elements_primitive(
                defs,
                d.elements,
                port_map(d.pins, inst.nodes),
                inst.instance_name,
                (fuel - 1) as nat,
            );
        }
    }
}

proof fn lemma_expanded_elements_primitive(
    defs: Map<Seq<char>, SubcircuitDefinitionView>,
    elems: Seq<ElementView>,
    ports: Map<Seq<char>, Seq<char>>,
    parent: Seq<char>,
    fuel: nat,
)
    ensures
        expand_elements(defs, elems, ports, parent, fuel) matches Some(Ok(v)) ==> all_primitive(v),
    decreases fuel, elems.len(),
{
    if elems.len() > 0 {
        lemma_expanded_elements_primitive(defs, elems.drop_last(), ports, parent, fuel);
        if let Some(Ok(done)) = expand_elements(defs, elems.drop_last(), ports, parent, fuel) {
            let m = map_element(elems.last(), ports, parent);
            match m {
                ElementView::SubcktInstance(inner) => {
                    law_expansion_is_primitive(defs, inner, fuel);
                    if let Some(Ok(more)) = expand(defs, inner, fuel) {
                        assert forall|i: int| 0 <= i < (done + more).len() implies !(#[trigger] (done
                            + more)[i] is SubcktInstance) by {
                            if i < done.len() {
                                assert((done + more)[i] == done[i]);
                            } else {
                                assert((done + more)[i] == more[i - done.len()]);
                            }
                        }
                    }
                },
                _ => {
                    assert forall|i: int| 0 <= i < done.push(m).len() implies !(
                    #[trigger] done.push(m)[i] is SubcktInstance) by {
                        if i < done.len() {
                            assert(done.push(m)[i] == done[i]);
                        }
                    }
                },
            }
        }
    }
}

/// Whether every element of a list but the diodes (whose names are
/// numbers) has a name that starts with `prefix`.
pub open spec fn names_start_with(v: Seq<ElementView>, prefix: Seq<char>) -> bool {
    forall|i: int|
        0 <= i < v.len() && !(#[trigger] v[i] is Diode) ==> prefix.len() <= element_name(v[i]).len()
            && element_name(v[i]).take(prefix.len() as int) == prefix
}

/// Expanding an instance names what it gives after the instance: every
/// element but a diode is named `<instance>_...`.
pub proof fn law_expansion_names(
    defs: Map<Seq<char>, SubcircuitDefinitionView>,
    inst: SubcircuitInstanceView,
    fuel: nat,
)
    ensures
        expand(defs, inst, fuel) matches Some(Ok(v)) ==> names_start_with(
            v,
            inst.instance_name + seq!['_'],
        ),
    decreases fuel, 0nat,
{
    if fuel > 0 && defs.contains_key(inst.definition_name) {
        let d = defs[inst.definition_name];
        if inst.nodes.len() == d.pins.len() {
            lemma_expanded_elements_names(
                defs,
                d.elements,
                port_map(d.pins, inst.nodes),
                inst.instance_name,
                (fuel - 1) as nat,
            );
        }
    }
}

proof fn lemma_expanded_elements_names(
    defs: Map<Seq<char>, SubcircuitDefinitionView>,
    elems: Seq<ElementView>,
    ports: Map<Seq<char>, Seq<char>>,
    parent: Seq<char>,
    fuel: nat,
)
    ensures
        expand_elements(defs, elems, ports, parent, fuel) matches Some(Ok(v)) ==> names_start_with(
            v,
            parent + seq!['_'],
        ),
    decreases fuel, elems.len(),
{
    let p = parent + seq!['_'];
    if elems.len() > 0 {
        lemma_expanded_elements_names(defs, elems.drop_last(), ports, parent, fuel);
        if let Some(Ok(done)) = expand_elements(defs, elems.drop_last(), ports, parent, fuel) {
            let e = elems.last();
            let moved = with_nodes(
                e,
                element_nodes(e).map_values(|n: Seq<char>| renamed_node(ports, n)),
            );
            let full = parent + seq!['_'] + element_name(e);
            let m = map_element(e, ports, parent);
            assert(m == with_name(moved, full));
            law_name_read_back(moved, full);
            assert(full.take(p.len() as int) =~= p);
            match m {
                ElementView::SubcktInstance(inner) => {
                    law_expansion_names(defs, inner, fuel);
                    if let Some(Ok(more)) = expand(defs, inner, fuel) {
                        assert(inner.instance_name == full);
                        let q = full + seq!['_'];
                        assert forall|i: int|
                            0 <= i < (done + more).len() && !(#[trigger] (done + more)[i] is Diode) implies p.len()
                            <= element_name((done + more)[i]).len() && element_name(
                            (done + more)[i],
                        ).take(p.len() as int) == p by {
                            if i < done.len() {
                                assert((done + more)[i] == done[i]);
                            } else {
                                let x = more[i - done.len()];
                                assert((done + more)[i] == x);
                                let nx = element_name(x);
                                assert(nx.take(q.len() as int) == q);
                                assert(nx.take(p.len() as int) =~= q.take(p.len() as int));
                                assert(q.take(p.len() as int) =~= p);
                            }
                        }
                    }
                },
                _ => {
                    assert forall|i: int|
                        0 <= i < done.push(m).len() && !(#[trigger] done.push(m)[i] is Diode) implies p.len()
                        <= element_name(done.push(m)[i]).len() && element_name(done.push(m)[i]).take(
                        p.len() as int,
                    ) == p by {
                        if i < done.len() {
                            assert(done.push(m)[i] == done[i]);
                        } else {
                            assert(done.push(m)[i] == m);
                        }
                    }
                },
            }
        }
    }
}

/// The map from pins to nodes that an instance uses.
fn port_table(pins: &Vec<String>, nodes: &Vec<String>) -> (r: NameMap<String>)
    requires
        pins@.len() == nodes@.len(),
    ensures
        string_map_view(r.map()) == port_map(strings_view(pins@), strings_view(nodes@)),
{
    let mut m: NameMap<String> = NameMap::new();
    let mut i: usize = 0;
    let ghost ps = strings_view(pins@);
    let ghost ns = strings_view(nodes@);
    assert(string_map_view(m.map()) =~= port_map(ps.take(0), ns));
    while i < pins.len()
        invariant
            i <= pins@.len() == nodes@.len(),
            ps == strings_view(pins@),
            ns == strings_view(nodes@),
            string_map_view(m.map()) == port_map(ps.take(i as int), ns),
        decreases pins@.len() - i,
    {
        let ghost before = m.map();
        m.insert(pins[i].clone(), nodes[i].clone());
        proof {
            assert(ps.take(i + 1).drop_last() == ps.take(i as int));
            assert(ps.take(i + 1).last() == pins@[i as int]@);
            assert(ns[i as int] == nodes@[i as int]@);
            assert(string_map_view(m.map()) =~= string_map_view(before).insert(
                pins@[i as int]@,
                nodes@[i as int]@,
            ));
        }
        i += 1;
    }
    assert(ps.take(pins@.len() as int) == ps);
    m
}

/// Maps the nodes and prefixes the name of one element of a definition for
/// one instance of it (see `map_element`).
pub fn map_sub_element(
    subckt_element: &Element,
    port_to_node: &NameMap<String>,
    parent_instance_name: &str,
) -> (r: Result<Element, Error>)
    ensures
        r matches Ok(x) && x@ == map_element(
            subckt_element@,
            string_map_view(port_to_node.map()),
            parent_instance_name@,
        ),
{
    let ghost ports = string_map_view(port_to_node.map());
    let mut instantiated_element = subckt_element.duplicate();
    let ghost old_nodes = element_nodes(subckt_element@);
    {
        let mut refs = instantiated_element.nodes_mut();
        let ghost all = refs@;
        let n = refs.len();
        let mut i: usize = 0;
        while refs.len() > 0
            invariant
                refs@.len() + i == n,
                n == all.len(),
                n == old_nodes.len(),
                ports == string_map_view(port_to_node.map()),
                forall|j: int| 0 <= j < refs@.len() ==> refs@[j] == all[j + i],
                forall|j: int| 0 <= j < n ==> (*all[j])@ == old_nodes[j],
                forall|j: int|
                    0 <= j < i ==> (*final(all[j]))@ == renamed_node(ports, old_nodes[j]),
            decreases refs@.len(),
        {
            let node: &mut String = refs.remove(0);
            assert(node == all[i as int]);
            let replacement = match port_to_node.get(node.as_str()) {
                Some(actual) => actual.clone(),
                None => node.clone(),
            };
            *node = replacement;
            i += 1;
        }
    }
    let ghost moved = instantiated_element@;
    let ghost new_nodes = old_nodes.map_values(|x: Seq<char>| renamed_node(ports, x));
    assert(element_nodes(moved) =~= new_nodes);
    assert(moved == with_nodes(subckt_element@, new_nodes));
    assert(element_name(moved) == element_name(subckt_element@));
    let name = instantiated_element.name();
    let prefix = concat(parent_instance_name, "_");
    proof {
        reveal_strlit("_");
    }
    assert(prefix@ == parent_instance_name@ + seq!['_']);
    let full = concat(prefix.as_str(), name.as_str());
    instantiated_element.set_name(full.as_str());
    Ok(instantiated_element)
}

impl SubcircuitInstance {
    /// The expansion of this instance with at most `fuel` levels of nested
    /// instances (see `expand`); `None` where that is not enough.
    pub fn instantiate_within(
        &self,
        definitions: &NameMap<SubcircuitDefinition>,
        fuel: u64,
    ) -> (r: Option<Result<Vec<Element>, Error>>)
        ensures
            match r {
                None => expand(definitions_view(definitions.map()), self@, fuel as nat) is None,
                Some(Ok(v)) => expand(definitions_view(definitions.map()), self@, fuel as nat)
                    == Some(Ok::<_, ()>(views(v@))),
                Some(Err(e)) => expand(definitions_view(definitions.map()), self@, fuel as nat)
                    == Some(Err::<Seq<ElementView>, _>(())) && e is InvalidFormat,
            },
        decreases fuel,
    {
        let ghost defs = definitions_view(definitions.map());
        if fuel == 0 {
            return None;
        }
        let definition = match definitions.get(self.definition_name.as_str()) {
            Some(d) => d,
            None => {
                return Some(
                    Err(
                        Error::InvalidFormat(
                            framed(
                                "Undefined subcircuit definition: ",
                                self.definition_name.as_str(),
                                "",
                            ),
                        ),
                    ),
                );
            },
        };
        assert(defs.contains_key(self.definition_name@));
        assert(defs[self.definition_name@] == definition@);
        if self.nodes.len() != definition.pins.len() {
            let head = framed(
                "Node/port mismatch for instance ",
                self.instance_name.as_str(),
                ": expected ",
            );
            let expected = decimal_string(definition.pins.len() as u64);
            let got = decimal_string(self.nodes.len() as u64);
            let middle = framed(head.as_str(), expected.as_str(), ", got ");
            let message = concat(middle.as_str(), got.as_str());
            return Some(Err(Error::InvalidFormat(message)));
        }
        let port_to_node = port_table(&definition.pins, &self.nodes);
        let ghost ports = port_map(definition@.pins, self@.nodes);
        let ghost elems = definition@.elements;
        let ghost parent = self@.instance_name;
        let ghost f = (fuel - 1) as nat;
        let mut final_elements: Vec<Element> = Vec::new();
        let mut i: usize = 0;
        assert(elems.take(0) =~= Seq::<ElementView>::empty());
        assert(views(final_elements@) =~= Seq::<ElementView>::empty());
        assert(expand(defs, self@, fuel as nat) == expand_elements(defs, elems, ports, parent, f));
        while i < definition.elements.len()
            invariant
                i <= definition.elements@.len(),
                elems == views(definition.elements@),
                defs == definitions_view(definitions.map()),
                ports == string_map_view(port_to_node.map()),
                parent == self.instance_name@,
                f == fuel - 1,
                fuel > 0,
                expand(defs, self@, fuel as nat) == expand_elements(defs, elems, ports, parent, f),
                expand_elements(defs, elems.take(i as int), ports, parent, f) == Some(
                    Ok::<_, ()>(views(final_elements@)),
                ),
            decreases definition.elements@.len() - i,
        {
            let mapped_element = match map_sub_element(
                &definition.elements[i],
                &port_to_node,
                self.instance_name.as_str(),
            ) {
                Ok(x) => x,
                Err(e) => {
                    return Some(Err(e));
                },
            };
            proof {
                assert(elems.take(i + 1).drop_last() == elems.take(i as int));
                assert(elems.take(i + 1).last() == definition.elements@[i as int]@);
            }
            match mapped_element {
                Element::SubcktInstance(next_instance) => {
                    match next_instance.instantiate_within(definitions, fuel - 1) {
                        None => {
                            proof {
                                if expand_elements(defs, elems, ports, parent, f) is Some {
                                    lemma_expand_prefix(defs, elems, ports, parent, f, i + 1);
                                }
                            }
                            return None;
                        },
                        Some(Err(e)) => {
                            proof {
                                lemma_expand_prefix_error(defs, elems, ports, parent, f, i + 1);
                            }
                            return Some(Err(e));
                        },
                        Some(Ok(mut expanded_elements)) => {
                            let ghost before = final_elements@;
                            let ghost added = expanded_elements@;
                            final_elements.append(&mut expanded_elements);
                            assert(views(final_elements@) =~= views(before) + views(added));
                        },
                    }
                },
                _ => {
                    let ghost before = final_elements@;
                    final_elements.push(mapped_element);
                    assert(views(final_elements@) =~= views(before).push(mapped_element@));
                },
            }
            i += 1;
        }
        assert(elems.take(definition.elements@.len() as int) == elems);
        Some(Ok(final_elements))
    }

    /// The primitive elements that this instance stands for (see `expand`):
    /// an `InvalidFormat` error where a definition is missing or a node
    /// count differs from a pin count.
    pub fn instantiate(&self, definitions: &NameMap<SubcircuitDefinition>) -> (r: Result<
        Vec<Element>,
        Error,
    >)
        requires
            expansion_ends(definitions_view(definitions.map()), self@),
        ensures
            match r {
                Ok(v) => expansion(definitions_view(definitions.map()), self@) == Ok::<_, ()>(
                    views(v@),
                ),
                Err(e) => expansion(definitions_view(definitions.map()), self@) == Err::<
                    Seq<ElementView>,
                    _,
                >(()) && e is InvalidFormat,
            },
    {
        let ghost defs = definitions_view(definitions.map());
        let ghost fuel = choose|fuel: nat|
            fuel <= u64::MAX && #[trigger] expand(defs, self@, fuel) is Some;
        proof {
            lemma_expand_more_fuel(defs, self@, fuel, u64::MAX as nat);
        }
        match self.instantiate_within(definitions, u64::MAX) {
            Some(r) => r,
            None => {
                assert(false);
                Err(Error::InvalidFormat(String::new()))
            },
        }
    }
}


// ---------------------------------------------------------------------------
// Collecting the definitions of a netlist
// ---------------------------------------------------------------------------

/// What a scan over the lines of a netlist has gathered so far: the
/// definitions by name, whether a definition is open, and its name.
pub struct SubcktState {
    pub defs: Map<Seq<char>, SubcircuitDefinitionView>,
    pub inside: bool,
    pub current: Seq<char>,
}

/// The outcome of a scan: the state reached, a line that the grammar
/// refuses, or a header whose keyword match cannot be cut (see
/// `kelvin_header`).
pub enum SubcktScan {
    Reached(SubcktState),
    Refused,
    Aborted,
}

/// Lines that carry nothing: empty ones and comments (`%` or `*` first).
pub open spec fn is_blank_line(line: Seq<char>) -> bool {
    line.len() == 0 || line[0] == '%' || line[0] == '*'
}

/// The keyword that closes a subcircuit definition.
pub open spec fn ends_keyword() -> Seq<char> {
    seq!['.', 'e', 'n', 'd', 's']
}

/// A definition with one more element.
pub open spec fn with_element(d: SubcircuitDefinitionView, e: ElementView) -> SubcircuitDefinitionView {
    SubcircuitDefinitionView { elements: d.elements.push(e), ..d }
}

/// One line of the scan, its comment removed and trimmed: a header (`.subckt`, in any case) opens a
/// definition, replacing one of the same name; `.ends` closes it; inside a
/// definition every other line that carries something must be an element
/// card, which the open definition gains; outside, such lines are left
/// alone.
pub open spec fn subckt_step(st: SubcktState, line: Seq<char>) -> SubcktScan {
    if is_blank_line(line) {
        SubcktScan::Reached(st)
    } else if starts_no_case(line, 0, subckt_keyword()) {
        if line[5] == kelvin() {
            SubcktScan::Aborted
        } else {
            match subckt_header_at(line) {
                None => SubcktScan::Refused,
                Some((_, h)) => SubcktScan::Reached(
                    SubcktState { defs: st.defs.insert(h.name, h), inside: true, current: h.name },
                ),
            }
        }
    } else if starts_no_case(line, 0, ends_keyword()) {
        SubcktScan::Reached(SubcktState { inside: false, current: Seq::empty(), ..st })
    } else if st.inside {
        match element_line(line) {
            None => SubcktScan::Refused,
            Some(e) => if st.defs.contains_key(st.current) {
                SubcktScan::Reached(
                    SubcktState {
                        defs: st.defs.insert(st.current, with_element(st.defs[st.current], e)),
                        ..st
                    },
                )
            } else {
                SubcktScan::Reached(st)
            },
        }
    } else {
        SubcktScan::Reached(st)
    }
}

/// The scan over lines, each without its comment and trimmed, from no
/// definitions; it stops at the
/// first line that is refused or aborts.
pub open spec fn subckt_scan(lines: Seq<Seq<char>>) -> SubcktScan
    decreases lines.len(),
{
    if lines.len() == 0 {
        SubcktScan::Reached(SubcktState { defs: Map::empty(), inside: false, current: Seq::empty() })
    } else {
        match subckt_scan(lines.drop_last()) {
            SubcktScan::Reached(st) => subckt_step(st, without_comment(lines.last(), true)),
            other => other,
        }
    }
}

/// The definitions of a netlist (see `subckt_scan`).
pub open spec fn subcircuits_of(input: Seq<char>) -> SubcktScan {
    subckt_scan(split_lines(input))
}

proof fn lemma_subckt_scan_prefix(lines: Seq<Seq<char>>, k: int)
    requires
        0 <= k <= lines.len(),
        !(subckt_scan(lines.take(k)) is Reached),
    ensures
        subckt_scan(lines) == subckt_scan(lines.take(k)),
    decreases lines.len() - k,
{
    if k < lines.len() {
        assert(lines.take(k + 1).drop_last() == lines.take(k));
        lemma_subckt_scan_prefix(lines, k + 1);
    } else {
        assert(lines.take(k) == lines);
    }
}

pub proof fn lemma_definitions_view_insert(
    m: Map<Seq<char>, SubcircuitDefinition>,
    k: Seq<char>,
    d: SubcircuitDefinition,
)
    ensures
        definitions_view(m.insert(k, d)) == definitions_view(m).insert(k, d@),
{
    assert(definitions_view(m.insert(k, d)) =~= definitions_view(m).insert(k, d@));
}

/// How the exec state (finished definitions, and the one being read)
/// stands for the state of the scan.
pub open spec fn stands_for(
    done: Map<Seq<char>, SubcircuitDefinition>,
    building: Option<SubcircuitDefinition>,
    st: SubcktState,
) -> bool {
    match building {
        Some(b) => st.inside && st.current == b.name@ && st.defs == definitions_view(done).insert(
            b.name@,
            b@,
        ),
        None => !st.inside && st.current == Seq::<char>::empty() && st.defs == definitions_view(
            done,
        ),
    }
}

fn flush(done: &mut NameMap<SubcircuitDefinition>, building: Option<SubcircuitDefinition>)
    ensures
        definitions_view(final(done).map()) == match building {
            Some(b) => definitions_view(old(done).map()).insert(b.name@, b@),
            None => definitions_view(old(done).map()),
        },
{
    if let Some(b) = building {
        let ghost m = done.map();
        let ghost name = b.name@;
        let ghost bd = b;
        done.insert(b.name.clone(), b);
        proof {
            lemma_definitions_view_insert(m, name, bd);
        }
    }
}

/// Collects the subcircuit definitions of a netlist (see `subckt_scan`);
/// `None` where the scan reaches a header whose keyword match cannot be
/// cut.
#[verifier::spinoff_prover]
#[verifier::rlimit(30)]
pub fn collect_subcircuits(input: &str) -> (r: Option<Result<NameMap<SubcircuitDefinition>, Error>>)
    ensures
        match r {
            None => subcircuits_of(input@) is Aborted,
            Some(Ok(m)) => subcircuits_of(input@) matches SubcktScan::Reached(st) && st.defs
                == definitions_view(m.map()),
            Some(Err(e)) => subcircuits_of(input@) is Refused && e is InvalidFormat,
        },
{
    let lines = lines_of(input);
    let ghost all = lines_view(lines@);
    let mut done: NameMap<SubcircuitDefinition> = NameMap::new();
    let mut building: Option<SubcircuitDefinition> = None;
    let ghost mut st = SubcktState { defs: Map::empty(), inside: false, current: Seq::empty() };
    let mut i: usize = 0;
    assert(all.take(0) =~= Seq::<Seq<char>>::empty());
    assert(definitions_view(done.map()) =~= Map::<Seq<char>, SubcircuitDefinitionView>::empty());
    while i < lines.len()
        invariant
            i <= lines@.len(),
            all == lines_view(lines@),
            all == split_lines(input@),
            subckt_scan(all.take(i as int)) == SubcktScan::Reached(st),
            stands_for(done.map(), building, st),
        decreases lines@.len() - i,
    {
        let line = strip_comment(lines[i].as_slice(), true);
        let ghost t = line@;
        proof {
            assert(all.take(i + 1).drop_last() == all.take(i as int));
            assert(all.take(i + 1).last() == lines@[i as int]@);
            assert(t == without_comment(all.take(i + 1).last(), true));
        }
        let skipped = line.len() == 0 || line[0] == '%' || line[0] == '*';
        let key: [char; 7] = ['.', 's', 'u', 'b', 'c', 'k', 't'];
        assert(key@ == subckt_keyword());
        let ends: [char; 5] = ['.', 'e', 'n', 'd', 's'];
        assert(ends@ == ends_keyword());
        if skipped {
        } else if starts_with_no_case(line.as_slice(), 0, &key) {
            if line[5] == '\u{212A}' {
                proof {
                    lemma_subckt_scan_prefix(all, i + 1);
                }
                return None;
            }
            let header = match read_subckt_header(line.as_slice()) {
                Some((_, h)) => h,
                None => {
                    proof {
                        lemma_subckt_scan_prefix(all, i + 1);
                    }
                    let text = string_from(line.as_slice(), 0, line.len());
                    let message = framed(
                        "Failed to parse subcircuit header: '",
                        text.as_str(),
                        "'",
                    );
                    return Some(Err(Error::InvalidFormat(message)));
                },
            };
            let mut previous: Option<SubcircuitDefinition> = None;
            std::mem::swap(&mut previous, &mut building);
            flush(&mut done, previous);
            proof {
                st = SubcktState {
                    defs: st.defs.insert(header.name@, header@),
                    inside: true,
                    current: header.name@,
                };
                assert(st.defs == definitions_view(done.map()).insert(header.name@, header@));
            }
            building = Some(header);
        } else if starts_with_no_case(line.as_slice(), 0, &ends) {
            let mut previous: Option<SubcircuitDefinition> = None;
            std::mem::swap(&mut previous, &mut building);
            flush(&mut done, previous);
            proof {
                st = SubcktState { inside: false, current: Seq::empty(), ..st };
            }
        } else if building.is_some() {
            let element = match read_element(line.as_slice()) {
                Ok((_, x)) => x,
                Err(_) => {
                    proof {
                        lemma_subckt_scan_prefix(all, i + 1);
                    }
                    let text = string_from(line.as_slice(), 0, line.len());
                    let name = match &building {
                        Some(b) => b.name.clone(),
                        None => String::new(),
                    };
                    let head = framed(
                        "Failed to parse subcircuit element in '",
                        name.as_str(),
                        "': Unexpected error: Failed to parse element from input '",
                    );
                    let message = framed(head.as_str(), text.as_str(), "'");
                    return Some(Err(Error::InvalidFormat(message)));
                },
            };
            let mut b = building.unwrap();
            let ghost before = b@;
            b.elements.push(element);
            proof {
                assert(views(b.elements@) =~= before.elements.push(element@));
                assert(b@ == with_element(before, element@));
                assert(st.defs[st.current] == before);
                st = SubcktState {
                    defs: st.defs.insert(st.current, with_element(st.defs[st.current], element@)),
                    ..st
                };
                assert(st.defs =~= definitions_view(done.map()).insert(b.name@, b@));
            }
            building = Some(b);
        }
        i += 1;
    }
    flush(&mut done, building);
    assert(all.take(lines@.len() as int) == all);
    Some(Ok(done))
}

/// Whether the scan for definitions never reaches a header whose keyword
/// match cannot be cut.
pub open spec fn headers_readable(input: Seq<char>) -> bool {
    !(subcircuits_of(input) is Aborted)
}

/// Collects the subcircuit definitions of a netlist: each `.subckt` header
/// opens a definition (replacing one of the same name), `.ends` closes it,
/// and the element cards between them are its elements (see
/// `subckt_scan`). A header or element card that does not parse gives an
/// `InvalidFormat` error.
pub fn parse_subcircuits(input: &str) -> (r: Result<NameMap<SubcircuitDefinition>, Error>)
    requires
        headers_readable(input@),
    ensures
        match r {
            Ok(m) => subcircuits_of(input@) matches SubcktScan::Reached(st) && st.defs
                == definitions_view(m.map()),
            Err(e) => subcircuits_of(input@) is Refused && e is InvalidFormat,
        },
{
    match collect_subcircuits(input) {
        Some(r) => r,
        None => {
            assert(false);
            Err(Error::InvalidFormat(String::new()))
        },
    }
}

} // verus!
