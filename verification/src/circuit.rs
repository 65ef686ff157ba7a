//! A parsed circuit: its elements, the numbering of its unknowns, its nodes,
//! models and subcircuit definitions.

use vstd::prelude::*;

use crate::elements::subcircuit::{definitions_view, SubcircuitDefinition, SubcircuitDefinitionView};
use crate::elements::{views, Element, ElementView};
use crate::models::{Model, ModelView};
use crate::name_map::NameMap;
use crate::text::strings_view;

verus! {

/// A structured representation of a circuit.
#[derive(Debug, Clone)]
pub struct Circuit {
    /// The circuit elements.
    pub elements: Vec<Element>,
    /// The position of each unknown in the MNA matrix: `V(<node>)` for
    /// each node but ground, `I(<element>)` for each group 2 element.
    pub index_map: NameMap<usize>,
    /// The nodes of the circuit, ground included, in the order they first
    /// appear.
    pub nodes: Vec<String>,
    /// The models of the circuit, by name.
    pub models: NameMap<Model>,
    /// The subcircuit definitions of the circuit, by name.
    pub subcircuit_definitions: NameMap<SubcircuitDefinition>,
}

pub struct CircuitView {
    pub elements: Seq<ElementView>,
    pub index_map: Map<Seq<char>, nat>,
    pub nodes: Seq<Seq<char>>,
    pub models: Map<Seq<char>, ModelView>,
    pub subcircuit_definitions: Map<Seq<char>, SubcircuitDefinitionView>,
}

/// The positions of a map of indices, as natural numbers.
pub open spec fn index_view(m: Map<Seq<char>, usize>) -> Map<Seq<char>, nat> {
    m.map_values(|v: usize| v as nat)
}

/// The models of a map, by their views.
pub open spec fn models_view(m: Map<Seq<char>, Model>) -> Map<Seq<char>, ModelView> {
    m.map_values(|x: Model| x@)
}

impl View for Circuit {
    type V = CircuitView;

    open spec fn view(&self) -> CircuitView {
        CircuitView {
            elements: views(self.elements@),
            index_map: index_view(self.index_map.map()),
            nodes: strings_view(self.nodes@),
            models: models_view(self.models.map()),
            subcircuit_definitions: definitions_view(self.subcircuit_definitions.map()),
        }
    }
}

impl Circuit {
    /// A circuit of the given parts.
    pub fn new(
        elements: Vec<Element>,
        index_map: NameMap<usize>,
        nodes: Vec<String>,
        models: NameMap<Model>,
        subcircuit_definitions: NameMap<SubcircuitDefinition>,
    ) -> (r: Circuit)
        ensures
            r.elements == elements,
            r.index_map == index_map,
            r.nodes == nodes,
            r.models == models,
            r.subcircuit_definitions == subcircuit_definitions,
    {
        Circuit { elements, index_map, nodes, models, subcircuit_definitions }
    }

    /// A circuit with nothing in it.
    pub fn empty_circuit() -> (r: Circuit)
        ensures
            r@.elements.len() == 0,
            r@.index_map == Map::<Seq<char>, nat>::empty(),
            r@.nodes.len() == 0,
            r@.models == Map::<Seq<char>, ModelView>::empty(),
            r@.subcircuit_definitions == Map::<Seq<char>, SubcircuitDefinitionView>::empty(),
    {
        let r = Circuit {
            elements: Vec::new(),
            index_map: NameMap::new(),
            nodes: Vec::new(),
            models: NameMap::new(),
            subcircuit_definitions: NameMap::new(),
        };
        assert(r@.index_map =~= Map::<Seq<char>, nat>::empty());
        assert(r@.models =~= Map::<Seq<char>, ModelView>::empty());
        assert(r@.subcircuit_definitions =~= Map::<Seq<char>, SubcircuitDefinitionView>::empty());
        r
    }

    /// Whether the circuit has neither elements nor subcircuit definitions.
    pub fn is_empty(&self) -> (r: bool)
        ensures
            r == (self@.elements.len() == 0 && self@.subcircuit_definitions.dom().len() == 0),
    {
        proof {
            assert(self@.subcircuit_definitions.dom() =~= self.subcircuit_definitions.map().dom());
        }
        self.elements.len() == 0 && self.subcircuit_definitions.is_empty()
    }
}

} // verus!
