//! A subcircuit as its header introduces it: a name, pins and elements.

use vstd::prelude::*;

use crate::elements::subcircuit::{
    kelvin_header, read_subckt_header, subckt_header_at, SubcircuitDefinitionView,
};
use crate::elements::{views, Element, ElementView};
use crate::syntax::{remainder, ParseFailure};
use crate::text::{owned_strings, strings_view, to_chars};

verus! {

/// A subcircuit: its name, its pins and the elements it holds.
pub struct Subcircuit {
    pub name: String,
    pub pins: Vec<String>,
    pub elements: Vec<Element>,
}

impl View for Subcircuit {
    type V = SubcircuitDefinitionView;

    open spec fn view(&self) -> SubcircuitDefinitionView {
        SubcircuitDefinitionView {
            name: self.name@,
            pins: strings_view(self.pins@),
            elements: views(self.elements@),
        }
    }
}

impl Subcircuit {
    /// A subcircuit named `name` with the pins `pins` and no elements yet.
    pub fn new(name: &str, pins: Vec<&str>) -> (r: Subcircuit)
        ensures
            r@ == (SubcircuitDefinitionView {
                name: name@,
                pins: pins@.map_values(|x: &str| x@),
                elements: Seq::empty(),
            }),
    {
        let owned = owned_strings(&pins);
        assert(strings_view(owned@) =~= pins@.map_values(|x: &str| x@));
        let elements: Vec<Element> = Vec::new();
        let r = Subcircuit { name: name.to_owned(), pins: owned, elements };
        assert(views(r.elements@) =~= Seq::<ElementView>::empty());
        r
    }
}

/// Reads the header `.subckt <name> <pins...>` at the start of `input`
/// (see `subckt_header_at`); returns the rest of the input and the (still
/// empty) subcircuit.
pub fn parse_subckt_header(input: &str) -> (r: Result<(&str, Subcircuit), ParseFailure>)
    requires
        !kelvin_header(input@),
    ensures
        match r {
            Ok((rest, d)) => subckt_header_at(input@) == Some((input@.len() - rest@.len(), d@))
                && rest@ == input@.skip(input@.len() - rest@.len()),
            Err(f) => subckt_header_at(input@) is None && f == ParseFailure::Error,
        },
{
    let s = to_chars(input);
    match read_subckt_header(s.as_slice()) {
        Some((e, d)) => Ok((remainder(input, e), Subcircuit { name: d.name, pins: d.pins, elements: d.elements })),
        None => Err(ParseFailure::Error),
    }
}

} // verus!
