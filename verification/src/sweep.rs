//! The source that a DC sweep steps: finding it among the elements, and
//! stepping its value and putting it back.

use vstd::prelude::*;

use crate::elements::{element_identifier, views, Element, ElementView};
use crate::number::{Number, NumberView};
use crate::text::{str_equals, to_chars};

verus! {

/// Why a DC sweep cannot step the element it names.
#[derive(Clone, Copy, Debug, PartialEq, Eq)]
pub enum SweepRefusal {
    /// No element has that identifier.
    NotFound,
    /// The first element with that identifier is not a voltage or current
    /// source.
    NotASource,
}

/// Whether an element is an independent source, which a sweep can step.
pub open spec fn is_source(e: ElementView) -> bool {
    e is VoltageSource || e is CurrentSource
}

/// Whether `i` is the first position of an element with identifier `name`.
pub open spec fn first_named(elems: Seq<ElementView>, name: Seq<char>, i: int) -> bool {
    &&& 0 <= i < elems.len()
    &&& element_identifier(elems[i]) == name
    &&& forall|j: int| 0 <= j < i ==> element_identifier(#[trigger] elems[j]) != name
}

/// The element that a DC sweep of `name` steps: the first element with
/// that identifier, which must be a voltage or current source.
pub fn sweep_source(elements: &Vec<Element>, name: &str) -> (r: Result<usize, SweepRefusal>)
    ensures
        match r {
            Ok(i) => first_named(views(elements@), name@, i as int) && is_source(
                views(elements@)[i as int],
            ),
            Err(SweepRefusal::NotFound) => forall|j: int|
                0 <= j < elements@.len() ==> element_identifier(#[trigger] views(elements@)[j])
                    != name@,
            Err(SweepRefusal::NotASource) => exists|i: int|
                first_named(views(elements@), name@, i) && !is_source(
                    #[trigger] views(elements@)[i],
                ),
        },
{
    let target = to_chars(name);
    let mut i: usize = 0;
    while i < elements.len()
        invariant
            i <= elements@.len(),
            target@ == name@,
            forall|j: int|
                0 <= j < i ==> element_identifier(#[trigger] views(elements@)[j]) != name@,
        decreases elements@.len() - i,
    {
        let id = elements[i].identifier();
        if str_equals(id.as_str(), target.as_slice()) {
            assert(views(elements@)[i as int] == elements@[i as int]@);
            match &elements[i] {
                Element::VoltageSource(_) | Element::CurrentSource(_) => {
                    return Ok(i);
                },
                _ => {
                    assert(first_named(views(elements@), name@, i as int));
                    return Err(SweepRefusal::NotASource);
                },
            }
        }
        assert(views(elements@)[i as int] == elements@[i as int]@);
        i += 1;
    }
    Err(SweepRefusal::NotFound)
}

/// The value that a sweep steps: a voltage source's DC value or a current
/// source's value.
pub open spec fn source_value(e: ElementView) -> NumberView
    recommends
        is_source(e),
{
    match e {
        ElementView::VoltageSource(x) => x.dc_value,
        ElementView::CurrentSource(x) => x.value,
        _ => arbitrary(),
    }
}

/// The source with its stepped value set to `v`; other elements as they
/// are.
pub open spec fn with_source_value(e: ElementView, v: NumberView) -> ElementView {
    match e {
        ElementView::VoltageSource(x) => ElementView::VoltageSource(
            crate::elements::voltage_source::VoltageSourceView { dc_value: v, ..x },
        ),
        ElementView::CurrentSource(x) => ElementView::CurrentSource(
            crate::elements::current_source::CurrentSourceView { value: v, ..x },
        ),
        _ => e,
    }
}

/// Sets the stepped value of a source to `v` and gives back the value it
/// had.
pub fn replace_source_value(e: &mut Element, v: Number) -> (previous: Number)
    requires
        is_source(old(e)@),
    ensures
        previous@ == source_value(old(e)@),
        final(e)@ == with_source_value(old(e)@, v@),
{
    match e {
        Element::VoltageSource(x) => {
            let previous = x.dc_value.duplicate();
            x.dc_value = v;
            previous
        },
        Element::CurrentSource(x) => {
            let previous = x.value.duplicate();
            x.value = v;
            previous
        },
        _ => v,
    }
}

/// A sweep leaves its source as it found it: setting back the value that
/// stepping replaced restores the element, and a stepped source holds the
/// value it was given.
pub proof fn law_sweep_restores(e: ElementView, v: NumberView)
    requires
        is_source(e),
    ensures
        source_value(with_source_value(e, v)) == v,
        with_source_value(with_source_value(e, v), source_value(e)) == e,
{
}

/// What a sweep steps: a voltage source's DC value and a current source's
/// value; setting it changes nothing else, and other elements are left
/// alone.
pub proof fn law_sweep_fields(e: ElementView, v: NumberView)
    ensures
        e matches ElementView::VoltageSource(x) ==> source_value(e) == x.dc_value && with_source_value(
            e,
            v,
        ) == ElementView::VoltageSource(
            crate::elements::voltage_source::VoltageSourceView { dc_value: v, ..x },
        ),
        e matches ElementView::CurrentSource(x) ==> source_value(e) == x.value && with_source_value(
            e,
            v,
        ) == ElementView::CurrentSource(
            crate::elements::current_source::CurrentSourceView { value: v, ..x },
        ),
        !is_source(e) ==> with_source_value(e, v) == e,
{
}

} // verus!
