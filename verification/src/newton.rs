//! The decisions of the Newton-Raphson iteration that finds an operating
//! point: whether it is needed at all, and what follows each solve of the
//! linearised system.

use vstd::prelude::*;

use crate::elements::{element_is_nonlinear, law_element_kinds, views, Element};

verus! {

/// Whether some element of `elements` is nonlinear (a diode, BJT or
/// MOSFET); a circuit without one is solved by a single linear solve.
pub open spec fn any_nonlinear(elements: Seq<Element>) -> bool {
    exists|i: int| 0 <= i < elements.len() && element_is_nonlinear(#[trigger] views(elements)[i])
}

pub fn has_nonlinear_elements(elements: &Vec<Element>) -> (r: bool)
    ensures
        r == any_nonlinear(elements@),
{
    let mut i: usize = 0;
    while i < elements.len()
        invariant
            i <= elements@.len(),
            forall|j: int| 0 <= j < i ==> !element_is_nonlinear(#[trigger] views(elements@)[j]),
        decreases elements@.len() - i,
    {
        if elements[i].is_nonlinear() {
            assert(element_is_nonlinear(views(elements@)[i as int]));
            return true;
        }
        i += 1;
    }
    false
}

/// What follows a solve of the linearised system.
#[derive(Clone, Copy, Debug, PartialEq, Eq)]
pub enum NextStep {
    /// The solution stands: the circuit is linear, or the iteration converged.
    Done,
    /// Linearise again around the new solution.
    Iterate,
    /// The last allowed iteration ended without convergence.
    GiveUp,
}

/// The step after iteration `iteration` (counted from 0) of at most
/// `maximum`: a linear circuit is done after one solve; a nonlinear one is
/// done once the solution has converged, and gives up when the last
/// iteration has not.
pub open spec fn next_step(iteration: nat, maximum: nat, nonlinear: bool, converged: bool) -> NextStep {
    if !nonlinear || converged {
        NextStep::Done
    } else if iteration + 1 >= maximum {
        NextStep::GiveUp
    } else {
        NextStep::Iterate
    }
}

pub fn after_iteration(iteration: usize, maximum: usize, nonlinear: bool, converged: bool) -> (r:
    NextStep)
    requires
        iteration < maximum,
    ensures
        r == next_step(iteration as nat, maximum as nat, nonlinear, converged),
{
    if !nonlinear || converged {
        NextStep::Done
    } else if iteration == maximum - 1 {
        NextStep::GiveUp
    } else {
        NextStep::Iterate
    }
}

/// A list needs the Newton-Raphson iteration exactly when it holds a
/// diode, a bipolar transistor or a MOSFET.
pub proof fn law_any_nonlinear(elements: Seq<Element>)
    ensures
        any_nonlinear(elements) <==> exists|i: int|
            0 <= i < elements.len() && (#[trigger] elements[i] is Diode || elements[i] is BJT
                || elements[i] is NMOSFET),
{
    if any_nonlinear(elements) {
        let i = choose|i: int|
            0 <= i < elements.len() && element_is_nonlinear(#[trigger] views(elements)[i]);
        law_element_kinds(elements[i]);
        assert(views(elements)[i] == elements[i]@);
    }
    if exists|i: int|
        0 <= i < elements.len() && (#[trigger] elements[i] is Diode || elements[i] is BJT
            || elements[i] is NMOSFET) {
        let i = choose|i: int|
            0 <= i < elements.len() && (#[trigger] elements[i] is Diode || elements[i] is BJT
                || elements[i] is NMOSFET);
        law_element_kinds(elements[i]);
        assert(views(elements)[i] == elements[i]@);
    }
}

/// After each solve: a linear circuit, or a converged solution, is done;
/// otherwise a nonlinear circuit iterates again while iterations remain
/// and gives up after the last one.
pub proof fn law_next_step(iteration: nat, maximum: nat, nonlinear: bool, converged: bool)
    requires
        iteration < maximum,
    ensures
        !nonlinear ==> next_step(iteration, maximum, nonlinear, converged) == NextStep::Done,
        converged ==> next_step(iteration, maximum, nonlinear, converged) == NextStep::Done,
        nonlinear && !converged && iteration + 1 < maximum ==> next_step(
            iteration,
            maximum,
            nonlinear,
            converged,
        ) == NextStep::Iterate,
        nonlinear && !converged && iteration + 1 == maximum ==> next_step(
            iteration,
            maximum,
            nonlinear,
            converged,
        ) == NextStep::GiveUp,
{
}

} // verus!
