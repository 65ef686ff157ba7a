use krets::newton::{after_iteration, has_nonlinear_elements, NextStep};
use krets::parser::parse_circuit_description;

#[test]
fn a_linear_circuit_needs_one_solve() {
    assert_eq!(after_iteration(0, 300, false, false), NextStep::Done);
    assert_eq!(after_iteration(299, 300, false, false), NextStep::Done);
}

#[test]
fn a_nonlinear_circuit_iterates_until_it_converges() {
    assert_eq!(after_iteration(0, 300, true, false), NextStep::Iterate);
    assert_eq!(after_iteration(5, 300, true, true), NextStep::Done);
    assert_eq!(after_iteration(298, 300, true, false), NextStep::Iterate);
}

#[test]
fn the_last_iteration_without_convergence_gives_up() {
    assert_eq!(after_iteration(299, 300, true, false), NextStep::GiveUp);
    assert_eq!(after_iteration(0, 1, true, false), NextStep::GiveUp);
    assert_eq!(after_iteration(299, 300, true, true), NextStep::Done);
}

#[test]
fn nonlinear_elements_are_found() {
    let linear = parse_circuit_description("V1 1 0 1\nR1 1 0 1k\nC1 1 0 1u\n").unwrap();
    assert!(!has_nonlinear_elements(&linear.elements));
    let with_diode =
        parse_circuit_description("V1 1 0 1\nR1 1 2 1k\nD1 2 0 DMOD\n.model DMOD D (is=1e-9)\n")
            .unwrap();
    assert!(has_nonlinear_elements(&with_diode.elements));
}
