use krets::elements::bjt::BJT;
use krets::elements::resistor::Resistor;
use krets::elements::subcircuit::{parse_subcircuits, SubcircuitInstance};
use krets::error::Error;
use krets::parser::parse_circuit_description;

#[test]
fn a_resistor_that_is_not_positive_is_named_in_the_message() {
    match "R1 1 0 -5".parse::<Resistor>() {
        Err(Error::InvalidFloatValue(m)) => {
            assert_eq!(m, "Resistor value must be positive: 'R1 1 0 -5'")
        }
        other => panic!("unexpected {other:?}"),
    }
}

#[test]
fn an_empty_transistor_card_is_reported() {
    match "  % nothing".parse::<BJT>() {
        Err(Error::InvalidFormat(m)) => assert_eq!(m, "Empty line after comment removal"),
        other => panic!("unexpected {other:?}"),
    }
    match "Q1 1 2".parse::<BJT>() {
        Err(Error::InvalidFormat(m)) => assert!(m.starts_with("Failed to parse BJT line 'Q1 1 2'")),
        other => panic!("unexpected {other:?}"),
    }
}

#[test]
fn a_missing_definition_is_named() {
    let defs = parse_subcircuits(".subckt half a b\nr1 a b 1\n.ends").unwrap();
    let instance = SubcircuitInstance::new("h", "whole", vec!["x", "y"]);
    match instance.instantiate(&defs) {
        Err(Error::InvalidFormat(m)) => assert_eq!(m, "Undefined subcircuit definition: whole"),
        other => panic!("unexpected {other:?}"),
    }
}

#[test]
fn a_port_count_mismatch_gives_both_counts() {
    let defs = parse_subcircuits(".subckt half a b\nr1 a b 1\n.ends").unwrap();
    let instance = SubcircuitInstance::new("h", "half", vec!["x"]);
    match instance.instantiate(&defs) {
        Err(Error::InvalidFormat(m)) => {
            assert_eq!(m, "Node/port mismatch for instance h: expected 2, got 1")
        }
        other => panic!("unexpected {other:?}"),
    }
}

#[test]
fn a_refused_card_in_a_netlist_names_its_line() {
    match parse_circuit_description("R1 1 0 1\nbogus line\n") {
        Err(Error::ParseError { line, message }) => {
            assert_eq!(line, 2);
            assert!(message.starts_with("Unexpected error: Failed to parse element from input 'bogus line'"));
        }
        other => panic!("unexpected {other:?}"),
    }
}

#[test]
fn a_refused_definition_block_is_wrapped() {
    match parse_circuit_description(".subckt s p\nnot an element\n.ends\nR1 1 0 1") {
        Err(Error::InvalidFormat(m)) => assert!(m.starts_with(
            "Failed to parse subcircuits: Invalid format: Failed to parse subcircuit element in 's'"
        )),
        other => panic!("unexpected {other:?}"),
    }
}

#[test]
fn a_refused_element_names_its_input() {
    match krets::elements::parse_element("z1 a b 1") {
        Err(Error::Unexpected(m)) => assert_eq!(m, "Failed to parse element from input 'z1 a b 1'"),
        other => panic!("unexpected {other:?}"),
    }
}
