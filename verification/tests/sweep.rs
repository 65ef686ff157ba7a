use krets::elements::Element;
use krets::number::Number;
use krets::parser::parse_circuit_description;
use krets::sweep::{replace_source_value, sweep_source, SweepRefusal};

fn number(literal: &str, power_of_ten: i32) -> Number {
    Number { literal: literal.to_string(), power_of_ten }
}

#[test]
fn the_swept_source_is_found_by_identifier() {
    let circuit = parse_circuit_description("V1 1 0 5\nR1 1 2 1k\nI1 2 0 1m\n").unwrap();
    assert_eq!(sweep_source(&circuit.elements, "V1"), Ok(0));
    assert_eq!(sweep_source(&circuit.elements, "I1"), Ok(2));
    assert_eq!(sweep_source(&circuit.elements, "R1"), Err(SweepRefusal::NotASource));
    assert_eq!(sweep_source(&circuit.elements, "V9"), Err(SweepRefusal::NotFound));
    assert_eq!(sweep_source(&circuit.elements, "v1"), Err(SweepRefusal::NotFound));
}

#[test]
fn stepping_a_source_and_putting_it_back() {
    let mut circuit = parse_circuit_description("V1 1 0 5\nR1 1 0 1k\n").unwrap();
    let previous = replace_source_value(&mut circuit.elements[0], number("2.5", 0));
    assert_eq!(previous.literal, "5");
    assert_eq!(previous.power_of_ten, 0);
    match &circuit.elements[0] {
        Element::VoltageSource(v) => assert_eq!(v.dc_value.literal, "2.5"),
        _ => panic!("expected a voltage source"),
    }
    let stepped = replace_source_value(&mut circuit.elements[0], previous);
    assert_eq!(stepped.literal, "2.5");
    match &circuit.elements[0] {
        Element::VoltageSource(v) => {
            assert_eq!(v.dc_value.literal, "5");
            assert_eq!(v.dc_value.power_of_ten, 0);
        }
        _ => panic!("expected a voltage source"),
    }
}

#[test]
fn stepping_a_current_source() {
    let mut circuit = parse_circuit_description("I1 1 0 1m\nR1 1 0 1k\n").unwrap();
    let previous = replace_source_value(&mut circuit.elements[0], number("3", -6));
    assert_eq!(previous.literal, "1");
    assert_eq!(previous.power_of_ten, -3);
    match &circuit.elements[0] {
        Element::CurrentSource(i) => {
            assert_eq!(i.value.literal, "3");
            assert_eq!(i.value.power_of_ten, -6);
        }
        _ => panic!("expected a current source"),
    }
}
