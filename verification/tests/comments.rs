use krets::elements::Element;
use krets::parser::parse_circuit_description;

#[test]
fn a_comment_glued_to_a_card_is_ignored() {
    let circuit = parse_circuit_description("R1 1 0 1k%comment").unwrap();
    assert_eq!(circuit.elements.len(), 1);
    match &circuit.elements[0] {
        Element::Resistor(r) => {
            assert_eq!(r.value.literal, "1");
            assert_eq!(r.value.power_of_ten, 3);
        }
        _ => panic!("expected a resistor"),
    }
}

#[test]
fn a_star_comment_in_a_line_is_ignored() {
    let a = parse_circuit_description("V1 1 0 5 *source\nR1 1 0 1k* load\n");
    let b = parse_circuit_description("V1 1 0 5\nR1 1 0 1k\n");
    assert_eq!(format!("{a:?}"), format!("{b:?}"));
}

#[test]
fn a_line_that_is_only_a_comment_carries_nothing() {
    let a = parse_circuit_description("V1 1 0 5\n   % note\n* note\nR1 1 0 1k\n");
    let b = parse_circuit_description("V1 1 0 5\n\n\nR1 1 0 1k\n");
    assert_eq!(format!("{a:?}"), format!("{b:?}"));
}

#[test]
fn a_control_block_changes_nothing() {
    let a = parse_circuit_description("V1 1 0 5\n.control\n  tran 1ms 5ms\n  not a card\n.endc\nR1 1 0 1k\n");
    let b = parse_circuit_description("V1 1 0 5\nR1 1 0 1k\n");
    assert!(a.is_ok());
    assert_eq!(format!("{a:?}"), format!("{b:?}"));
}
