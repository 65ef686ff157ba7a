use krets::elements::subcircuit::parse_subcircuits;

#[test]
fn a_line_outside_any_definition_is_not_read() {
    let defs = parse_subcircuits("bogus\n.subckt s p q\nR1 p q 1\n.ends\nnot a card either\n").unwrap();
    assert_eq!(defs.len(), 1);
}

#[test]
fn a_line_inside_a_definition_must_be_a_card() {
    assert!(parse_subcircuits(".subckt s p q\nbogus\n.ends\n").is_err());
    assert!(parse_subcircuits(".subckt s p q\n* a comment\n\nR1 p q 1\n.ends\n").is_ok());
}

#[test]
fn a_subckt_line_must_be_a_header() {
    assert!(parse_subcircuits(".subckt\n").is_err());
}
