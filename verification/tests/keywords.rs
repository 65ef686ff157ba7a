use krets::elements::voltage_source::VoltageSource;
use krets::parser::parse_circuit_description;

#[test]
fn line_keywords_read_in_any_case() {
    let lower = "xdiv1 10 7 0 vdivide
.subckt vdivide 1 2 3
r1 1 2 10K
r2 2 3 5K
.ends
D1 10 0 DMOD
.model DMOD D (is=1e-9)
.control
  run
.endc
.end";
    let upper = "xdiv1 10 7 0 vdivide
.SUBCKT vdivide 1 2 3
r1 1 2 10K
r2 2 3 5K
.ENDS
D1 10 0 DMOD
.MODEL DMOD D (is=1e-9)
.CONTROL
  run
.ENDC
.END";
    let a = parse_circuit_description(lower);
    let b = parse_circuit_description(upper);
    assert!(a.is_ok());
    assert_eq!(format!("{a:?}"), format!("{b:?}"));
}

#[test]
fn a_mixed_case_subckt_keyword_opens_a_definition() {
    let c = parse_circuit_description("x1 a 0 half\n.SubCkt half p q\nR1 p q 2\n.EnDs").unwrap();
    assert_eq!(c.subcircuit_definitions.len(), 1);
    assert_eq!(c.elements.len(), 1);
}

#[test]
fn parameter_keywords_read_in_any_case() {
    let pairs = [
        ("V1 1 0 dc 5", "V1 1 0 DC 5"),
        ("V1 1 0 ac 1", "V1 1 0 Ac 1"),
        ("V2 a 0 pulse(0 1 0 1n 1n 5u 10u)", "V2 a 0 PULSE(0 1 0 1n 1n 5u 10u)"),
        ("V3 a 0 sin(0 1 1k 0 0 0)", "V3 a 0 SIN(0 1 1k 0 0 0)"),
    ];
    for (a, b) in pairs {
        let x = a.parse::<VoltageSource>().unwrap();
        let y = b.parse::<VoltageSource>().unwrap();
        assert_eq!(format!("{x:?}"), format!("{y:?}"));
    }
}

#[test]
fn model_kinds_read_in_any_case_in_a_netlist() {
    let a = parse_circuit_description("D1 1 0 dmod\nV1 1 0 5\n.model dmod d (is=1e-9)\n");
    let b = parse_circuit_description("D1 1 0 dmod\nV1 1 0 5\n.model dmod D (is=1e-9)\n");
    assert!(b.is_ok());
    assert_eq!(format!("{a:?}"), format!("{b:?}"));
    assert!(krets::models::parse_model(".model m1 nmos (vto=1)").is_ok());
    assert!(krets::models::parse_model(".model m1 pMoS (vto=1)").is_ok());
}
