use krets::elements::subcircuit::{
    map_sub_element, parse_subckt_instance, parse_subcircuits, SubcircuitDefinition,
    SubcircuitInstance,
};
use krets::elements::{parse_element, Element};
use krets::error::Error;
use krets::name_map::NameMap;
use krets::number::Number;
use krets::parser::{parse_circuit_description, parse_circuit_description_within};
use krets::subcircuit::{parse_subckt_header as parse_header, Subcircuit};

fn value(n: &Number) -> f64 {
    let base: f64 = n.literal.parse().unwrap();
    let multiplier = match n.power_of_ten {
        -15 => 1e-15,
        -12 => 1e-12,
        -9 => 1e-9,
        -6 => 1e-6,
        -3 => 1e-3,
        0 => 1.0,
        3 => 1e3,
        6 => 1e6,
        9 => 1e9,
        12 => 1e12,
        p => 10f64.powi(p),
    };
    base * multiplier
}

#[test]
fn test_parse_empty_netlist() {
    let netlist = "";
    let result = parse_circuit_description(netlist);
    assert!(matches!(result, Err(Error::EmptyNetlist)));
}

#[test]
fn test_parse_netlist() {
    let netlist = "V1 5 0 2
V2 3 2 0.2
V3 7 6 2
I1 4 8 1e-3
I2 0 6 1e-3
R1 1 5 1.5
R2 1 2 1
R3 5 2 50
R4 5 6 0.1
R5 2 6 1.5
R6 3 4 0.1
R7 8 0 1e3
R8 4 0 10";
    let circuit = parse_circuit_description(netlist);

    if let Err(e) = &circuit {
        println!("Parsing failed with error: {:?}", e);
    }
    assert!(circuit.is_ok());

    let circuit = circuit.unwrap();
    assert_eq!(circuit.elements.len(), 13);
    assert_eq!(circuit.nodes.len(), 9);
}

#[test]
fn test_parse_rectifier() {
    let netlist = "
V1 in_ac1 0 SIN(0 5 60 0 0 0)
V2 in_ac2 0 SIN(0 -5 60 0 0 0)

D1 in_ac1 out_dc DMOD
D2 in_ac2 out_dc DMOD  
D3 0 in_ac1 DMOD
D4 0 in_ac2 DMOD

C1 out_dc 0 100u
R1 out_dc 0 1k 

.model DMOD D (is=1e-9)


.control
  tran 0.1ms 50ms
  run
  plot v(in_ac1,in_ac2) v(out_dc)
.endc
.end";
    let circuit = parse_circuit_description(netlist);

    for element in circuit.as_ref().unwrap().elements.iter() {
        if let Element::Diode(diode) = element {
            assert_eq!(diode.model_name, "DMOD");
            assert_eq!(value(&diode.model.saturation_current), 1e-9);
        }
    }

    if let Err(e) = &circuit {
        println!("Parsing failed with error: {:?}", e);
    }
    assert!(circuit.is_ok());
}

#[test]
fn test_with_subckt() {
    let netlist = "
xdiv1 10 7 0 vdivide
.subckt vdivide 1 2 3
r1 1 2 10K
r2 2 3 5K
.ends
";
    let circuit = parse_circuit_description(netlist);

    if let Err(e) = &circuit {
        println!("Parsing failed with error: {:?}", e);
    }
    assert!(circuit.is_ok());

    let circuit = circuit.unwrap();
    assert_eq!(circuit.subcircuit_definitions.len(), 1);
}

#[test]
fn subcircuit_test_parse_header() {
    let subckt_str = ".SUBCKT my_subckt in out vdd gnd";
    let (_, subckt) = krets::elements::subcircuit::parse_subckt_header(subckt_str).unwrap();
    assert_eq!(subckt.name, "my_subckt");
    assert_eq!(subckt.pins, vec!["in", "out", "vdd", "gnd"]);

    let (_, subckt) = parse_header(subckt_str).unwrap();
    assert_eq!(subckt.name, "my_subckt");
    assert_eq!(subckt.pins, vec!["in", "out", "vdd", "gnd"]);
}

#[test]
fn subckt_expansion_renames_and_maps() {
    let netlist = "
xdiv1 10 7 0 vdivide
.subckt vdivide 1 2 3
r1 1 2 10K
r2 2 3 5K
.ends
";
    let circuit = parse_circuit_description(netlist).unwrap();
    assert_eq!(circuit.elements.len(), 2);
    let first = &circuit.elements[0];
    assert_eq!(first.name(), "div1_1");
    assert_eq!(first.nodes(), vec!["10", "7"]);
    assert_eq!(first.identifier(), "Rdiv1_1");
    let second = &circuit.elements[1];
    assert_eq!(second.nodes(), vec!["7", "0"]);
    assert_eq!(circuit.nodes, vec!["10", "7", "0"]);
    assert_eq!(*circuit.index_map.get("V(10)").unwrap(), 0);
    assert_eq!(*circuit.index_map.get("V(7)").unwrap(), 1);
    assert!(circuit.index_map.get("V(0)").is_none());
}

#[test]
fn nested_subcircuits_expand_fully() {
    let netlist = "
x1 a b outer
.subckt inner p q
r1 p q 1
.ends
.subckt outer m n
xin m k inner
c1 k n 1u
.ends
";
    let circuit = parse_circuit_description(netlist).unwrap();
    assert_eq!(circuit.elements.len(), 2);
    assert_eq!(circuit.elements[0].identifier(), "R1_in_1");
    assert_eq!(circuit.elements[0].nodes(), vec!["a", "k"]);
    assert_eq!(circuit.elements[1].identifier(), "C1_1");
    assert_eq!(circuit.elements[1].nodes(), vec!["k", "b"]);
    assert_eq!(circuit.subcircuit_definitions.len(), 2);
}

#[test]
fn numbering_of_unknowns() {
    let circuit = parse_circuit_description("V1 a 0 1\nR1 a b 2\nC1 b 0 1u G2").unwrap();
    assert_eq!(*circuit.index_map.get("I(V1)").unwrap(), 0);
    assert_eq!(*circuit.index_map.get("V(a)").unwrap(), 1);
    assert_eq!(*circuit.index_map.get("V(b)").unwrap(), 2);
    assert_eq!(*circuit.index_map.get("I(C1)").unwrap(), 3);
    assert_eq!(circuit.index_map.len(), 4);
    assert_eq!(circuit.nodes, vec!["a", "0", "b"]);
}

#[test]
fn netlist_errors() {
    assert!(matches!(
        parse_circuit_description("R1 1 0 1\nbogus line\n"),
        Err(Error::ParseError { line: 2, .. })
    ));
    assert!(matches!(
        parse_circuit_description("x1 a b missing"),
        Err(Error::InvalidFormat(_))
    ));
    assert!(matches!(
        parse_circuit_description("x1 a nodef\n.subckt nodef p q\nr1 p q 1\n.ends"),
        Err(Error::InvalidFormat(_))
    ));
    assert!(matches!(
        parse_circuit_description(".subckt s p\nnot an element\n.ends\nR1 1 0 1"),
        Err(Error::InvalidFormat(_))
    ));
    assert!(matches!(
        parse_circuit_description("* only a comment\n.end\n"),
        Err(Error::EmptyNetlist)
    ));
    assert!(matches!(
        parse_circuit_description("R1 1 0 1\n.model broken\n"),
        Err(Error::ParseError { line: 2, .. })
    ));
}

#[test]
fn bounded_reading_reports_cycles() {
    let netlist = "x1 a b loop\n.subckt loop p q\nx2 p q loop\n.ends";
    assert!(parse_circuit_description_within(netlist, 50).is_none());
    let fine = parse_circuit_description_within("R1 1 0 1", 1).unwrap().unwrap();
    assert_eq!(fine.elements.len(), 1);
}

#[test]
fn element_dispatch() {
    let resistor = parse_element("R1 a b 1k extra").unwrap();
    assert!(resistor.nodes() == vec!["a", "b"]);
    assert!(!resistor.is_g2());
    assert!(!resistor.is_nonlinear());
    let source = parse_element("I3 x y 2").unwrap();
    assert!(source.is_g2());
    let diode = parse_element("D2 p n").unwrap();
    assert!(diode.is_nonlinear());
    assert!(!diode.is_g2());
    assert_eq!(diode.identifier(), "D2");
    let bjt = parse_element("QN1 c b e").unwrap();
    assert_eq!(bjt.nodes(), vec!["c", "e", "b"]);
    let instance = parse_element("x7 a b c def").unwrap();
    assert_eq!(instance.identifier(), "X7");
    assert!(matches!(parse_element("Z1 a b 1"), Err(Error::Unexpected(_))));
}

#[test]
fn renaming_and_node_references() {
    let mut element = parse_element("R1 a b 1").unwrap();
    element.set_name("load");
    assert_eq!(element.name(), "load");
    for node in element.nodes_mut() {
        node.push('x');
    }
    assert_eq!(element.nodes(), vec!["ax", "bx"]);

    let mut diode = parse_element("D5 a b").unwrap();
    diode.set_name("top_5");
    assert_eq!(diode.name(), "5");
    diode.set_name("12");
    assert_eq!(diode.name(), "12");
}

#[test]
fn instance_card_and_mapping() {
    let (rest, instance) = parse_subckt_instance("Xamp in out vcc opamp").unwrap();
    assert_eq!(rest, "");
    assert_eq!(instance.instance_name, "amp");
    assert_eq!(instance.definition_name, "opamp");
    assert_eq!(instance.nodes, vec!["in", "out", "vcc"]);
    assert!(parse_subckt_instance("Xamp").is_err());

    let mut ports: NameMap<String> = NameMap::new();
    ports.insert(String::from("p"), String::from("net1"));
    let element = parse_element("R2 p q 5").unwrap();
    let mapped = map_sub_element(&element, &ports, "X9").unwrap();
    assert_eq!(mapped.name(), "X9_2");
    assert_eq!(mapped.nodes(), vec!["net1", "q"]);
}

#[test]
fn instantiate_and_definitions() {
    let defs = parse_subcircuits(".subckt half a b\nr1 a m 1\nr2 m b 1\n.ends").unwrap();
    assert_eq!(defs.len(), 1);
    let instance = SubcircuitInstance::new("h", "half", vec!["x", "y"]);
    let elements = instance.instantiate(&defs).unwrap();
    assert_eq!(elements.len(), 2);
    assert_eq!(elements[0].nodes(), vec!["x", "m"]);
    assert_eq!(elements[1].nodes(), vec!["m", "y"]);
    let wrong = SubcircuitInstance::new("h", "half", vec!["x"]);
    assert!(matches!(wrong.instantiate(&defs), Err(Error::InvalidFormat(_))));

    let def = SubcircuitDefinition::new("d", vec!["p"]);
    assert_eq!(def.pins, vec!["p"]);
    assert!(def.elements.is_empty());
    let sub = Subcircuit::new("s", vec!["a", "b"]);
    assert_eq!(sub.name, "s");
    assert_eq!(sub.pins, vec!["a", "b"]);
}
