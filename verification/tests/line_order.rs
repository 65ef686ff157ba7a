use krets::parser::parse_circuit_description;

#[test]
fn rearranged_lines_give_the_same_unknowns() {
    let a = parse_circuit_description("V1 1 0 5\nR1 1 2 1k\nR2 2 0 1k\nL1 2 3 1m\n").unwrap();
    let b = parse_circuit_description("L1 2 3 1m\nR2 2 0 1k\nR1 1 2 1k\nV1 1 0 5\n").unwrap();
    assert_eq!(a.elements.len(), b.elements.len());
    let mut na = a.nodes.clone();
    let mut nb = b.nodes.clone();
    na.sort();
    nb.sort();
    assert_eq!(na, nb);
    assert_eq!(a.index_map.len(), b.index_map.len());
    for key in ["V(1)", "V(2)", "V(3)", "I(V1)", "I(L1)"] {
        assert!(a.index_map.contains_key(key));
        assert!(b.index_map.contains_key(key));
    }
    assert_eq!(*a.index_map.get("I(V1)").unwrap(), 0);
    assert_eq!(*b.index_map.get("I(L1)").unwrap(), 0);
}

#[test]
fn rearranged_lines_are_refused_alike() {
    assert!(parse_circuit_description("R1 1 0 1\nnot a card\n").is_err());
    assert!(parse_circuit_description("not a card\nR1 1 0 1\n").is_err());
}

#[test]
fn rearranged_lines_with_models_read_alike() {
    let a = parse_circuit_description(
        "D1 1 0 DMOD\nV1 1 0 5\n.model DMOD D (is=1e-9)\nR1 1 0 1k\n.end\n",
    )
    .unwrap();
    let b = parse_circuit_description(
        ".model DMOD D (is=1e-9)\n.end\nR1 1 0 1k\nV1 1 0 5\nD1 1 0 DMOD\n",
    )
    .unwrap();
    assert_eq!(a.elements.len(), 3);
    assert_eq!(b.elements.len(), 3);
    let mut ea: Vec<String> = a.elements.iter().map(|e| format!("{e:?}")).collect();
    let mut eb: Vec<String> = b.elements.iter().map(|e| format!("{e:?}")).collect();
    ea.sort();
    eb.sort();
    assert_eq!(ea, eb);
    assert_eq!(a.models.len(), 1);
    assert_eq!(b.models.len(), 1);
    assert_eq!(a.index_map.len(), b.index_map.len());
    for key in ["V(1)", "I(V1)"] {
        assert!(a.index_map.contains_key(key));
        assert!(b.index_map.contains_key(key));
    }
}

#[test]
fn a_refused_model_card_is_refused_wherever_it_stands() {
    assert!(parse_circuit_description("R1 1 0 1\n.model broken\n").is_err());
    assert!(parse_circuit_description(".model broken\nR1 1 0 1\n").is_err());
}
