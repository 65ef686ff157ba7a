use krets::name_map::NameMap;
use krets::parser::parse_circuit_description;
use krets::stamp::{
    admittance_stamp, incidence_stamp, injection_stamp, position_of, push_entry,
    transistor_stamp, unknowns, Unknowns,
};

#[test]
fn admittance_between_two_unknowns() {
    let entries = admittance_stamp(Some(0), Some(2), 0.5, -0.5);
    assert_eq!(entries, vec![(0, 0, 0.5), (2, 2, 0.5), (0, 2, -0.5), (2, 0, -0.5)]);
}

#[test]
fn admittance_to_ground_keeps_one_diagonal() {
    assert_eq!(admittance_stamp(Some(3), None, 2.0, -2.0), vec![(3, 3, 2.0)]);
    assert_eq!(admittance_stamp(None, Some(1), 2.0, -2.0), vec![(1, 1, 2.0)]);
    assert!(admittance_stamp::<f64>(None, None, 2.0, -2.0).is_empty());
}

#[test]
fn incidence_of_a_branch() {
    let u = Unknowns { plus: Some(0), minus: Some(1), current: Some(2) };
    assert_eq!(
        incidence_stamp(u, 1, -1),
        vec![(0, 2, 1), (2, 0, 1), (1, 2, -1), (2, 1, -1)]
    );
    let grounded = Unknowns { plus: Some(0), minus: None, current: Some(2) };
    assert_eq!(incidence_stamp(grounded, 1, -1), vec![(0, 2, 1), (2, 0, 1)]);
    let no_current = Unknowns { plus: Some(0), minus: Some(1), current: None };
    assert!(incidence_stamp(no_current, 1, -1).is_empty());
}

#[test]
fn injection_into_the_right_hand_side() {
    assert_eq!(injection_stamp(Some(4), Some(1), -3, 3), vec![(4, 0, -3), (1, 0, 3)]);
    assert_eq!(injection_stamp(None, Some(1), -3, 3), vec![(1, 0, 3)]);
}

#[test]
fn transistor_entries() {
    let entries = transistor_stamp(Some(0), Some(1), Some(2), 10, 13, -13, 3);
    assert_eq!(
        entries,
        vec![(0, 0, 10), (1, 1, 13), (0, 1, -13), (1, 0, 13), (1, 2, 3), (0, 2, 3)]
    );
    let grounded_source = transistor_stamp(Some(0), None, Some(2), 10, 13, -13, 3);
    assert_eq!(grounded_source, vec![(0, 0, 10), (0, 2, 3)]);
}

#[test]
fn push_entry_needs_both_unknowns() {
    let mut entries = vec![(9, 9, 1.0)];
    push_entry(&mut entries, Some(1), None, 5.0);
    push_entry(&mut entries, None, Some(1), 5.0);
    assert_eq!(entries, vec![(9, 9, 1.0)]);
    push_entry(&mut entries, Some(1), Some(0), 5.0);
    assert_eq!(entries, vec![(9, 9, 1.0), (1, 0, 5.0)]);
}

#[test]
fn positions_by_name() {
    let mut index_map = NameMap::new();
    index_map.insert("V(a)".to_string(), 0usize);
    index_map.insert("I(V1)".to_string(), 1usize);
    assert_eq!(position_of(&index_map, "V(a)"), Some(0));
    assert_eq!(position_of(&index_map, "a"), None);
    let u = unknowns(&index_map, "a", "0", "V1");
    assert_eq!(u, Unknowns { plus: Some(0), minus: None, current: Some(1) });
}

#[test]
fn unknowns_of_a_parsed_circuit() {
    let circuit = parse_circuit_description("V1 1 0 5\nR1 1 2 1k\nR2 2 0 1k\n").unwrap();
    let source = unknowns(&circuit.index_map, "1", "0", "V1");
    let top = unknowns(&circuit.index_map, "1", "2", "R1");
    let size = circuit.index_map.len();
    assert_eq!(size, 3);
    assert_eq!(source.minus, None);
    assert!(source.current.is_some());
    assert!(top.current.is_none());
    assert_eq!(source.plus, top.plus);
    for position in [source.plus, source.current, top.plus, top.minus].into_iter().flatten() {
        assert!(position < size);
    }
    let entries = admittance_stamp(top.plus, top.minus, 1e-3, -1e-3);
    assert_eq!(entries.len(), 4);
}

#[test]
fn positions_are_below_the_number_of_unknowns() {
    let circuit = parse_circuit_description(
        "V1 1 0 5\nR1 1 2 1k\nC1 2 3 1u G2\nL1 3 0 1m\nI1 0 3 1m\n",
    )
    .unwrap();
    let size = circuit.index_map.len();
    let mut seen = vec![false; size];
    for i in 0..size {
        let (_, &position) = circuit.index_map.entry(i);
        assert!(position < size);
        assert!(!seen[position]);
        seen[position] = true;
    }
}

#[test]
fn a_repeated_source_name_leaves_a_gap() {
    let circuit = parse_circuit_description("V1 1 0 1\nV1 2 0 1\nR1 2 0 1\n").unwrap();
    let size = circuit.index_map.len();
    assert_eq!(size, 3);
    assert_eq!(position_of(&circuit.index_map, "V(2)"), Some(3));
}
