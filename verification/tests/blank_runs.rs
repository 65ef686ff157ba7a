use krets::elements::parse_element;
use krets::parser::parse_circuit_description;

fn same_reading(a: &str, b: &str) {
    let x = parse_circuit_description(a);
    let y = parse_circuit_description(b);
    assert_eq!(format!("{x:?}"), format!("{y:?}"));
}

#[test]
fn blank_runs_in_cards_read_as_one() {
    let cards = [
        ("R1 1 0 1k", "R1   1 \t 0\t\t1k"),
        ("C1 a b 1u G2", "C1\ta  b   1u \tG2"),
        ("V1 in 0 DC 5 AC 1", "V1  in\t0   DC \t5  AC\t 1"),
        ("V2 a 0 PULSE(0 1 0 1n 1n 5u 10u)", "V2 a 0 PULSE(0  1\t0 1n  1n 5u   10u)"),
        ("D1 a b DMOD", "D1\t a   b  DMOD"),
        ("QN1 c b e 10", "QN1  c \tb   e  10"),
        ("MN1 d g s b NMOD W=1u L=2u", "MN1 d  g\ts  b NMOD   W=1u \tL=2u"),
        ("X1 a b DIV", "X1   a\t\tb  DIV"),
    ];
    for (single, spread) in cards {
        let x = parse_element(single);
        let y = parse_element(spread);
        assert!(x.is_ok(), "{single}");
        assert_eq!(format!("{x:?}"), format!("{y:?}"), "{spread}");
    }
}

#[test]
fn blank_runs_in_a_netlist_read_as_one() {
    same_reading(
        "V1 in 0 1\nR1 in out 1k\nC1 out 0 1u\n",
        "V1  in\t0 1\nR1 in    out 1k  \n\tC1 out\t\t0 1u\n",
    );
    same_reading(
        ".subckt DIV a b\nR1 a m 1k\nR2 m b 1k\n.ends\nV1 1 0 5\nX1 1 0 DIV\n",
        ".subckt  DIV\ta   b\nR1 a m\t1k\nR2 m  b 1k\n.ends\nV1 1 0\t5\nX1\t1 0 DIV\n",
    );
    same_reading(
        "D1 a 0 DMOD\nV1 a 0 1\n.model DMOD D (is=1e-9)\n",
        "D1 a\t0 DMOD\nV1 a 0 1\n.model  DMOD\tD  ( is=1e-9  )\n",
    );
}

#[test]
fn a_tab_separates_like_a_space() {
    same_reading("R1 1 0 1k\nV1 1 0 1\n", "R1\t1\t0\t1k\nV1\t1\t0\t1\n");
}
