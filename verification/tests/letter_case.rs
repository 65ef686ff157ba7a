use krets::elements::parse_element;

#[test]
fn the_leading_letter_reads_in_either_case() {
    let cards = [
        ("R1 1 0 1k", "r1 1 0 1k"),
        ("C1 a b 1u G2", "c1 a b 1u G2"),
        ("L1 a b 1m", "l1 a b 1m"),
        ("I1 a b 1m", "i1 a b 1m"),
        ("V1 in 0 DC 5", "v1 in 0 DC 5"),
        ("D1 a b DMOD", "d1 a b DMOD"),
        ("QN1 c b e", "qN1 c b e"),
        ("MN1 d g s b NMOD", "mN1 d g s b NMOD"),
        ("X1 a b DIV", "x1 a b DIV"),
    ];
    for (upper, lower) in cards {
        let x = parse_element(upper);
        let y = parse_element(lower);
        assert!(x.is_ok(), "{upper}");
        assert_eq!(format!("{x:?}"), format!("{y:?}"), "{lower}");
    }
    assert!(parse_element("z1 a b 1").is_err());
}
