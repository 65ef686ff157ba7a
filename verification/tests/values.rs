use krets::elements::resistor::Resistor;
use krets::models::parse_key_value;
use krets::name_map::NameMap;
use krets::number::{parse_uppercase_value, parse_value, Number};
use krets::syntax::{alphanumeric_or_underscore1, value_parser, ParseFailure};

fn value(n: &Number) -> f64 {
    let base: f64 = n.literal.parse().unwrap();
    let multiplier = match n.power_of_ten {
        -15 => 1e-15,
        -12 => 1e-12,
        -9 => 1e-9,
        -6 => 1e-6,
        -3 => 1e-3,
        0 => 1.0,
        3 => 1e3,
        6 => 1e6,
        9 => 1e9,
        12 => 1e12,
        p => 10f64.powi(p),
    };
    base * multiplier
}

#[test]
fn test_value_parser() {
    let epsilon = 1e-15;
    assert!((value(&parse_value("1.5k").unwrap()) - 1500.0).abs() < epsilon);
    assert!((value(&parse_value("10u").unwrap()) - 10e-6).abs() < epsilon);
    assert!((value(&parse_value("22n").unwrap()) - 22e-9).abs() < epsilon);
    assert!((value(&parse_value("1.2p").unwrap()) - 1.2e-12).abs() < epsilon);
    assert!((value(&parse_value("3MEG").unwrap()) - 3e6).abs() < epsilon);
    assert!((value(&parse_value("100").unwrap()) - 100.0).abs() < epsilon);

    assert!((value(&parse_value("1e-6").unwrap()) - 1e-6).abs() < epsilon);
    assert!((value(&parse_value("1.23E-9").unwrap()) - 1.23e-9).abs() < epsilon);

    assert!(parse_value("1.5x").is_err());
    assert!(parse_value("garbage").is_err());
}

#[test]
fn suffixes_scale_exactly() {
    for (suffix, power) in [
        ("f", -15),
        ("p", -12),
        ("n", -9),
        ("u", -6),
        ("m", -3),
        ("k", 3),
        ("g", 9),
        ("t", 12),
        ("meg", 6),
        ("MeG", 6),
    ] {
        let text = format!("2.5{}", suffix);
        let n = parse_value(&text).unwrap();
        assert_eq!(n.literal, "2.5");
        assert_eq!(n.power_of_ten, power);
    }
    let plain = parse_value("-7.25e3").unwrap();
    assert_eq!(plain.literal, "-7.25E3");
    assert_eq!(plain.power_of_ten, 0);
    let upper = parse_uppercase_value("4.7K").unwrap();
    assert_eq!(upper.literal, "4.7");
    assert_eq!(upper.power_of_ten, 3);
    assert!(parse_value("").is_err());
    assert!(parse_value("k").is_err());
    assert!(parse_value("1e").is_err());
    assert!(parse_value("inf").is_err());
    assert!(parse_value("nan").is_err());
}

#[test]
fn token_parsers() {
    let (rest, n) = value_parser("12u)").unwrap();
    assert_eq!(rest, ")");
    assert_eq!(n.literal, "12");
    assert_eq!(n.power_of_ten, -6);
    assert_eq!(value_parser(" 1"), Err(ParseFailure::Error));
    assert_eq!(value_parser("abc def"), Err(ParseFailure::Error));

    let (rest, name) = alphanumeric_or_underscore1("node_1 rest").unwrap();
    assert_eq!(name, "node_1");
    assert_eq!(rest, " rest");
    assert_eq!(alphanumeric_or_underscore1("-x"), Err(ParseFailure::Error));

    let (rest, (k, v)) = parse_key_value("W = 2u)").unwrap();
    assert_eq!(rest, ")");
    assert_eq!(k, "W");
    assert_eq!(v.power_of_ten, -6);
    assert!(parse_key_value("W 2u").is_err());
}

#[test]
fn text_after_percent_is_ignored() {
    let plain = "R1 a b 10".parse::<Resistor>().unwrap();
    let commented = "R1 a b 10%R2 c d 20".parse::<Resistor>().unwrap();
    assert_eq!(plain.name, commented.name);
    assert_eq!(plain.value, commented.value);
    assert_eq!(plain.plus, commented.plus);
}

#[test]
fn leading_letter_case_is_ignored() {
    let upper = "R1 a b 10".parse::<Resistor>().unwrap();
    let lower = "r1 a b 10".parse::<Resistor>().unwrap();
    assert_eq!(upper.name, lower.name);
    assert_eq!(upper.value, lower.value);
    assert_eq!(upper.minus, lower.minus);
}

#[test]
fn name_map_reads_back_what_was_written() {
    let mut m: NameMap<u32> = NameMap::new();
    assert!(m.is_empty());
    m.insert(String::from("a"), 1);
    m.insert(String::from("b"), 2);
    m.insert(String::from("a"), 3);
    assert_eq!(m.len(), 2);
    assert_eq!(*m.get("a").unwrap(), 3);
    assert_eq!(*m.get("b").unwrap(), 2);
    assert!(m.get("c").is_none());
    assert!(m.contains_key("b"));
    let (k, v) = m.entry(0);
    assert_eq!(k, "a");
    assert_eq!(*v, 3);
    let copy = m.clone();
    assert_eq!(*copy.get("b").unwrap(), 2);
}
