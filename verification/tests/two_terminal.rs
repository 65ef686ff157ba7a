use krets::elements::capacitor::Capacitor;
use krets::elements::current_source::CurrentSource;
use krets::elements::inductor::Inductor;
use krets::elements::resistor::{parse_resistor, Resistor};
use krets::number::Number;

fn value(n: &Number) -> f64 {
    let base: f64 = n.literal.parse().unwrap();
    let multiplier = match n.power_of_ten {
        -15 => 1e-15,
        -12 => 1e-12,
        -9 => 1e-9,
        -6 => 1e-6,
        -3 => 1e-3,
        0 => 1.0,
        3 => 1e3,
        6 => 1e6,
        9 => 1e9,
        12 => 1e12,
        p => 10f64.powi(p),
    };
    base * multiplier
}

// Resistors

#[test]
fn test_parse_resistor() {
    let resistor_str = "R1 1 0 1000";
    let resistor = resistor_str.parse::<Resistor>().unwrap();

    assert_eq!(resistor.name, "1");
    assert_eq!(resistor.plus, "1");
    assert_eq!(resistor.minus, "0");
    assert_eq!(value(&resistor.value), 1000.0);
}

#[test]
fn test_parse_resistor_with_comment() {
    let resistor_str = "R1 1 0 1000 % This is a comment";
    let resistor = resistor_str.parse::<Resistor>().unwrap();
    assert_eq!(value(&resistor.value), 1000.0);
}

#[test]
fn resistor_test_parse_lowercase() {
    let s = "r5 2 3 1.5k";
    let _ = s.parse::<Resistor>();
    let s_valid = "r5 2 3 1500";
    assert!(s_valid.parse::<Resistor>().is_ok());
}

#[test]
fn test_invalid_resistor_format() {
    let resistor_str = "R1 1 0";
    let result = resistor_str.parse::<Resistor>();
    assert!(result.is_err());
}

#[test]
fn resistor_test_invalid_prefix() {
    let s = "C1 1 0 1000";
    assert!(s.parse::<Resistor>().is_err());
}

#[test]
fn test_invalid_resistor_name() {
    let resistor_str = "R 1 0 1000";
    let result = resistor_str.parse::<Resistor>();
    assert!(result.is_err());
}

#[test]
fn test_error_on_zero_value() {
    let s = "R1 1 0 0";
    assert!(s.parse::<Resistor>().is_err());
}

#[test]
fn test_invalid_resistor_value() {
    let resistor_str = "R1 1 0 abc";
    let result = resistor_str.parse::<Resistor>();
    assert!(result.is_err());
}

#[test]
fn test_parse_resistor_name_long() {
    let resistor_str = "Rin 1 0 1000";
    let resistor = resistor_str.parse::<Resistor>().unwrap();
    assert_eq!(resistor.name, "in");
}

#[test]
fn resistor_suffix_and_identifier() {
    let resistor = "r5 2 3 1.5k".parse::<Resistor>().unwrap();
    assert_eq!(resistor.value.literal, "1.5");
    assert_eq!(resistor.value.power_of_ten, 3);
    assert_eq!(resistor.identifier(), "R5");
    assert!(!resistor.g2);
}

#[test]
fn resistor_negative_value_is_refused() {
    assert!(matches!(
        "R1 1 0 -5".parse::<Resistor>(),
        Err(krets::error::Error::InvalidFloatValue(_))
    ));
    assert!(matches!(
        "R1 1 0 x".parse::<Resistor>(),
        Err(krets::error::Error::InvalidFormat(_))
    ));
}

#[test]
fn resistor_card_leaves_the_rest() {
    let (rest, resistor) = parse_resistor("R7 a b 2.2meg tail").unwrap();
    assert_eq!(rest, " tail");
    assert_eq!(resistor.name, "7");
    assert_eq!(resistor.value.literal, "2.2");
    assert_eq!(resistor.value.power_of_ten, 6);
    assert!(parse_resistor("X1 a b 1").is_err());
}

#[test]
fn resistor_fields_ignore_extra_blanks() {
    let (rest_a, a) = parse_resistor("R1 a b 5 t").unwrap();
    let (rest_b, b) = parse_resistor("R1  a \t b   5 t").unwrap();
    assert_eq!(a.name, b.name);
    assert_eq!(a.plus, b.plus);
    assert_eq!(a.minus, b.minus);
    assert_eq!(a.value.literal, b.value.literal);
    assert_eq!(a.value.power_of_ten, b.value.power_of_ten);
    assert_eq!(rest_a, rest_b);
    assert_eq!(b.plus, "a");
    assert_eq!(b.minus, "b");
}

// Capacitors

#[test]
fn test_parse_capacitor() {
    let capacitor_str = "C1 1 0 0.000001";
    let capacitor = capacitor_str.parse::<Capacitor>().unwrap();

    assert_eq!(capacitor.name, "1");
    assert_eq!(capacitor.plus, "1");
    assert_eq!(capacitor.minus, "0");
    assert_eq!(value(&capacitor.value), 0.000001);
    assert!(!capacitor.g2);
}

#[test]
fn test_parse_capacitor_with_group() {
    let capacitor_str = "C1 1 0 0.000001 G2";
    let capacitor = capacitor_str.parse::<Capacitor>().unwrap();

    assert_eq!(capacitor.name, "1");
    assert_eq!(capacitor.plus, "1");
    assert_eq!(capacitor.minus, "0");
    assert_eq!(value(&capacitor.value), 0.000001);
    assert!(capacitor.g2);
}

#[test]
fn test_parse_capacitor_with_comment() {
    let capacitor_str = "C1 1 0 0.000001 % This is a comment";
    let capacitor = capacitor_str.parse::<Capacitor>().unwrap();

    assert_eq!(capacitor.name, "1");
    assert_eq!(capacitor.plus, "1");
    assert_eq!(capacitor.minus, "0");
    assert_eq!(value(&capacitor.value), 0.000001);
    assert!(!capacitor.g2);
}

#[test]
fn test_parse_capacitor_with_comment_no_space() {
    let capacitor_str = "C1 1 0 1e-6%This is a comment";
    let capacitor = capacitor_str.parse::<Capacitor>().unwrap();

    assert_eq!(capacitor.name, "1");
    assert_eq!(value(&capacitor.value), 1e-6);
    assert!(!capacitor.g2);
}

#[test]
fn test_parse_capacitor_with_g2_and_comment() {
    let capacitor_str = "c2 3 4 10e-9 G2 % comment";
    let capacitor = capacitor_str.parse::<Capacitor>().unwrap();

    assert_eq!(capacitor.name, "2");
    assert_eq!(value(&capacitor.value), 10e-9);
    assert!(capacitor.g2);
}

#[test]
fn capacitor_test_parse_lowercase() {
    let capacitor_str = "c1 1 0 1e-6 g2";
    let capacitor = capacitor_str.parse::<Capacitor>().unwrap();

    assert_eq!(capacitor.name, "1");
    assert!(capacitor.g2);
}

#[test]
fn test_invalid_capacitor_format() {
    let capacitor_str = "C1 1 0";
    let result = capacitor_str.parse::<Capacitor>();
    assert!(result.is_err());
}

#[test]
fn test_invalid_capacitor_name() {
    let capacitor_str = "C 1 0 0.000001";
    let result = capacitor_str.parse::<Capacitor>();
    assert!(result.is_err());
}

#[test]
fn test_invalid_identifier_prefix() {
    let capacitor_str = "R1 1 0 100";
    let result = capacitor_str.parse::<Capacitor>();
    assert!(result.is_err());
}

#[test]
fn test_invalid_fifth_argument() {
    let capacitor_str = "C1 1 0 1e-6 G3";
    let result = capacitor_str.parse::<Capacitor>();
    assert!(result.is_err());
}

#[test]
fn test_invalid_capacitor_value() {
    let capacitor_str = "C1 1 0 abc";
    let result = capacitor_str.parse::<Capacitor>();
    assert!(result.is_err());
}

#[test]
fn capacitor_identifier() {
    let capacitor = "c9 a b 4.7n".parse::<Capacitor>().unwrap();
    assert_eq!(capacitor.identifier(), "C9");
    assert_eq!(capacitor.value.power_of_ten, -9);
}

// Inductors

#[test]
fn test_parse_inductor() {
    let inductor_str = "L1 1 0 0.001";
    let inductor = inductor_str.parse::<Inductor>().unwrap();

    assert_eq!(inductor.name, "1");
    assert_eq!(inductor.plus, "1");
    assert_eq!(inductor.minus, "0");
    assert_eq!(value(&inductor.value), 0.001);
}

#[test]
fn test_parse_inductor_with_comment() {
    let inductor_str = "L1 1 0 0.001 % This is a comment";
    let inductor = inductor_str.parse::<Inductor>().unwrap();

    assert_eq!(inductor.name, "1");
    assert_eq!(value(&inductor.value), 0.001);
}

#[test]
fn test_parse_lowercase_and_scientific() {
    let s = "l2 vcc out 1e-6";
    let inductor = s.parse::<Inductor>().unwrap();
    assert_eq!(inductor.name, "2");
    assert_eq!(value(&inductor.value), 1e-6);
}

#[test]
fn test_invalid_inductor_format() {
    let inductor_str = "L1 1 0";
    let result = inductor_str.parse::<Inductor>();
    assert!(result.is_err());
}

#[test]
fn test_invalid_inductor_name() {
    let inductor_str = "L 1 0 0.001";
    let result = inductor_str.parse::<Inductor>();
    assert!(result.is_err());
}

#[test]
fn inductor_test_invalid_prefix() {
    let s = "R1 1 0 100";
    let result = s.parse::<Inductor>();
    assert!(result.is_err());
}

#[test]
fn test_invalid_inductor_value() {
    let inductor_str = "L1 1 0 abc";
    let result = inductor_str.parse::<Inductor>();
    assert!(result.is_err());
}

// Current sources

#[test]
fn test_parse_current_source() {
    let current_source_str = "I1 1 0 0.001";
    let current_source = current_source_str.parse::<CurrentSource>().unwrap();

    assert_eq!(current_source.name, "1");
    assert_eq!(current_source.plus, "1");
    assert_eq!(current_source.minus, "0");
    assert_eq!(value(&current_source.value), 0.001);
}

#[test]
fn current_source_test_parse_with_comment() {
    let s = "I2 5 3 1.5 % Amperes";
    let source = s.parse::<CurrentSource>().unwrap();
    assert_eq!(source.name, "2");
    assert_eq!(value(&source.value), 1.5);
}

#[test]
fn test_parse_lowercase_identifier() {
    let s = "i5 vdd gnd 10";
    let source = s.parse::<CurrentSource>().unwrap();
    assert_eq!(source.name, "5");
    assert_eq!(source.plus, "vdd");
}

#[test]
fn test_invalid_current_source_format() {
    let current_source_str = "I1 1 0";
    let result = current_source_str.parse::<CurrentSource>();
    assert!(result.is_err());
}

#[test]
fn test_too_many_parts() {
    let s = "I1 1 0 1.0 G2";
    let result = s.parse::<CurrentSource>();
    assert!(result.is_err());
}

#[test]
fn current_source_test_invalid_prefix() {
    let s = "V1 1 0 1.0";
    let result = s.parse::<CurrentSource>();
    assert!(result.is_err());
}

#[test]
fn test_invalid_current_source_name() {
    let current_source_str = "I 1 0 0.001";
    let result = current_source_str.parse::<CurrentSource>();
    assert!(result.is_err());
}

#[test]
fn test_invalid_current_source_value() {
    let current_source_str = "I1 1 0 abc";
    let result = current_source_str.parse::<CurrentSource>();
    assert!(result.is_err());
}
