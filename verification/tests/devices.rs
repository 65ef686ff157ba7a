use krets::elements::bjt::{BjtType, BJT};
use krets::elements::diode::{parse_diode, Diode};
use krets::elements::mosfet::{MosfetType, MOSFET};
use krets::elements::nmosfet::NMOSFET;
use krets::elements::voltage_source::VoltageSource;
use krets::error::Error;
use krets::number::Number;

fn value(n: &Number) -> f64 {
    let base: f64 = n.literal.parse().unwrap();
    let multiplier = match n.power_of_ten {
        -15 => 1e-15,
        -12 => 1e-12,
        -9 => 1e-9,
        -6 => 1e-6,
        -3 => 1e-3,
        0 => 1.0,
        3 => 1e3,
        6 => 1e6,
        9 => 1e9,
        12 => 1e12,
        p => 10f64.powi(p),
    };
    base * multiplier
}

fn count(n: &Option<Number>) -> Option<usize> {
    n.as_ref().map(|x| value(x) as usize)
}

// Voltage sources

#[test]
fn test_parse_voltage_source() {
    let s = "V1 1 0 5";
    let vs = s.parse::<VoltageSource>().unwrap();

    assert_eq!(vs.name, "1");
    assert_eq!(vs.plus, "1");
    assert_eq!(vs.minus, "0");
    assert_eq!(value(&vs.dc_value), 5.0);
    assert_eq!(value(&vs.ac_amplitude), 0.0);
}

#[test]
fn test_different_node_names() {
    let s = "V10 out_ in_3 10";
    let vs = s.parse::<VoltageSource>().unwrap();

    assert_eq!(vs.name, "10");
    assert_eq!(vs.plus, "out_");
    assert_eq!(vs.minus, "in_3");
    assert_eq!(value(&vs.dc_value), 10.0);
    assert_eq!(value(&vs.ac_amplitude), 0.0);
}

#[test]
fn test_parse_with_ac() {
    let s = "V2 3 4 0 AC 1.5";
    let vs = s.parse::<VoltageSource>().unwrap();

    assert_eq!(vs.name, "2");
    assert_eq!(value(&vs.dc_value), 0.0);
    assert_eq!(value(&vs.ac_amplitude), 1.5);
}

#[test]
fn test_parse_case_insensitive() {
    let s = "v3 5 6 12 ac 10";
    let vs = s.parse::<VoltageSource>().unwrap();
    assert_eq!(vs.name, "3");
    assert_eq!(value(&vs.ac_amplitude), 10.0);
}

#[test]
fn voltage_source_test_parse_with_comment() {
    let s = "V1 1 0 5 % DC value";
    let vs = s.parse::<VoltageSource>().unwrap();
    assert_eq!(value(&vs.dc_value), 5.0);
}

#[test]
fn test_invalid_format_too_many_parts() {
    assert!("V1 1 0 5 6".parse::<VoltageSource>().is_err());
}

#[test]
fn test_parse_pulse() {
    let s = "V1 in 0 dc 0 PULSE(0 5 1u 100u 100u 5u 10u)";
    let vs = s.parse::<VoltageSource>().unwrap();
    let epsilon = 1e-9;

    assert_eq!(value(&vs.dc_value), 0.0);
    assert!(vs.pulse.is_some());
    let pulse = vs.pulse.unwrap();
    assert!((value(&pulse.initial_value) - 0.0).abs() < epsilon);
    assert!((value(&pulse.pulsed_value) - 5.0).abs() < epsilon);
    assert!((value(&pulse.delay_time) - 1e-6).abs() < epsilon);
    assert!((value(&pulse.rise_time) - 100e-6).abs() < epsilon);
    assert!((value(&pulse.fall_time) - 100e-6).abs() < epsilon);
    assert!((value(&pulse.pulse_width) - 5e-6).abs() < epsilon);
    assert!((value(&pulse.period) - 10e-6).abs() < epsilon);
}

#[test]
fn test_parse_sinusoidal() {
    let s = "V1 in 0 SIN(0 1 1k 1m 0.1 90)";
    let vs = s.parse::<VoltageSource>().unwrap();
    let epsilon = 1e-9;

    assert_eq!(value(&vs.dc_value), 0.0);
    assert!(vs.sinusoidal.is_some());
    let sin = vs.sinusoidal.unwrap();
    assert!((value(&sin.offset) - 0.0).abs() < epsilon);
    assert!((value(&sin.amplitude) - 1.0).abs() < epsilon);
    assert!((value(&sin.frequency) - 1000.0).abs() < epsilon);
    assert!((value(&sin.delay) - 1e-3).abs() < epsilon);
    assert!((value(&sin.damping) - 0.1).abs() < epsilon);
    assert!((value(&sin.phase) - 90.0).abs() < epsilon);
}

#[test]
fn voltage_source_nodes_and_identifier() {
    let vs = "V7 a b 3".parse::<VoltageSource>().unwrap();
    assert_eq!(vs.nodes(), vec!["a", "b"]);
    assert_eq!(vs.identifier(), "V7");
}

// Diodes

#[test]
fn diode_test_parse_diode() {
    let diode_str = "D1 1 0";
    let diode = diode_str.parse::<Diode>().unwrap();

    assert_eq!(diode.name, 1);
    assert_eq!(diode.plus, "1");
    assert_eq!(diode.minus, "0");
    assert_eq!(diode.model_name, "default");
}

#[test]
fn test_parse_diode_with_model() {
    let diode_str = "D1 1 0 1N4148";
    let diode = diode_str.parse::<Diode>().unwrap();

    assert_eq!(diode.name, 1);
    assert_eq!(diode.plus, "1");
    assert_eq!(diode.minus, "0");
    assert_eq!(diode.model_name, "1N4148");
}

#[test]
fn test_parse_diode_lowercase() {
    let diode_str = "d5 nodeA nodeB MyModel";
    let diode = diode_str.parse::<Diode>().unwrap();

    assert_eq!(diode.name, 5);
    assert_eq!(diode.plus, "nodeA");
    assert_eq!(diode.minus, "nodeB");
    assert_eq!(diode.model_name, "MyModel");
}

#[test]
fn test_parse_diode_with_comment() {
    let diode_str = "D1 1 0 % This is a comment";
    let diode = diode_str.parse::<Diode>().unwrap();

    assert_eq!(diode.name, 1);
    assert_eq!(diode.plus, "1");
    assert_eq!(diode.minus, "0");
    assert_eq!(diode.model_name, "default");
}

#[test]
fn test_parse_diode_with_model_and_comment() {
    let diode_str = "D1 1 0 DMOD % This is a comment";
    let diode = diode_str.parse::<Diode>().unwrap();

    assert_eq!(diode.name, 1);
    assert_eq!(diode.plus, "1");
    assert_eq!(diode.minus, "0");
    assert_eq!(diode.model_name, "DMOD");
}

#[test]
fn test_parse_diode_with_star_comment() {
    let diode_str = "D2 out 0 Special * With star comment";
    let diode = diode_str.parse::<Diode>().unwrap();
    assert_eq!(diode.name, 2);
    assert_eq!(diode.model_name, "Special");
}

#[test]
fn test_invalid_diode_format_missing_node() {
    let diode_str = "D1 1";
    let result = diode_str.parse::<Diode>();
    assert!(result.is_err());
}

#[test]
fn test_invalid_diode_format_extra_token() {
    let diode_str = "D1 1 0 MyModel Extra";
    let result = diode_str.parse::<Diode>();
    assert!(result.is_err());
}

#[test]
fn test_invalid_diode_name_char() {
    let diode_str = "D! 1 0";
    let result = diode_str.parse::<Diode>();
    assert!(result.is_err());
}

#[test]
fn test_invalid_diode_name_zero() {
    let diode_str = "D0 1 0";
    let result = diode_str.parse::<Diode>();
    assert!(result.is_err());
}

#[test]
fn diode_test_invalid_prefix() {
    let s = "R1 1 0 1N4148";
    let result = s.parse::<Diode>();
    assert!(result.is_err());
}

#[test]
fn diode_defaults_and_parameters() {
    let mut diode = "D3 a b".parse::<Diode>().unwrap();
    assert_eq!(diode.identifier(), "D3");
    assert_eq!(value(&diode.options.saturation_current), 1e-12);
    assert_eq!(value(&diode.options.parasitic_resistance), 0.0);
    assert_eq!(value(&diode.options.emission_coefficient), 1.0);
    let key = String::from("Rs");
    let v = Number { literal: String::from("2.5"), power_of_ten: 0 };
    assert!(diode.apply_model_parameter((&key, &v)).is_ok());
    assert_eq!(value(&diode.options.parasitic_resistance), 2.5);
    let bad = String::from("bv");
    assert!(matches!(
        diode.apply_model_parameter((&bad, &v)),
        Err(Error::InvalidModelParameter(_))
    ));
    assert_eq!(value(&diode.options.saturation_current), 1e-12);
}

#[test]
fn diode_name_overflow_is_refused() {
    assert!(parse_diode("D4294967296 1 0").is_err());
    let (_, diode) = parse_diode("D4294967295 1 0").unwrap();
    assert_eq!(diode.name, 4294967295);
}

// Bipolar transistors

#[test]
fn test_parse_npn_bjt_with_value() {
    let bjt_str = "QN1 1 2 0 0.7";
    let bjt = bjt_str.parse::<BJT>().unwrap();

    assert_eq!(bjt.name, "1");
    assert_eq!(bjt.collector, "1");
    assert_eq!(bjt.base, "2");
    assert_eq!(bjt.emitter, "0");
    assert_eq!(bjt.value.as_ref().map(value), Some(0.7));
    assert_eq!(bjt.bjt_type, BjtType::NPN);
    assert_eq!(bjt.identifier(), "Q1");
}

#[test]
fn test_parse_pnp_bjt_with_value() {
    let bjt_str = "QP1 4 5 6 0.8";
    let bjt = bjt_str.parse::<BJT>().unwrap();

    assert_eq!(bjt.name, "1");
    assert_eq!(bjt.collector, "4");
    assert_eq!(bjt.base, "5");
    assert_eq!(bjt.emitter, "6");
    assert_eq!(bjt.value.as_ref().map(value), Some(0.8));
    assert_eq!(bjt.bjt_type, BjtType::PNP);
    assert_eq!(bjt.identifier(), "Q1");
}

#[test]
fn test_parse_bjt_without_value() {
    let bjt_str = "qN2 C B E";
    let bjt = bjt_str.parse::<BJT>().unwrap();

    assert_eq!(bjt.name, "2");
    assert_eq!(bjt.collector, "C");
    assert_eq!(bjt.base, "B");
    assert_eq!(bjt.emitter, "E");
    assert!(bjt.value.is_none());
    assert_eq!(bjt.bjt_type, BjtType::NPN);
    assert_eq!(bjt.identifier(), "Q2");
}

#[test]
fn bjt_test_parse_with_comment() {
    let s = "Qp10 coll base emit * My PNP";
    let bjt = s.parse::<BJT>().unwrap();
    assert_eq!(bjt.name, "10");
    assert_eq!(bjt.bjt_type, BjtType::PNP);
    assert!(bjt.value.is_none());
}

#[test]
fn test_invalid_bjt_format_parts() {
    let bjt_str = "QN1 1 2";
    let result = bjt_str.parse::<BJT>();
    assert!(result.is_err());
}

#[test]
fn test_invalid_bjt_format_extra_parts() {
    let bjt_str = "QN1 1 2 0 0.7 Extra";
    let result = bjt_str.parse::<BJT>();
    assert!(result.is_err());
}

#[test]
fn test_invalid_bjt_type() {
    let bjt_str = "QX1 1 2 3";
    let result = bjt_str.parse::<BJT>();
    assert!(result.is_err());
}

#[test]
fn test_malformed_identifier_no_type_or_name() {
    let bjt_str = "Q 1 2 3";
    let result = bjt_str.parse::<BJT>();
    assert!(result.is_err());
}

#[test]
fn test_malformed_identifier_no_name() {
    let bjt_str = "QN 1 2 3";
    let result = bjt_str.parse::<BJT>();
    assert!(result.is_err());
}

#[test]
fn bjt_test_invalid_prefix() {
    let s = "R1 1 2 3 100";
    let result = s.parse::<BJT>();
    assert!(result.is_err());
}

// MOSFETs

#[test]
fn mosfet_test_parse_nchannel_mosfet() {
    let mosfet_str = "MN1 D G S B MyNmosModel";
    let mosfet = mosfet_str.parse::<MOSFET>().unwrap();

    assert_eq!(mosfet.name, 1);
    assert_eq!(mosfet.drain, "D");
    assert_eq!(mosfet.gate, "G");
    assert_eq!(mosfet.source, "S");
    assert_eq!(mosfet.bulk, "B");
    assert_eq!(mosfet.model_name, "MyNmosModel");
    assert_eq!(mosfet.mosfet_type, MosfetType::NChannel);
}

#[test]
fn test_parse_pchannel_mosfet_case_insensitive() {
    let mosfet_str = "mp5 4 5 6 0 PModel";
    let mosfet = mosfet_str.parse::<MOSFET>().unwrap();

    assert_eq!(mosfet.name, 5);
    assert_eq!(mosfet.drain, "4");
    assert_eq!(mosfet.gate, "5");
    assert_eq!(mosfet.source, "6");
    assert_eq!(mosfet.bulk, "0");
    assert_eq!(mosfet.model_name, "PModel");
    assert_eq!(mosfet.mosfet_type, MosfetType::PChannel);
}

#[test]
fn mosfet_test_parse_with_comment() {
    let s = "MP3 1 2 3 0 P_FET % My P-Channel FET";
    let mosfet = s.parse::<MOSFET>().unwrap();
    assert_eq!(mosfet.name, 3);
    assert_eq!(mosfet.mosfet_type, MosfetType::PChannel);
    assert_eq!(mosfet.model_name, "P_FET");
    assert_eq!(mosfet.bulk, "0");
    assert_eq!(count(&mosfet.multiplicity), None);
}

#[test]
fn mosfet_test_invalid_mosfet_format_missing_bulk() {
    let mosfet_str = "MN1 1 2 3 MyModel";
    let result = mosfet_str.parse::<MOSFET>();
    assert!(result.is_err());
}

#[test]
fn mosfet_test_invalid_mosfet_format_missing_model() {
    let mosfet_str = "MN1 1 2 3 0";
    let result = mosfet_str.parse::<MOSFET>();
    assert!(result.is_err());
}

#[test]
fn mosfet_test_invalid_mosfet_format_too_few_nodes() {
    let mosfet_str = "MN1 1 2 MyModel";
    let result = mosfet_str.parse::<MOSFET>();
    assert!(result.is_err());
}

#[test]
fn mosfet_test_invalid_type_char() {
    let s = "MX1 1 2 3 0 MyModel";
    let result = s.parse::<MOSFET>();
    assert!(result.is_err());
}

#[test]
fn test_invalid_name_not_numeric() {
    let s = "MNA 1 2 3 0 MyModel";
    let result = s.parse::<MOSFET>();
    assert!(result.is_err());
}

#[test]
fn mosfet_test_invalid_prefix() {
    let s = "R1 1 2 3 0 MyModel";
    let result = s.parse::<MOSFET>();
    assert!(result.is_err());
}

#[test]
fn test_invalid_mosfet_name_zero() {
    let mosfet_str = "MN0 1 2 3 0 MyModel";
    let result = mosfet_str.parse::<MOSFET>();
    assert!(result.is_err());
}

#[test]
fn mosfet_test_parse_mosfet_with_optional_value_removed() {
    let mosfet_str = "MN2 7 8 9 0 N_Model 1.5";
    let result = mosfet_str.parse::<MOSFET>();
    assert!(result.is_err());
}

#[test]
fn mosfet_test_parse_mosfet_with_multiplicity() {
    let mosfet_str = "MN2 7 8 9 0 N_Model         m=3    ";
    let mosfet = mosfet_str.parse::<MOSFET>().unwrap();
    assert_eq!(count(&mosfet.multiplicity), Some(3))
}

#[test]
fn nmosfet_test_parse_nchannel_mosfet() {
    let mosfet_str = "MN1 D G S B MyNmosModel % bla";
    let mosfet = mosfet_str.parse::<NMOSFET>().unwrap();

    assert_eq!(mosfet.name, "1");
    assert_eq!(mosfet.drain, "D");
    assert_eq!(mosfet.gate, "G");
    assert_eq!(mosfet.source, "S");
    assert_eq!(mosfet.bulk, "B");
    assert_eq!(mosfet.model_name, "MyNmosModel");
}

#[test]
fn nmosfet_test_invalid_mosfet_format_missing_bulk() {
    let mosfet_str = "MN1 1 2 3 MyModel";
    let result = mosfet_str.parse::<NMOSFET>();
    assert!(result.is_err());
}

#[test]
fn nmosfet_test_invalid_mosfet_format_missing_model() {
    let mosfet_str = "MN1 1 2 3 0";
    let result = mosfet_str.parse::<NMOSFET>();
    assert!(result.is_err());
}

#[test]
fn nmosfet_test_invalid_mosfet_format_too_few_nodes() {
    let mosfet_str = "MN1 1 2 MyModel";
    let result = mosfet_str.parse::<NMOSFET>();
    assert!(result.is_err());
}

#[test]
fn nmosfet_test_invalid_type_char() {
    let s = "MX1 1 2 3 0 MyModel";
    let result = s.parse::<NMOSFET>();
    assert!(result.is_err());
}

#[test]
fn nmosfet_test_invalid_prefix() {
    let s = "R1 1 2 3 0 MyModel";
    let result = s.parse::<NMOSFET>();
    assert!(result.is_err());
}

#[test]
fn nmosfet_test_parse_mosfet_with_optional_value_removed() {
    let mosfet_str = "MN2 7 8 9 0 N_Model 1.5";
    let result = mosfet_str.parse::<NMOSFET>();
    assert!(result.is_err());
}

#[test]
fn nmosfet_test_parse_mosfet_with_multiplicity() {
    let mosfet_str = "MN2 7 8 9 0 N_Model         m=3    ";
    let mosfet = mosfet_str.parse::<NMOSFET>().unwrap();
    assert_eq!(count(&mosfet.multiplicity), Some(3))
}

#[test]
fn nmosfet_last_parameter_wins() {
    let mosfet = "mn7 d g s b mod W=2u M=2 w=5u L=1u".parse::<NMOSFET>().unwrap();
    assert_eq!(mosfet.identifier(), "M7");
    assert_eq!(count(&mosfet.multiplicity), Some(2));
    assert_eq!(mosfet.width.as_ref().unwrap().literal, "5");
    assert_eq!(mosfet.width.as_ref().unwrap().power_of_ten, -6);
    assert_eq!(mosfet.length.as_ref().unwrap().literal, "1");
    assert_eq!(mosfet.model.name, "default");
}
