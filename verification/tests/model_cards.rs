use krets::model::{Model, ModelType};
use krets::models::{parse_model, Model as DeviceModel};
use krets::number::Number;

fn value(n: &Number) -> f64 {
    let base: f64 = n.literal.parse().unwrap();
    let multiplier = match n.power_of_ten {
        -15 => 1e-15,
        -12 => 1e-12,
        -9 => 1e-9,
        -6 => 1e-6,
        -3 => 1e-3,
        0 => 1.0,
        3 => 1e3,
        6 => 1e6,
        9 => 1e9,
        12 => 1e12,
        p => 10f64.powi(p),
    };
    base * multiplier
}

fn parameter(model: &Model, key: &str) -> f64 {
    value(model.parameters.get(key).unwrap())
}

// `.model` cards of any type

#[test]
fn test_parse_simple_npn_model() {
    let input = ".model MOD1 NPN(BF=50 IS=1e-13 VBF=50)";
    let model = input.parse::<Model>().unwrap();
    assert_eq!(model.name, "MOD1");
    assert_eq!(model.model_type, ModelType::NpnBjt);
    assert_eq!(model.parameters.len(), 3);
    assert_eq!(parameter(&model, "BF"), 50.0);
    assert_eq!(parameter(&model, "IS"), 1e-13);
    assert_eq!(parameter(&model, "VBF"), 50.0);
}

#[test]
fn test_parse_diode_model_lowercase_no_dot() {
    let input = "model DMOD D (is=1e-12 rs=0.1 n=1.1)";
    let model = input.parse::<Model>().unwrap();
    assert_eq!(model.name, "DMOD");
    assert_eq!(model.model_type, ModelType::Diode);
    assert_eq!(model.parameters.len(), 3);
    assert_eq!(parameter(&model, "is"), 1e-12);
    assert_eq!(parameter(&model, "rs"), 0.1);
    assert_eq!(parameter(&model, "n"), 1.1);
}

#[test]
fn test_parse_model_with_comment() {
    let input = ".MODEL QN2N2222 NPN(IS=1E-14 VAF=100 BF=200) % Standard NPN";
    let model = input.parse::<Model>().unwrap();
    assert_eq!(model.name, "QN2N2222");
    assert_eq!(model.model_type, ModelType::NpnBjt);
    assert_eq!(model.parameters.len(), 3);
    assert_eq!(parameter(&model, "BF"), 200.0);
}

#[test]
fn model_test_parse_model_no_parameters() {
    let input = ".model MyDiode D()";
    let model = input.parse::<Model>().unwrap();
    assert_eq!(model.name, "MyDiode");
    assert_eq!(model.model_type, ModelType::Diode);
    assert!(model.parameters.is_empty());
}

#[test]
fn test_parse_model_messy_spacing() {
    let input = "  .model   MOD2   PNP  (  BF = 100   IS =1e-12 )  ";
    let model = input.parse::<Model>().unwrap();
    assert_eq!(model.name, "MOD2");
    assert_eq!(model.model_type, ModelType::PnpBjt);
    assert_eq!(model.parameters.len(), 2);
    assert_eq!(parameter(&model, "BF"), 100.0);
    assert_eq!(parameter(&model, "IS"), 1e-12);
}

#[test]
fn model_test_invalid_model_missing_type() {
    let input = ".model MOD1 (BF=50)";
    assert!(input.parse::<Model>().is_err());
}

#[test]
fn model_test_invalid_model_missing_name() {
    let input = ".model NPN (BF=50)";
    assert!(input.parse::<Model>().is_err());
}

#[test]
fn model_test_invalid_model_bad_parameter_format() {
    let input = ".model MOD1 NPN(BF 50)";
    assert!(input.parse::<Model>().is_err());
}

#[test]
fn model_test_invalid_model_bad_parameter_value() {
    let input = ".model MOD1 NPN(BF=50 IS=abc)";
    assert!(input.parse::<Model>().is_err());
}

#[test]
fn model_test_invalid_model_missing_parentheses() {
    let input = ".model MOD1 NPN BF=50";
    assert!(input.parse::<Model>().is_err());
}

#[test]
fn test_unknown_model_type() {
    let input = ".model MyDevice XYZ (param1=1)";
    let model = input.parse::<Model>().unwrap();
    assert_eq!(model.name, "MyDevice");
    assert_eq!(model.model_type, ModelType::Unknown("XYZ".to_string()));
    assert_eq!(model.parameters.len(), 1);
}

#[test]
fn model_type_keywords_ignore_case() {
    assert_eq!("vdmos".parse::<ModelType>().unwrap(), ModelType::PowerMosfet);
    assert_eq!("Csw".parse::<ModelType>().unwrap(), ModelType::CurrentSwitch);
    assert_eq!("ltra".parse::<ModelType>().unwrap(), ModelType::LossyTransLine);
    assert_eq!("abc".parse::<ModelType>().unwrap(), ModelType::Unknown("abc".to_string()));
}

#[test]
fn model_repeated_parameter_keeps_last_value() {
    let model = ".model M D (IS=1 is=2 IS=3)".parse::<Model>().unwrap();
    assert_eq!(model.parameters.len(), 2);
    assert_eq!(parameter(&model, "IS"), 3.0);
    assert_eq!(parameter(&model, "is"), 2.0);
}

// Device models

#[test]
fn models_test_parse_diode() {
    let input = ".model DMOD D (is=1e-12 rs=0.1 n=1.1)";
    let model = parse_model(input).unwrap();
    match model {
        DeviceModel::Diode(diode_model) => {
            assert_eq!(diode_model.name, "DMOD");
            assert_eq!(value(&diode_model.saturation_current), 1e-12);
            assert_eq!(value(&diode_model.parasitic_resistance), 0.1);
            assert_eq!(value(&diode_model.emission_coefficient), 1.1);
        }
        _ => panic!("Expected Diode model"),
    }
}

#[test]
fn test_parse_nmos() {
    let input = ".model NMOS1 NMOS (kp=120u vto=1.2 lambda=0.02)";
    let model = parse_model(input).unwrap();

    match model {
        DeviceModel::NMosfet(nmos_model) => {
            assert_eq!(nmos_model.name, "NMOS1");
            assert!((value(&nmos_model.process_transconductance) - 120e-6).abs() < 1e-3);
            assert!((value(&nmos_model.voltage_threshold) - 1.2).abs() < 1e-3);
            assert!((value(&nmos_model.channel_length_modulation) - 0.02).abs() < 1e-3);
        }
        _ => panic!("Expected NMOSFET model"),
    }
}

#[test]
fn test_parse_pmos() {
    let input = ".model PMOS1 PMOS (kp=50u vto=-1.0 lambda=0.01)";
    let model = parse_model(input).unwrap();

    match model {
        DeviceModel::PMosfet(pmos_model) => {
            assert_eq!(pmos_model.name, "PMOS1");
            assert!((value(&pmos_model.process_transconductance) - 50e-6).abs() < 1e-3);
            assert!((value(&pmos_model.voltage_threshold) + 1.0).abs() < 1e-3);
            assert!((value(&pmos_model.channel_length_modulation) - 0.01).abs() < 1e-3);
        }
        _ => panic!("Expected PMOSFET model"),
    }
}

#[test]
fn models_test_parse_model_no_parameters() {
    let input = ".model MyDiode D()";
    let model = parse_model(input).unwrap();
    match model {
        DeviceModel::Diode(diode_model) => {
            assert_eq!(diode_model.name, "MyDiode");
        }
        _ => panic!("Expected Diode model"),
    }
}

#[test]
fn models_test_invalid_model_missing_type() {
    let input = ".model MOD1 (BF=50)";
    assert!(parse_model(input).is_err());
}

#[test]
fn models_test_invalid_model_missing_name() {
    let input = ".model NPN (BF=50)";
    assert!(parse_model(input).is_err());
}

#[test]
fn models_test_invalid_model_bad_parameter_format() {
    let input = ".model MOD1 NPN(BF 50)";
    assert!(parse_model(input).is_err());
}

#[test]
fn models_test_invalid_model_bad_parameter_value() {
    let input = ".model MOD1 NPN(BF=50 IS=abc)";
    assert!(parse_model(input).is_err());
}

#[test]
fn models_test_invalid_model_missing_parentheses() {
    let input = ".model MOD1 NPN BF=50";
    assert!(parse_model(input).is_err());
}

#[test]
fn device_model_defaults_and_names() {
    match parse_model(".model Q PMOS ()").unwrap() {
        DeviceModel::PMosfet(m) => {
            assert_eq!(m.name, "Q");
            assert_eq!(value(&m.width), 1e-6);
            assert_eq!(value(&m.length), 1e-6);
            assert_eq!(value(&m.voltage_threshold), 0.0);
            assert_eq!(value(&m.process_transconductance), 2e-5);
            assert_eq!(value(&m.channel_length_modulation), 0.02);
        }
        _ => panic!("Expected PMOSFET model"),
    }
    let m = parse_model(".model DX D (IS=2) % note").unwrap();
    assert_eq!(m.name(), "DX");
}

#[test]
fn model_type_tokens_read_in_any_case() {
    for token in ["npn", "NPN", "Npn", "nPn"] {
        assert_eq!(token.parse::<ModelType>().unwrap(), ModelType::NpnBjt);
    }
    assert_eq!("vdmos".parse::<ModelType>().unwrap(), ModelType::PowerMosfet);
    let lower = ".model q1 npn(bf=50)".parse::<Model>().unwrap();
    assert_eq!(lower.model_type, ModelType::NpnBjt);
}
