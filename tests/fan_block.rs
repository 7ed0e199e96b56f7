use fan_sensors::fan::FanConfig;
use std::collections::BTreeMap;
use fan_sensors::reading::{is_fan_metric_name, is_listed, Sample};
use fan_sensors::sensors::read_samples;
use fan_sensors::template::push_decimal;
use fan_sensors::{
    aggregate, parse_reading, select_readings, Fan, FanError, FormatError, FormatTemplate,
    OutputError, Values,
};

fn config(format: &str, inputs: Option<Vec<&str>>) -> FanConfig {
    FanConfig {
        interval: FanConfig::default_interval(),
        format: format.to_string(),
        chip: FanConfig::default_chip(),
        inputs: inputs.map(|v| v.into_iter().map(|s| s.to_string()).collect()),
        color_overrides: FanConfig::default_color_overrides(),
    }
}

fn fan(format: &str, inputs: Option<Vec<&str>>) -> Fan {
    Fan::new(config(format, inputs), "fan-0".to_string()).unwrap()
}

fn sample(input: &str, metric: &str, number: &str) -> Sample {
    Sample { input: input.to_string(), metric: metric.to_string(), number: number.to_string() }
}

#[test]
fn two_fans_default_format() {
    let mut f = fan(&FanConfig::default_format(), None);
    let out = r#"{"nct6775-isa-0290":{"fan1":{"fan1_input":1200.000,"fan1_min":0.000},"fan2":{"fan2_input":1400.000,"fan2_alarm":0.000}}}"#;
    let mut diags = Vec::new();
    assert_eq!(f.update(out, &mut diags), Ok(15));
    assert_eq!(f.view(), "1300RPM");
    assert!(diags.is_empty());
    let v = aggregate(&vec![1200, 1400]);
    assert_eq!(v, Values { min: 1200, max: 1400, average: 1300 });
}

#[test]
fn range_bounds() {
    assert_eq!(parse_reading("10000"), None);
    assert_eq!(parse_reading("10000.0"), None);
    assert_eq!(parse_reading("9999.999"), Some(9999));
    assert_eq!(parse_reading("0"), Some(0));
    assert_eq!(parse_reading("0.0"), Some(0));
    let mut f = fan("{min}/{max}", None);
    let out = r#"{"c":{"fan1":{"fan1_input":0.0},"fan2":{"fan2_input":10000.0}}}"#;
    let mut diags = Vec::new();
    assert_eq!(f.update(out, &mut diags), Ok(15));
    assert_eq!(f.view(), "0/0");
    assert_eq!(diags, vec!["10000.0".to_string()]);
}

#[test]
fn whitelist_keeps_listed_inputs() {
    let mut f = fan("{min}-{max}", Some(vec!["fan1"]));
    let out = r#"{"c":{"fan1":{"fan1_input":800.0},"fan2":{"fan2_input":2000.0}}}"#;
    let mut diags = Vec::new();
    assert_eq!(f.update(out, &mut diags), Ok(15));
    assert_eq!(f.view(), "800-800");
}

#[test]
fn non_numeric_input_is_skipped() {
    let mut f = fan("{average}", None);
    let out = r#"{"c":{"Adapter":"ISA adapter","fan1":{"fan1_input":700.0},"fan2":{"label":"rear","fan2_input":5000.0}}}"#;
    let mut diags = Vec::new();
    assert_eq!(f.update(out, &mut diags), Ok(15));
    assert_eq!(f.view(), "700");
}

#[test]
fn empty_cycle_keeps_text() {
    let mut f = fan("{average}RPM", None);
    let mut diags = Vec::new();
    f.update(r#"{"c":{"fan1":{"fan1_input":900.0}}}"#, &mut diags).unwrap();
    assert_eq!(f.view(), "900RPM");
    assert_eq!(f.update(r#"{"c":{"fan1":{"fan1_min":100.0,"fan1_input":-3.0}}}"#, &mut diags), Ok(15));
    assert_eq!(f.view(), "900RPM");
    assert_eq!(diags, vec!["-3.0".to_string()]);
    assert_eq!(f.update(r#"{}"#, &mut diags), Ok(15));
    assert_eq!(f.view(), "900RPM");
}

#[test]
fn average_rounds_half_away_from_zero() {
    assert_eq!(aggregate(&vec![100, 101]).average, 101);
    assert_eq!(aggregate(&vec![1, 2, 3, 4]).average, 3);
    assert_eq!(aggregate(&vec![1, 1, 2]).average, 1);
    assert_eq!(aggregate(&vec![7]), Values { min: 7, max: 7, average: 7 });
    let v = aggregate(&vec![u64::MAX, u64::MAX]);
    assert_eq!(v.average, u64::MAX);
}

#[test]
fn malformed_output_fails_cycle() {
    let mut f = fan("{average}", None);
    let mut diags = Vec::new();
    f.update(r#"{"c":{"fan1":{"fan1_input":1000.0}}}"#, &mut diags).unwrap();
    let err = f.update("No sensors found!", &mut diags);
    assert_eq!(err, Err(FanError::Parse(OutputError::Malformed)));
    assert_eq!(f.view(), "1000");
    assert_eq!(f.update(r#"{"c":[1,2]}"#, &mut diags), Err(FanError::Parse(OutputError::Malformed)));
    assert_eq!(f.update("", &mut diags), Err(FanError::Parse(OutputError::Malformed)));
    assert!(read_samples("[]").is_err());
}

#[test]
fn template_renders_all_placeholders() {
    let t = FormatTemplate::from_string("{min}-{max} ({average})").unwrap();
    assert_eq!(t.render(Values { min: 100, max: 200, average: 150 }), "100-200 (150)");
    let plain = FormatTemplate::from_string("fans").unwrap();
    assert_eq!(plain.render(Values { min: 1, max: 2, average: 3 }), "fans");
    let empty = FormatTemplate::from_string("").unwrap();
    assert_eq!(empty.render(Values { min: 1, max: 2, average: 3 }), "");
}

#[test]
fn template_rejects_bad_formats() {
    assert_eq!(FormatTemplate::from_string("{speed}").err(), Some(FormatError { position: 0 }));
    assert_eq!(FormatTemplate::from_string("ab{min").err(), Some(FormatError { position: 2 }));
    assert_eq!(FormatTemplate::from_string("a}").err(), Some(FormatError { position: 1 }));
    assert!(FormatTemplate::from_string("{{min}}").is_err());
    let bad = Fan::new(config("{avg}", None), "x".to_string());
    assert!(matches!(bad, Err(FanError::Config(_))));
}

#[test]
fn decimal_text() {
    let mut s = String::from("n=");
    push_decimal(&mut s, 0);
    assert_eq!(s, "n=0");
    let mut s = String::new();
    push_decimal(&mut s, 18446744073709551615);
    assert_eq!(s, "18446744073709551615");
}

#[test]
fn number_texts() {
    assert_eq!(parse_reading("1200.000"), Some(1200));
    assert_eq!(parse_reading("12.7"), Some(12));
    assert_eq!(parse_reading("-0.0"), Some(0));
    assert_eq!(parse_reading("-0"), Some(0));
    assert_eq!(parse_reading("-5.0"), None);
    assert_eq!(parse_reading("-0.5"), None);
    assert_eq!(parse_reading("1e3"), None);
    assert_eq!(parse_reading("1."), None);
    assert_eq!(parse_reading(".5"), None);
    assert_eq!(parse_reading(""), None);
    assert_eq!(parse_reading("99999999999999999999999"), None);
}

#[test]
fn metric_names() {
    assert!(is_fan_metric_name("fan1_input"));
    assert!(is_fan_metric_name("faninput"));
    assert!(!is_fan_metric_name("fan1_min"));
    assert!(!is_fan_metric_name("temp1_input"));
    assert!(!is_fan_metric_name("fan"));
    let names = vec!["fan1".to_string(), "fan3".to_string()];
    assert!(is_listed(&names, &"fan3".to_string()));
    assert!(!is_listed(&names, &"fan2".to_string()));
}

#[test]
fn selection_keeps_order() {
    let samples = vec![
        sample("fan1", "fan1_input", "300.0"),
        sample("fan1", "fan1_max", "99999.0"),
        sample("fan2", "fan2_input", "12000.0"),
        sample("fan3", "fan3_input", "200.5"),
    ];
    let (r, bad) = select_readings(&samples, &None);
    assert_eq!(r, vec![300, 200]);
    assert_eq!(bad, vec!["12000.0".to_string()]);
    let (r, bad) = select_readings(&samples, &Some(vec!["fan3".to_string()]));
    assert_eq!(r, vec![200]);
    assert!(bad.is_empty());
    let (r, _) = select_readings(&samples, &Some(vec![]));
    assert!(r.is_empty());
}

#[test]
fn apply_samples_renders_and_reports() {
    let mut f = fan("{min}..{max}~{average}", None);
    let mut diags = vec!["earlier".to_string()];
    let samples = vec![sample("a", "fan1_input", "100"), sample("b", "fan2_input", "-1")];
    assert_eq!(f.apply_samples(&samples, &mut diags), 15);
    assert_eq!(f.view(), "100..100~100");
    assert_eq!(diags, vec!["earlier".to_string(), "-1".to_string()]);
}

#[test]
fn query_arguments_and_defaults() {
    let f = fan("{average}", None);
    assert_eq!(f.sensors_args(), vec!["-j".to_string()]);
    assert_eq!(f.id(), "fan-0");
    let mut c = config("{average}", None);
    c.chip = Some("nct6775-isa-0290".to_string());
    let g = Fan::new(c, "g".to_string()).unwrap();
    assert_eq!(g.sensors_args(), vec!["-j".to_string(), "nct6775-isa-0290".to_string()]);
    assert_eq!(FanConfig::default_format(), "{average}RPM");
    assert_eq!(FanConfig::default_interval(), 15);
    assert!(FanConfig::default_inputs().is_none());
    assert!(f.view().is_empty());
}

#[test]
fn color_overrides_are_kept() {
    let mut c = config("{average}", None);
    let mut colors = BTreeMap::new();
    colors.insert("idle_bg".to_string(), "#000000".to_string());
    c.color_overrides = Some(colors.clone());
    let mut f = Fan::new(c, "c".to_string()).unwrap();
    assert_eq!(f.color_overrides(), &Some(colors.clone()));
    let mut diags = Vec::new();
    f.update(r#"{"c":{"fan1":{"fan1_input":10.0}}}"#, &mut diags).unwrap();
    assert_eq!(f.color_overrides(), &Some(colors));
    assert!(fan("{min}", None).color_overrides().is_none());
}

#[test]
fn samples_from_output() {
    let out = r#"{"a":{"fan1":{"fan1_input":1200.000,"fan1_min":0.0},"Adapter":"ISA"},"b":{"fan9":{"fan9_input":3},"x":{"label":"y","fan1_input":1.0}}}"#;
    let mut got: Vec<(String, String, String)> = read_samples(out)
        .unwrap()
        .into_iter()
        .map(|s| (s.input, s.metric, s.number))
        .collect();
    got.sort();
    let want = vec![
        ("fan1".to_string(), "fan1_input".to_string(), "1200.0".to_string()),
        ("fan1".to_string(), "fan1_min".to_string(), "0.0".to_string()),
        ("fan9".to_string(), "fan9_input".to_string(), "3".to_string()),
    ];
    assert_eq!(got, want);
    assert_eq!(read_samples("{}").unwrap().len(), 0);
    assert_eq!(read_samples(r#"{"c":5}"#).err(), Some(OutputError::Malformed));
}
