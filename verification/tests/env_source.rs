use configwatch::sources::env::{EnvSource, EnvVar};
use configwatch::ConfigValue;

fn float_bits(s: &str) -> Option<u64> {
    s.parse::<f64>().ok().map(f64::to_bits)
}

fn var(name: &str, value: &str) -> EnvVar {
    EnvVar { name: name.to_string(), value: value.to_string(), float_bits: float_bits(value) }
}

fn parse(s: &str) -> ConfigValue {
    EnvSource::parse_value(s, float_bits(s))
}

#[test]
fn test_env_key_parsing() {
    let source = EnvSource::new("TESTAPP");

    assert_eq!(source.env_key_to_config_key("TESTAPP_HOST"), Some("host".to_string()));
    assert_eq!(source.env_key_to_config_key("TESTAPP_PORT"), Some("port".to_string()));
    assert_eq!(source.env_key_to_config_key("OTHER_VAR"), None);
}

#[test]
fn test_value_parsing() {
    assert_eq!(parse("true"), ConfigValue::Boolean(true));
    assert_eq!(parse("false"), ConfigValue::Boolean(false));
    assert_eq!(parse("42"), ConfigValue::Integer(42));
    assert_eq!(parse("3.14"), ConfigValue::Float(3.14f64.to_bits()));
    assert_eq!(parse("hello"), ConfigValue::String("hello".to_string()));
}

#[test]
fn test_read_env_vars() {
    let vars = vec![
        var("CONFIGWATCH_TEST_VALUE", "42"),
        var("CONFIGWATCH_TEST_NAME", "test"),
        var("PATH", "/usr/bin"),
    ];

    let mut source = EnvSource::new("CONFIGWATCH");
    let values = source.read_from(&vars);

    assert_eq!(values.get("test_value").and_then(|v| v.as_i64()), Some(42));
    assert_eq!(values.get("test_name").and_then(|v| v.as_str()), Some("test"));
    assert_eq!(values.len(), 2);
}

#[test]
fn test_custom_separator() {
    let vars = vec![var("MYAPP__DB__HOST", "localhost")];

    let mut source = EnvSource::new("MYAPP").with_separator("__");
    let values = source.read_from(&vars);

    assert_eq!(values.get("db__host").and_then(|v| v.as_str()), Some("localhost"));
}

#[test]
fn key_needs_the_separator_after_the_prefix() {
    let source = EnvSource::new("APP");
    assert_eq!(source.env_key_to_config_key("APPHOST"), None);
    assert_eq!(source.env_key_to_config_key("APP_"), Some(String::new()));
    assert_eq!(source.env_key_to_config_key("APP_Db_Host"), Some("db_host".to_string()));
    assert_eq!(source.prefix(), "APP");
    assert_eq!(source.name(), "env");
}

#[test]
fn value_kinds() {
    assert_eq!(parse("TRUE"), ConfigValue::Boolean(true));
    assert_eq!(parse("False"), ConfigValue::Boolean(false));
    assert_eq!(parse("-17"), ConfigValue::Integer(-17));
    assert_eq!(parse("1e3"), ConfigValue::Float(1000.0f64.to_bits()));
    assert_eq!(parse("99999999999999999999"), ConfigValue::Float(1e20f64.to_bits()));
    assert_eq!(parse("yes"), ConfigValue::String("yes".to_string()));
    assert_eq!(parse(""), ConfigValue::String(String::new()));
}

#[test]
fn change_is_reported_only_since_the_last_read() {
    let mut source = EnvSource::new("APP");
    let first = vec![var("APP_A", "1")];
    assert!(source.has_changed(&first));
    assert!(!source.has_changed(&first));
    let values = source.read_from(&first);
    assert_eq!(values.len(), 1);
    assert!(!source.has_changed(&first));
    let none = vec![];
    assert!(source.read_from(&none).len() == 0);
    assert!(!source.has_changed(&none));
    assert!(source.has_changed(&first));
}

#[test]
fn no_change_after_a_read_of_the_same_environment() {
    let mut source = EnvSource::new("MYAPP");
    let vars = vec![var("MYAPP_HOST", "a")];
    source.read_from(&vars);
    assert!(!source.has_changed(&vars));
    assert!(!source.has_changed(&vars));
    let changed = vec![var("MYAPP_HOST", "b")];
    assert!(source.has_changed(&changed));
}

#[test]
fn unchanged_environment_reports_no_change() {
    let mut source = EnvSource::new("APP");
    let vars = vec![var("OTHER", "1")];
    assert!(!source.has_changed(&vars));
    let vars = vec![var("APP_X", "a"), var("APP_Y", "b")];
    let reordered = vec![var("APP_Y", "b"), var("APP_X", "a")];
    let mut fresh = EnvSource::new("APP");
    fresh.read_from(&vars);
    let mut second = EnvSource::new("APP");
    second.read_from(&reordered);
    assert_eq!(fresh.read_from(&reordered), second.read_from(&vars));
}

#[test]
fn later_variable_with_the_same_key_wins() {
    let vars = vec![var("APP_Host", "a"), var("APP_HOST", "b")];
    let mut source = EnvSource::new("APP");
    let values = source.read_from(&vars);
    assert_eq!(values.len(), 1);
    assert_eq!(values.get("host").and_then(|v| v.as_str()), Some("b"));
}
