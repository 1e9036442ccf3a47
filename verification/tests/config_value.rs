use configwatch::{ConfigMap, ConfigValue};

#[test]
fn test_config_value_conversions() {
    let val = ConfigValue::from("hello");
    assert_eq!(val.as_str(), Some("hello"));

    let val = ConfigValue::from(42i64);
    assert_eq!(val.as_i64(), Some(42));

    let val = ConfigValue::from(true);
    assert_eq!(val.as_bool(), Some(true));

    let val = ConfigValue::Null;
    assert!(val.is_null());
}

#[test]
fn accessors_give_none_for_other_kinds() {
    let val = ConfigValue::from(String::from("7"));
    assert_eq!(val.as_i64(), None);
    assert_eq!(val.as_bool(), None);
    assert!(!val.is_null());
    let val = ConfigValue::Integer(7);
    assert_eq!(val.as_str(), None);
    assert_eq!(ConfigValue::Null.as_bool(), None);
}

#[test]
fn map_get_after_insert() {
    let mut m = ConfigMap::new();
    assert_eq!(m.len(), 0);
    m.insert("a".to_string(), ConfigValue::Integer(1));
    m.insert("b".to_string(), ConfigValue::from("x"));
    m.insert("a".to_string(), ConfigValue::Integer(2));
    assert_eq!(m.len(), 2);
    assert_eq!(m.get("a").and_then(|v| v.as_i64()), Some(2));
    assert_eq!(m.get("b").and_then(|v| v.as_str()), Some("x"));
    assert!(m.get("c").is_none());
}

#[test]
fn map_merge_prefers_right() {
    let mut left = ConfigMap::new();
    left.insert("a".to_string(), ConfigValue::Integer(1));
    left.insert("b".to_string(), ConfigValue::Integer(2));
    let mut right = ConfigMap::new();
    right.insert("b".to_string(), ConfigValue::Integer(20));
    right.insert("c".to_string(), ConfigValue::Integer(30));
    left.merge(&right);
    assert_eq!(left.len(), 3);
    assert_eq!(left.get("a").and_then(|v| v.as_i64()), Some(1));
    assert_eq!(left.get("b").and_then(|v| v.as_i64()), Some(20));
    assert_eq!(left.get("c").and_then(|v| v.as_i64()), Some(30));
}

#[test]
fn map_equality_ignores_order() {
    let mut x = ConfigMap::new();
    x.insert("a".to_string(), ConfigValue::Integer(1));
    x.insert("b".to_string(), ConfigValue::Boolean(true));
    let mut y = ConfigMap::new();
    y.insert("b".to_string(), ConfigValue::Boolean(true));
    y.insert("a".to_string(), ConfigValue::Integer(1));
    assert_eq!(x, y);
    y.insert("a".to_string(), ConfigValue::Integer(3));
    assert_ne!(x, y);
    let mut z = x.clone();
    assert_eq!(x, z);
    z.insert("c".to_string(), ConfigValue::Null);
    assert_ne!(x, z);
    assert_ne!(z, x);
}

#[test]
fn float_equality_is_ieee() {
    let nan = ConfigValue::Float(f64::NAN.to_bits());
    assert_ne!(nan, nan.clone());
    let zero = ConfigValue::Float(0.0f64.to_bits());
    let negative_zero = ConfigValue::Float((-0.0f64).to_bits());
    assert_eq!(zero, negative_zero);
    assert_ne!(ConfigValue::Float(1.5f64.to_bits()), ConfigValue::Float(2.5f64.to_bits()));
    assert_ne!(ConfigValue::Float(1.0f64.to_bits()), ConfigValue::Integer(1));
}

#[test]
fn nested_values_compare_deeply() {
    let mut inner = ConfigMap::new();
    inner.insert("host".to_string(), ConfigValue::from("localhost"));
    let a = ConfigValue::Array(vec![ConfigValue::Table(inner.clone()), ConfigValue::Integer(5)]);
    let b = a.clone();
    assert_eq!(a, b);
    let mut other = ConfigMap::new();
    other.insert("host".to_string(), ConfigValue::from("remote"));
    let c = ConfigValue::Array(vec![ConfigValue::Table(other), ConfigValue::Integer(5)]);
    assert_ne!(a, c);
    let d = ConfigValue::Array(vec![ConfigValue::Table(inner)]);
    assert_ne!(a, d);
}
