use configwatch::{ConfigError, ConfigMap, ConfigState, ConfigValue};
use std::time::Instant;

fn map(pairs: &[(&str, i64)]) -> ConfigMap {
    let mut m = ConfigMap::new();
    for (k, v) in pairs {
        m.insert(k.to_string(), ConfigValue::Integer(*v));
    }
    m
}

#[test]
fn start_reads_every_source_into_the_configuration() {
    let mut one = ConfigMap::new();
    one.insert("key1".to_string(), ConfigValue::from("value1"));
    let mut state = ConfigState::new();
    state.load(&vec![Ok(one)]);

    let config = state.get_config();
    assert_eq!(config.get("key1").and_then(|v| v.as_str()), Some("value1"));
    assert_eq!(state.get("key1"), Some(ConfigValue::from("value1")));
    assert_eq!(state.get("missing"), None);
}

#[test]
fn later_sources_override_and_failures_are_passed_over() {
    let mut state = ConfigState::new();
    state.load(&vec![
        Ok(map(&[("a", 1), ("b", 1)])),
        Err(ConfigError::Parse("bad".to_string())),
        Ok(map(&[("b", 2)])),
    ]);
    assert_eq!(state.get("a"), Some(ConfigValue::Integer(1)));
    assert_eq!(state.get("b"), Some(ConfigValue::Integer(2)));

    state.load(&vec![Ok(map(&[("c", 3)]))]);
    assert_eq!(state.get("a"), Some(ConfigValue::Integer(1)));
    assert_eq!(state.get("c"), Some(ConfigValue::Integer(3)));
}

#[test]
fn refresh_replaces_the_configuration() {
    let mut state = ConfigState::new();
    state.load(&vec![Ok(map(&[("old", 1)]))]);
    state.refresh(&vec![Ok(map(&[("new", 2)])), Err(ConfigError::ChannelClosed)]);
    assert_eq!(state.get("old"), None);
    assert_eq!(state.get("new"), Some(ConfigValue::Integer(2)));
    assert_eq!(state.get_config().len(), 1);
}

#[test]
fn change_updates_and_notifies() {
    let mut state = ConfigState::new();
    state.load(&vec![Ok(map(&[("a", 1), ("b", 1)]))]);
    let now = Instant::now();
    let update = state.apply_change("env", map(&[("b", 5)]), now);
    assert_eq!(update.source, "env");
    assert_eq!(update.values, map(&[("b", 5)]));
    assert_eq!(update.timestamp, now);
    assert_eq!(state.get("a"), Some(ConfigValue::Integer(1)));
    assert_eq!(state.get("b"), Some(ConfigValue::Integer(5)));
    let copy = update.clone();
    assert_eq!(copy.values, update.values);
    state.apply_change("env", map(&[("b", 5)]), now);
    assert_eq!(state.get_config(), map(&[("a", 1), ("b", 5)]));
}
