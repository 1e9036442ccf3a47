use configwatch::sources::file::{
    config_from_json, config_from_toml, json_to_config_value, parse_text, ConfigFormat, FileSource,
    JsonNumber, JsonValue, ParsedDocument, TomlValue,
};
use configwatch::watcher::{FileWatcher, FileWatcherSource};
use configwatch::{ConfigError, ConfigMap, ConfigValue};
use std::hash::{Hash, Hasher};
use std::path::{Path, PathBuf};

fn json(v: serde_json::Value) -> JsonValue {
    match v {
        serde_json::Value::Null => JsonValue::Null,
        serde_json::Value::Bool(b) => JsonValue::Bool(b),
        serde_json::Value::Number(n) => JsonValue::Number(JsonNumber {
            as_i64: n.as_i64(),
            f64_bits: n.as_f64().map(f64::to_bits),
        }),
        serde_json::Value::String(s) => JsonValue::String(s),
        serde_json::Value::Array(a) => JsonValue::Array(a.into_iter().map(json).collect()),
        serde_json::Value::Object(m) => {
            JsonValue::Object(m.into_iter().map(|(k, v)| (k, json(v))).collect())
        }
    }
}

fn toml_value(v: toml::Value) -> TomlValue {
    match v {
        toml::Value::String(s) => TomlValue::String(s),
        toml::Value::Integer(i) => TomlValue::Integer(i),
        toml::Value::Float(f) => TomlValue::Float(f.to_bits()),
        toml::Value::Boolean(b) => TomlValue::Boolean(b),
        toml::Value::Datetime(dt) => TomlValue::Datetime(dt.to_string()),
        toml::Value::Array(a) => TomlValue::Array(a.into_iter().map(toml_value).collect()),
        toml::Value::Table(t) => {
            TomlValue::Table(t.into_iter().map(|(k, v)| (k, toml_value(v))).collect())
        }
    }
}

fn parse_json(text: &str) -> ParsedDocument {
    parse_text(ConfigFormat::Json, text)
}

fn read_file_source(path: &str, text: &str) -> Result<ConfigMap, ConfigError> {
    let mut source = FileSource::new(PathBuf::from(path));
    source.read_text(text, None)
}

fn read_watcher_source(path: &str, text: &str) -> Result<ConfigMap, ConfigError> {
    let mut source = FileWatcherSource::new("test", PathBuf::from(path));
    source.read_text(text, None)
}

#[test]
fn test_read_json() {
    let text = r#"{
            "database": {
                "host": "localhost",
                "port": 5432
            },
            "debug": true,
            "name": "myapp"
        }
"#;
    let values = read_file_source("/tmp/config.json", text).unwrap();

    assert_eq!(values.get("name").and_then(|v| v.as_str()), Some("myapp"));
    assert_eq!(values.get("debug").and_then(|v| v.as_bool()), Some(true));
}

#[test]
fn test_read_toml() {
    let text = r#"
name = "myapp"
debug = true

[database]
host = "localhost"
port = 5432

"#;
    let values = read_file_source("/tmp/config.toml", text).unwrap();

    assert_eq!(values.get("name").and_then(|v| v.as_str()), Some("myapp"));
    assert_eq!(values.get("debug").and_then(|v| v.as_bool()), Some(true));
}

#[test]
fn test_unsupported_format() {
    assert!(read_file_source("/tmp/config.yaml", "key: value\n").is_err());
}

#[test]
fn test_json_parsing() {
    let text = "{\"name\": \"test\", \"port\": 8080, \"debug\": true}\n";
    let values = read_watcher_source("/tmp/.tmpAb12Cd", text).unwrap();

    assert_eq!(values.get("name").and_then(|v| v.as_str()), Some("test"));
    assert_eq!(values.get("port").and_then(|v| v.as_i64()), Some(8080));
    assert_eq!(values.get("debug").and_then(|v| v.as_bool()), Some(true));
}

#[test]
fn test_toml_parsing() {
    let text = "name = \"test\"\nport = 8080\ndebug = true\n";
    let values = read_watcher_source("/tmp/.tmpXy34Zw.toml", text).unwrap();

    assert_eq!(values.get("name").and_then(|v| v.as_str()), Some("test"));
    assert_eq!(values.get("port").and_then(|v| v.as_i64()), Some(8080));
    assert_eq!(values.get("debug").and_then(|v| v.as_bool()), Some(true));
}

#[test]
fn format_errors_carry_their_messages() {
    match FileSource::new(PathBuf::from("/etc/app.yaml")).format() {
        Err(ConfigError::Parse(m)) => assert_eq!(m, "Unsupported file format: .yaml"),
        other => panic!("{:?}", other),
    }
    match FileSource::new(PathBuf::from("/etc/.hidden")).format() {
        Err(ConfigError::Parse(m)) => assert_eq!(m, "Could not determine file format from extension"),
        other => panic!("{:?}", other),
    }
    match FileSource::new(PathBuf::from("/etc/Makefile")).format() {
        Err(ConfigError::Parse(m)) => assert_eq!(m, "Could not determine file format from extension"),
        other => panic!("{:?}", other),
    }
    match FileWatcherSource::new("w", PathBuf::from("/etc/app.ini")).format() {
        Err(ConfigError::Parse(m)) => assert_eq!(m, "Unsupported file format: ini"),
        other => panic!("{:?}", other),
    }
    assert_eq!(FileSource::new(PathBuf::from("a/b.c.json")).format().unwrap(), ConfigFormat::Json);
    assert_eq!(FileSource::new(PathBuf::from("b.toml/")).format().unwrap(), ConfigFormat::Toml);
    assert!(FileSource::new(PathBuf::from("b.JSON")).format().is_err());
}

#[test]
fn extension_agrees_with_std() {
    for p in ["a.json", ".json", "a.", "..", "dir/.x.toml", "x", "/", "a.b/c", "a/.", "archive.tar.gz"] {
        let std_ext = Path::new(p).extension().and_then(|e| e.to_str());
        let ours = FileSource::new(PathBuf::from(p)).format();
        match std_ext {
            Some("json") => assert_eq!(ours.unwrap(), ConfigFormat::Json),
            Some("toml") => assert_eq!(ours.unwrap(), ConfigFormat::Toml),
            Some(e) => match ours {
                Err(ConfigError::Parse(m)) => assert_eq!(m, format!("Unsupported file format: .{}", e)),
                other => panic!("{}: {:?}", p, other),
            },
            None => match ours {
                Err(ConfigError::Parse(m)) => {
                    assert_eq!(m, "Could not determine file format from extension")
                }
                other => panic!("{}: {:?}", p, other),
            },
        }
    }
}

#[test]
fn source_names() {
    assert_eq!(FileSource::new(PathBuf::from("/etc/app.toml")).name(), "app.toml");
    assert_eq!(FileSource::new(PathBuf::from("/")).name(), "file");
    assert_eq!(FileWatcherSource::new("mine", PathBuf::from("/x.json")).name(), "mine");
    assert_eq!(FileSource::new(PathBuf::from("/etc/app.toml")).path(), Path::new("/etc/app.toml"));
}

#[test]
fn parse_error_message_is_the_parsers() {
    let err = serde_json::from_str::<serde_json::Value>("{").unwrap_err().to_string();
    match read_file_source("c.json", "{") {
        Err(ConfigError::Parse(m)) => assert_eq!(m, err),
        other => panic!("{:?}", other),
    }
    assert!(read_file_source("c.toml", "= =").is_err());
}

#[test]
fn json_numbers_and_nesting() {
    let doc = json(serde_json::from_str(r#"{"i": -3, "f": 2.5, "big": 18446744073709551615, "a": [1, null, "s"], "o": {"k": false}}"#).unwrap());
    let values = config_from_json(&doc);
    assert_eq!(values.get("i"), Some(&ConfigValue::Integer(-3)));
    assert_eq!(values.get("f"), Some(&ConfigValue::Float(2.5f64.to_bits())));
    assert_eq!(values.get("big"), Some(&ConfigValue::Float(18446744073709551615.0f64.to_bits())));
    assert_eq!(
        values.get("a"),
        Some(&ConfigValue::Array(vec![ConfigValue::Integer(1), ConfigValue::Null, ConfigValue::from("s")]))
    );
    let mut inner = ConfigMap::new();
    inner.insert("k".to_string(), ConfigValue::Boolean(false));
    assert_eq!(values.get("o"), Some(&ConfigValue::Table(inner)));
    let unknown = JsonValue::Number(JsonNumber { as_i64: None, f64_bits: None });
    assert_eq!(json_to_config_value(&unknown), ConfigValue::Null);
}

#[test]
fn non_object_documents_give_nothing() {
    assert_eq!(config_from_json(&json(serde_json::from_str("[1, 2]").unwrap())).len(), 0);
    assert_eq!(config_from_json(&JsonValue::String("x".to_string())).len(), 0);
    assert_eq!(config_from_toml(&TomlValue::Integer(3)).len(), 0);
}

#[test]
fn toml_values() {
    let doc = toml_value(toml::from_str("when = 1979-05-27T07:32:00Z\nratio = 0.5\nlist = [1, 2]\n[t]\nx = 'y'\n").unwrap());
    let values = config_from_toml(&doc);
    assert_eq!(values.get("when").and_then(|v| v.as_str()), Some("1979-05-27T07:32:00Z"));
    assert_eq!(values.get("ratio"), Some(&ConfigValue::Float(0.5f64.to_bits())));
    assert_eq!(values.get("list"), Some(&ConfigValue::Array(vec![ConfigValue::Integer(1), ConfigValue::Integer(2)])));
    let mut inner = ConfigMap::new();
    inner.insert("x".to_string(), ConfigValue::from("y"));
    assert_eq!(values.get("t"), Some(&ConfigValue::Table(inner)));
}

#[test]
fn modification_time_checks() {
    let mut source = FileSource::new(PathBuf::from("c.json"));
    assert!(!source.check_modified(None));
    assert!(!source.check_modified(Some(100)));
    assert!(!source.check_modified(Some(100)));
    assert!(!source.check_modified(Some(50)));
    assert!(source.check_modified(Some(150)));
    assert!(!source.check_modified(Some(120)));
    assert!(!source.check_modified(None));
    assert!(source.check_modified(Some(151)));

    let mut watched = FileWatcherSource::new("w", PathBuf::from("c.json"));
    assert!(!watched.has_changed(Some(-5)));
    assert!(watched.has_changed(Some(0)));
}

#[test]
fn content_hash_changes_with_content() {
    let mut watcher = FileWatcher::new(PathBuf::from("c.json"));
    let first = watcher.record_content_hash(b"a = 1");
    let again = watcher.record_content_hash(b"a = 1");
    assert_eq!(first, again);
    let mut elsewhere = FileWatcher::new(PathBuf::from("d.json"));
    assert_eq!(elsewhere.record_content_hash(b"a = 1"), first);
    let other = watcher.record_content_hash(b"a = 2");
    assert_ne!(first, other);
    assert_eq!(watcher.path(), Path::new("c.json"));
}

#[test]
fn change_after_read_is_reported() {
    let mut source = FileSource::new(PathBuf::from("c.json"));
    let doc = parse_json("{\"a\": 1}");
    assert!(source.read_document(&doc, Some(100)).is_ok());
    assert!(source.check_modified(Some(200)));
    assert!(!source.check_modified(Some(200)));

    let mut unchanged = FileSource::new(PathBuf::from("c.json"));
    assert!(unchanged.read_document(&doc, Some(100)).is_ok());
    assert!(!unchanged.check_modified(Some(100)));

    let mut failed = FileSource::new(PathBuf::from("c.json"));
    assert!(failed.read_document(&parse_json("{"), Some(100)).is_err());
    assert!(!failed.check_modified(Some(200)));

    let mut watched = FileWatcherSource::new("w", PathBuf::from("c.json"));
    assert!(watched.read_document(&doc, Some(100)).is_ok());
    assert!(watched.has_changed(Some(150)));
}

#[test]
fn content_hash_is_the_hash_of_the_byte_slice() {
    let content: &[u8] = b"name = \"app\"\n";
    let mut hasher = std::collections::hash_map::DefaultHasher::new();
    content.hash(&mut hasher);
    let mut watcher = FileWatcher::new(PathBuf::from("c.toml"));
    assert_eq!(watcher.record_content_hash(content), hasher.finish());
}

#[test]
fn read_text_errors() {
    match read_file_source("c.ini", "a = 1") {
        Err(ConfigError::Parse(m)) => assert_eq!(m, "Unsupported file format: .ini"),
        other => panic!("{:?}", other),
    }
    match read_file_source("config", "{}") {
        Err(ConfigError::Parse(m)) => assert_eq!(m, "Could not determine file format from extension"),
        other => panic!("{:?}", other),
    }
    match read_watcher_source("c.ini", "a = 1") {
        Err(ConfigError::Parse(m)) => assert_eq!(m, "Unsupported file format: ini"),
        other => panic!("{:?}", other),
    }
    let err = toml::from_str::<toml::Value>("= =").unwrap_err().to_string();
    match read_watcher_source("c.toml", "= =") {
        Err(ConfigError::Parse(m)) => assert_eq!(m, err),
        other => panic!("{:?}", other),
    }
}

#[test]
fn read_text_records_the_read() {
    let mut source = FileSource::new(PathBuf::from("c.toml"));
    assert!(!source.check_modified(Some(10)));
    assert!(source.check_modified(Some(20)));
    let values = source.read_text("a = 1\n", Some(30)).unwrap();
    assert_eq!(values.get("a"), Some(&ConfigValue::Integer(1)));
    assert!(!source.check_modified(Some(30)));
    assert!(source.check_modified(Some(31)));
    assert_eq!(source.path(), Path::new("c.toml"));
    assert_eq!(source.name(), "c.toml");

    let mut watched = FileWatcherSource::new("w", PathBuf::from("dir/settings"));
    let values = watched.read_text("{\"a\": [true]}", Some(5)).unwrap();
    assert_eq!(values.get("a"), Some(&ConfigValue::Array(vec![ConfigValue::Boolean(true)])));
    assert!(!watched.has_changed(Some(5)));
    assert!(watched.has_changed(Some(6)));
    assert_eq!(watched.path(), Path::new("dir/settings"));
}
