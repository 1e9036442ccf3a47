use configwatch::sources::env::EnvSource;
use configwatch::text::{eq_ignore_ascii_case, parse_i64, starts_with};

#[test]
fn parse_i64_accepts_what_std_accepts() {
    assert_eq!(parse_i64("42"), Some(42));
    assert_eq!(parse_i64("-42"), Some(-42));
    assert_eq!(parse_i64("+7"), Some(7));
    assert_eq!(parse_i64("007"), Some(7));
    assert_eq!(parse_i64("9223372036854775807"), Some(i64::MAX));
    assert_eq!(parse_i64("-9223372036854775808"), Some(i64::MIN));
}

#[test]
fn parse_i64_refuses_what_std_refuses() {
    for s in ["", "-", "+", "9223372036854775808", "-9223372036854775809", "12a", " 1", "1.5", "+-1", "١"] {
        assert_eq!(parse_i64(s), None, "{:?}", s);
        assert!(s.parse::<i64>().is_err());
    }
}

#[test]
fn parse_i64_agrees_with_std() {
    for s in ["0", "-0", "123456789", "99999999999999999999", "-1", "+0012"] {
        assert_eq!(parse_i64(s), s.parse::<i64>().ok(), "{:?}", s);
    }
}

#[test]
fn ascii_case_comparison() {
    assert!(eq_ignore_ascii_case("TRUE", "true"));
    assert!(eq_ignore_ascii_case("tRuE", "TrUe"));
    assert!(!eq_ignore_ascii_case("true ", "true"));
    assert!(!eq_ignore_ascii_case("ÿes", "Ÿes"));
    assert_eq!(eq_ignore_ascii_case("Straße", "STRASSE"), "Straße".eq_ignore_ascii_case("STRASSE"));
}

#[test]
fn prefix_test() {
    assert!(starts_with("MYAPP_HOST", "MYAPP_"));
    assert!(starts_with("abc", ""));
    assert!(!starts_with("MY", "MYAPP"));
    assert!(!starts_with("MYAPQ_HOST", "MYAPP"));
}

#[test]
fn keys_are_lowercased_as_std_does() {
    let source = EnvSource::new("P");
    assert_eq!(source.env_key_to_config_key("P_HeLLo_World"), Some("hello_world".to_string()));
    assert_eq!(source.env_key_to_config_key("P_ÄÖ"), Some("äö".to_string()));
    assert_eq!(source.env_key_to_config_key("P_İ"), Some("İ".to_lowercase()));
}
