use uav_telemetry::config::{flag_enabled, parse_u16, Config};

fn s(v: &str) -> Option<String> {
    Some(v.to_string())
}

#[test]
fn config_with_sink_disabled() {
    let c = Config::from_settings(s("broker.local"), None, s("user"), s("pw"), None, s("k"), s("h")).unwrap();
    assert_eq!(c.mqtt_broker, "broker.local");
    assert_eq!(c.mqtt_port, 1883);
    assert_eq!(c.mqtt_username, "user");
    assert_eq!(c.mqtt_password, "pw");
    assert!(!c.api_enabled);
    assert_eq!(c.api_key, "");
    assert_eq!(c.api_host, "");
}

#[test]
fn config_with_sink_enabled_any_case() {
    let c = Config::from_settings(s("b"), s("8883"), s("u"), s("p"), s("TrUe"), s("key"), s("https://sink")).unwrap();
    assert_eq!(c.mqtt_port, 8883);
    assert!(c.api_enabled);
    assert_eq!(c.api_key, "key");
    assert_eq!(c.api_host, "https://sink");
}

#[test]
fn config_port_fallback() {
    let c = Config::from_settings(s("b"), s("not-a-port"), s("u"), s("p"), s("false"), None, None).unwrap();
    assert_eq!(c.mqtt_port, 1883);
    let c = Config::from_settings(s("b"), s("70000"), s("u"), s("p"), None, None, None).unwrap();
    assert_eq!(c.mqtt_port, 1883);
    let c = Config::from_settings(s("b"), s("+42"), s("u"), s("p"), None, None, None).unwrap();
    assert_eq!(c.mqtt_port, 42);
}

#[test]
fn config_missing_settings() {
    let e = Config::from_settings(None, None, s("u"), s("p"), None, None, None).err().unwrap();
    assert_eq!(e, "MQTT_BROKER not set");
    let e = Config::from_settings(s("b"), None, None, None, None, None, None).err().unwrap();
    assert_eq!(e, "MQTT_USERNAME not set");
    let e = Config::from_settings(s("b"), None, s("u"), None, None, None, None).err().unwrap();
    assert_eq!(e, "MQTT_PASSWORD not set");
    let e = Config::from_settings(s("b"), None, s("u"), s("p"), s("true"), None, s("h")).err().unwrap();
    assert_eq!(e, "API_KEY not set");
    let e = Config::from_settings(s("b"), None, s("u"), s("p"), s("TRUE"), s("k"), None).err().unwrap();
    assert_eq!(e, "API_HOST not set");
}

#[test]
fn enabled_flag_reads_true_only() {
    assert!(flag_enabled("true"));
    assert!(!flag_enabled("True"));
    assert!(!flag_enabled("yes"));
    assert!(!flag_enabled(""));
}

#[test]
fn port_parsing_edges() {
    assert_eq!(parse_u16("1883"), Some(1883));
    assert_eq!(parse_u16("+7"), Some(7));
    assert_eq!(parse_u16("007"), Some(7));
    assert_eq!(parse_u16("0"), Some(0));
    assert_eq!(parse_u16("65535"), Some(65535));
    assert_eq!(parse_u16("65536"), None);
    assert_eq!(parse_u16("99999999999"), None);
    assert_eq!(parse_u16(""), None);
    assert_eq!(parse_u16("+"), None);
    assert_eq!(parse_u16("-1"), None);
    assert_eq!(parse_u16(" 1"), None);
    assert_eq!(parse_u16("12a"), None);
    assert_eq!(parse_u16("++1"), None);
    assert_eq!(parse_u16("\u{0661}"), None);
}
