use edgeshield::alert::{parse_event_type, Alert, AlertEventType, AlertFilter, Severity};
use edgeshield::config::{default_api_port, default_capture_buffer, default_database_path, default_log_level, Config};
use edgeshield::error::{ApiError, ConfigError, StorageError};
use edgeshield::setup::{render_toml, render_validated, toml_string, SetupInputs};
use edgeshield::types::{Device, MacAddress};
use std::str::FromStr;

fn mac(s: &str) -> MacAddress {
    MacAddress::new(mac_address::MacAddress::from_str(s).unwrap().bytes())
}

fn sample_device() -> Device {
    Device::new(mac("00:11:22:33:44:55"))
}

#[test]
fn test_severity_display() {
    assert_eq!(Severity::Info.to_string(), "info");
    assert_eq!(Severity::Warning.to_string(), "warning");
    assert_eq!(Severity::Critical.to_string(), "critical");
}

#[test]
fn test_severity_from_str() {
    assert_eq!(Severity::from_str("info").unwrap(), Severity::Info);
    assert_eq!(Severity::from_str("warning").unwrap(), Severity::Warning);
    assert_eq!(Severity::from_str("warn").unwrap(), Severity::Warning);
    assert_eq!(Severity::from_str("critical").unwrap(), Severity::Critical);
    assert_eq!(Severity::from_str("CRITICAL").unwrap(), Severity::Critical);
}

#[test]
fn test_severity_from_str_invalid() {
    assert!(Severity::from_str("urgent").is_err());
}

#[test]
fn severity_error_message() {
    assert_eq!(
        Severity::from_str("urgent").unwrap_err(),
        "invalid severity 'urgent': expected info, warning, or critical"
    );
    assert_eq!(Severity::from_str("WaRn").unwrap(), Severity::Warning);
}

#[test]
fn test_alert_event_type_display() {
    assert_eq!(AlertEventType::NewDevice.to_string(), "new_device");
    assert_eq!(AlertEventType::DeviceOffline.to_string(), "device_offline");
    assert_eq!(AlertEventType::ProtocolChange.to_string(), "protocol_change");
    assert_eq!(AlertEventType::Custom("rogue_dhcp".to_string()).to_string(), "rogue_dhcp");
}

#[test]
fn event_type_names_read_back() {
    for e in [
        AlertEventType::NewDevice,
        AlertEventType::DeviceOffline,
        AlertEventType::ProtocolChange,
        AlertEventType::Custom("rogue_dhcp".to_string()),
    ] {
        assert_eq!(parse_event_type(&e.to_string()), e);
    }
}

#[test]
fn test_alert_new() {
    let device = sample_device();
    let alert = Alert::new(
        "new-device-alert".to_string(),
        Severity::Info,
        AlertEventType::NewDevice,
        device.clone(),
        "New device 00:11:22:33:44:55 discovered".to_string(),
    );
    assert_eq!(alert.id, 0);
    assert_eq!(alert.rule_name, "new-device-alert");
    assert_eq!(alert.severity, Severity::Info);
    assert_eq!(alert.event_type, AlertEventType::NewDevice);
    assert_eq!(alert.mac, device.mac);
    assert!(!alert.acknowledged);
}

#[test]
fn default_filter_has_no_conditions() {
    let f = AlertFilter::default();
    assert!(f.severity.is_none() && f.acknowledged.is_none() && f.rule_name.is_none() && f.limit.is_none());
}

#[test]
fn error_messages() {
    assert_eq!(StorageError::Internal("x".to_string()).to_string(), "storage error: x");
    assert_eq!(StorageError::DeviceNotFound("m".to_string()).to_string(), "device not found: m");
    assert_eq!(ApiError::Internal("y".to_string()).to_string(), "internal error: y");
    assert_eq!(
        ConfigError::EmptyInterface(" ".to_string()).to_string(),
        "invalid interface ' ': interface name cannot be empty"
    );
    assert_eq!(ConfigError::Parse("bad".to_string()).to_string(), "failed to parse config: bad");
}

#[test]
fn test_default_config() {
    let config = Config::default();
    assert_eq!(config.api_port, 8080);
    assert_eq!(config.log_level, "info");
    assert_eq!(config.capture_buffer, 4096);
}

#[test]
fn defaults_of_each_field() {
    assert_eq!(default_api_port(), 8080);
    assert_eq!(default_log_level(), "info");
    assert_eq!(default_capture_buffer(), 4096);
    assert_eq!(default_database_path(), "");
}

#[test]
fn test_parse_valid_config() {
    let toml = r#"
        interface = "eth0"
        api_port = 9090
        log_level = "debug"
        capture_buffer = 8192
    "#;
    let config: Config = Config::from_str(toml).unwrap();
    assert_eq!(config.interface, "eth0");
    assert_eq!(config.api_port, 9090);
    assert_eq!(config.log_level, "debug");
    assert_eq!(config.capture_buffer, 8192);
}

#[test]
fn test_parse_minimal_config() {
    let toml = r#"
        interface = "eth0"
    "#;
    let config: Config = Config::from_str(toml).unwrap();
    assert_eq!(config.interface, "eth0");
    assert_eq!(config.api_port, 8080);
    assert_eq!(config.log_level, "info");
}

#[test]
fn test_parse_empty_interface() {
    let toml = r#"
        interface = ""
    "#;
    let result: Result<Config, _> = Config::from_str(toml);
    assert!(result.is_err());
}

#[test]
fn test_parse_invalid_toml() {
    let toml = r#"
        interface = 123
    "#;
    let result: Result<Config, _> = Config::from_str(toml);
    assert!(result.is_err());
}

#[test]
fn config_errors_by_kind() {
    assert_eq!(
        Config::from_str("interface = \"  \"").unwrap_err(),
        ConfigError::EmptyInterface("  ".to_string())
    );
    assert_eq!(
        Config::from_str("api_port = 1").unwrap_err(),
        ConfigError::Parse("missing field `interface`".to_string())
    );
    assert_eq!(
        Config::from_str("interface = \"eth0\"\napi_port = 70000").unwrap_err(),
        ConfigError::Parse("invalid value for field `api_port`".to_string())
    );
    assert!(matches!(Config::from_str("interface = "), Err(ConfigError::Parse(_))));
    let cfg = Config::from_str("interface = \"eth0\"\n[mqtt]\nhost = \"x\"").unwrap();
    assert_eq!(cfg.database_path, "");
}

#[test]
fn test_toml_string_escapes_quotes() {
    assert_eq!(toml_string("simple"), "\"simple\"");
    assert_eq!(toml_string("with \"quotes\""), "\"with \\\"quotes\\\"\"");
    assert_eq!(toml_string("back\\slash"), "\"back\\\\slash\"");
}

#[test]
fn test_setup_generates_valid_config() {
    let inputs = SetupInputs {
        interface: "eth0".to_string(),
        database_path: "/tmp/edgeshield-test.db".to_string(),
        ..SetupInputs::default()
    };
    let toml = render_toml(&inputs, None);
    let cfg = Config::from_str(&toml).expect("generated TOML should be valid");
    assert_eq!(cfg.interface, "eth0");
    assert_eq!(cfg.api_port, 8080);
    assert_eq!(cfg.database_path, "/tmp/edgeshield-test.db");
}

#[test]
fn rendered_config_holds_key_hash() {
    let inputs = SetupInputs { interface: "eth0".to_string(), ..SetupInputs::default() };
    let text = render_validated(&inputs, Some("abc")).unwrap();
    assert!(text.contains("# read_key (plaintext, shown once by setup): abc\n"));
    assert!(text.contains(
        "read_key_hash = \"ba7816bf8f01cfea414140de5dae2223b00361a396177a9cb410ff61f20015ad\"\n"
    ));
    assert!(text.ends_with("[[rules]]\nname = \"new_device\"\ncondition = \"new_device\"\nseverity = \"info\"\ncooldown_seconds = 0\n"));
    let blank = SetupInputs::default();
    assert!(matches!(render_validated(&blank, None), Err(ConfigError::EmptyInterface(_))));
}

#[test]
fn sections_only_for_given_settings() {
    let inputs = SetupInputs { interface: "eth0".to_string(), ..SetupInputs::default() };
    let without_key = render_toml(&inputs, None);
    for header in ["\n[api.auth]\n", "\n[mqtt]\n", "\n[ntfy]\n", "\n[webhook]\n", "\n[email]\n"] {
        assert!(!without_key.contains(header), "{header} should be absent");
    }
    assert!(without_key.contains("\n[[rules]]\nname = \"new_device\"\n"));
    let with_key = render_toml(&inputs, Some("abc"));
    assert!(with_key.contains("\n[api.auth]\n"));
    assert!(!with_key.contains("\n[mqtt]\n"));
}
