use edgeshield::alert::{Alert, AlertEventType, Severity};
use edgeshield::error::StorageError;
use edgeshield::alert_store::{AlertStore, InMemoryAlertStore};
use edgeshield::daemon::{capture_step, is_silent, offline_devices, rules_from_config, CaptureAction, CaptureEvent};
use edgeshield::rules::{
    build_message, convert_condition, evaluate_rule, mac_matches_prefix, process_event, rule_outcome, DeviceOfflineCondition,
    DiscoveryEvent, Rule, RuleCondition, RuleConditionConfig, RuleConfig,
};
use edgeshield::types::{Device, MacAddress, Timestamp};
use std::str::FromStr;

fn mac(s: &str) -> MacAddress {
    MacAddress::new(mac_address::MacAddress::from_str(s).unwrap().bytes())
}

fn sample_device() -> Device {
    let mut device = Device::new(mac("00:11:22:33:44:55"));
    device.vendor = Some("TP-Link Technologies".to_string());
    device.hostname = Some("living-room-plug".to_string());
    device
}

#[test]
fn test_convert_new_device_rule() {
    let config = RuleConfig {
        name: "new-device".to_string(),
        enabled: true,
        condition: RuleConditionConfig::Simple("new_device".to_string()),
        severity: "info".to_string(),
        cooldown_seconds: 300,
    };
    let rule = Rule::try_from(config).unwrap();
    assert_eq!(rule.name, "new-device");
    assert!(rule.enabled);
    assert_eq!(rule.severity, Severity::Info);
    assert_eq!(rule.cooldown_seconds, 300);
    assert!(matches!(rule.condition, RuleCondition::NewDevice));
}

#[test]
fn test_convert_device_offline_rule() {
    let config = RuleConfig {
        name: "offline".to_string(),
        enabled: true,
        condition: RuleConditionConfig::DeviceOffline { device_offline: DeviceOfflineCondition { after_seconds: 1800 } },
        severity: "warning".to_string(),
        cooldown_seconds: 0,
    };
    let rule = Rule::try_from(config).unwrap();
    assert!(matches!(rule.condition, RuleCondition::DeviceOffline { after_seconds: 1800 }));
}

#[test]
fn test_convert_invalid_simple_condition() {
    let config = RuleConfig {
        name: "bad".to_string(),
        enabled: true,
        condition: RuleConditionConfig::Simple("unknown_condition".to_string()),
        severity: "info".to_string(),
        cooldown_seconds: 0,
    };
    let result = Rule::try_from(config);
    assert!(result.is_err());
}

#[test]
fn conversion_messages() {
    assert_eq!(
        convert_condition(&RuleConditionConfig::Simple("x".to_string())).unwrap_err(),
        "unknown simple condition 'x': expected new_device or protocol_change"
    );
    let bad_severity = RuleConfig {
        name: "r".to_string(),
        enabled: true,
        condition: RuleConditionConfig::Simple("new_device".to_string()),
        severity: "loud".to_string(),
        cooldown_seconds: 0,
    };
    assert_eq!(
        Rule::try_from(bad_severity).unwrap_err(),
        "invalid severity 'loud': expected info, warning, or critical"
    );
}

#[test]
fn test_mac_matches_prefix_case_insensitive() {
    let m = mac("8C:85:90:12:34:56");
    assert!(mac_matches_prefix(&m, "8C:85:90"));
    assert!(mac_matches_prefix(&m, "8c:85:90"));
    assert!(mac_matches_prefix(&m, "8c:85"));
    assert!(!mac_matches_prefix(&m, "8c:86"));
}

fn run_one(rule: Rule, event: DiscoveryEvent) -> Vec<edgeshield::alert::Alert> {
    let mut rules = vec![rule];
    let mut store = InMemoryAlertStore::new();
    process_event(&mut rules, &event, &mut store, 0).unwrap()
}

#[test]
fn test_new_device_rule_fires() {
    let rule = Rule::new("new-device".to_string(), true, RuleCondition::NewDevice, Severity::Info, 0);
    let alerts = run_one(rule, DiscoveryEvent::DeviceDiscovered(sample_device()));
    assert_eq!(alerts.len(), 1);
    assert_eq!(alerts[0].rule_name, "new-device");
    assert_eq!(alerts[0].severity, Severity::Info);
    assert_eq!(alerts[0].event_type, AlertEventType::NewDevice);
    assert_eq!(alerts[0].id, 1);
    assert_eq!(alerts[0].message, "New device discovered: living-room-plug (00:11:22:33:44:55)");
}

#[test]
fn test_disabled_rule_does_not_fire() {
    let rule = Rule::new("disabled".to_string(), false, RuleCondition::NewDevice, Severity::Info, 0);
    assert!(run_one(rule, DiscoveryEvent::DeviceDiscovered(sample_device())).is_empty());
}

#[test]
fn test_new_device_by_vendor_fires_on_match() {
    let rule = Rule::new("new-iot".to_string(), true, RuleCondition::NewDeviceByVendor("TP-Link".to_string()), Severity::Warning, 0);
    let alerts = run_one(rule, DiscoveryEvent::DeviceDiscovered(sample_device()));
    assert_eq!(alerts[0].rule_name, "new-iot");
    assert_eq!(alerts[0].severity, Severity::Warning);
}

#[test]
fn test_new_device_by_vendor_no_match() {
    let rule = Rule::new("new-apple".to_string(), true, RuleCondition::NewDeviceByVendor("Apple".to_string()), Severity::Info, 0);
    assert!(run_one(rule, DiscoveryEvent::DeviceDiscovered(sample_device())).is_empty());
}

#[test]
fn test_new_device_by_mac_prefix_fires() {
    let rule = Rule::new("new-apple-mac".to_string(), true, RuleCondition::NewDeviceByMacPrefix("00:11:22".to_string()), Severity::Info, 0);
    let alerts = run_one(rule, DiscoveryEvent::DeviceDiscovered(sample_device()));
    assert_eq!(alerts[0].rule_name, "new-apple-mac");
}

#[test]
fn test_device_offline_rule_fires() {
    let rule = Rule::new("offline-30min".to_string(), true, RuleCondition::DeviceOffline { after_seconds: 1800 }, Severity::Warning, 0);
    let alerts = run_one(rule, DiscoveryEvent::DeviceOffline(sample_device()));
    assert_eq!(alerts[0].event_type, AlertEventType::DeviceOffline);
    assert_eq!(alerts[0].severity, Severity::Warning);
    assert_eq!(alerts[0].message, "Device offline: living-room-plug (00:11:22:33:44:55)");
}

#[test]
fn test_cooldown_suppresses_second_alert() {
    let mut rule = Rule::new("cooldown-test".to_string(), true, RuleCondition::NewDevice, Severity::Info, 3600);
    let mut store = InMemoryAlertStore::new();
    let event = DiscoveryEvent::DeviceDiscovered(sample_device());
    assert!(evaluate_rule(&mut rule, &event, &mut store, 1_000).unwrap().is_some());
    assert!(evaluate_rule(&mut rule, &event, &mut store, 2_000).unwrap().is_none());
    assert!(evaluate_rule(&mut rule, &event, &mut store, 1_000 + 3_600_000).unwrap().is_some());
}

#[test]
fn test_acknowledgment_suppresses_alert() {
    let mut rule = Rule::new("ack-test".to_string(), true, RuleCondition::NewDevice, Severity::Info, 0);
    let mut store = InMemoryAlertStore::new();
    let event = DiscoveryEvent::DeviceDiscovered(sample_device());
    let alert = evaluate_rule(&mut rule, &event, &mut store, 0).unwrap().expect("first alert");
    store.acknowledge_alert(alert.id).unwrap();
    assert!(evaluate_rule(&mut rule, &event, &mut store, 0).unwrap().is_none());
}

#[test]
fn test_protocol_change_rule_fires_on_update() {
    let rule = Rule::new("proto-change".to_string(), true, RuleCondition::ProtocolChange, Severity::Info, 0);
    let alerts = run_one(rule, DiscoveryEvent::DeviceUpdated(sample_device()));
    assert_eq!(alerts[0].event_type, AlertEventType::ProtocolChange);
}

#[test]
fn messages_fall_back_to_vendor_then_address() {
    let mut d = Device::new(mac("00:11:22:33:44:55"));
    assert_eq!(
        build_message("r", &d, &AlertEventType::ProtocolChange),
        "Protocol change for 00:11:22:33:44:55 (00:11:22:33:44:55)"
    );
    d.vendor = Some("Acme".to_string());
    assert_eq!(build_message("r", &d, &AlertEventType::Custom("rogue".to_string())), "rogue: Acme (00:11:22:33:44:55)");
}

#[test]
fn default_rule_when_none_converts() {
    let bad = RuleConfig {
        name: "bad".to_string(),
        enabled: true,
        condition: RuleConditionConfig::Simple("nope".to_string()),
        severity: "info".to_string(),
        cooldown_seconds: 0,
    };
    let (rules, rejected) = rules_from_config(vec![bad]);
    assert_eq!(rules.len(), 1);
    assert_eq!(rules[0].name, "new_device");
    assert_eq!(rejected.len(), 1);
    assert_eq!(rejected[0].0, "bad");
}

#[test]
fn offline_scan_and_capture_steps() {
    let now = Timestamp::from_millis(100_000);
    assert!(is_silent(Timestamp::from_millis(39_000), now));
    assert!(!is_silent(Timestamp::from_millis(39_001), now));
    let mut quiet = Device::new(mac("00:00:00:00:00:01"));
    quiet.last_seen = Timestamp::from_millis(0);
    let mut busy = Device::new(mac("00:00:00:00:00:02"));
    busy.last_seen = now;
    let offline = offline_devices(vec![quiet, busy], now);
    assert_eq!(offline.len(), 1);
    assert_eq!(offline[0].mac, mac("00:00:00:00:00:01"));
    assert_eq!(capture_step(3, CaptureEvent::Packet), (0, CaptureAction::Deliver));
    assert_eq!(capture_step(8, CaptureEvent::OpenFailed), (9, CaptureAction::RetryOpen));
    assert_eq!(capture_step(9, CaptureEvent::OpenFailed), (10, CaptureAction::Stop));
    assert_eq!(capture_step(2, CaptureEvent::ReadFailed), (2, CaptureAction::Reopen));
    assert_eq!(capture_step(2, CaptureEvent::StopRequested), (2, CaptureAction::Stop));
}

#[test]
fn configured_rules_kept_in_order() {
    let make = |name: &str, condition: RuleConditionConfig, severity: &str| RuleConfig {
        name: name.to_string(),
        enabled: true,
        condition,
        severity: severity.to_string(),
        cooldown_seconds: 30,
    };
    let configs = vec![
        make("a", RuleConditionConfig::Simple("protocol_change".to_string()), "warning"),
        make("b", RuleConditionConfig::Simple("bogus".to_string()), "info"),
        make("c", RuleConditionConfig::DeviceOffline { device_offline: DeviceOfflineCondition { after_seconds: 300 } }, "critical"),
        make("d", RuleConditionConfig::Simple("new_device".to_string()), "loud"),
    ];
    let (rules, rejected) = rules_from_config(configs);
    assert_eq!(rules.len(), 2);
    assert_eq!(rules[0].name, "a");
    assert!(matches!(rules[0].condition, RuleCondition::ProtocolChange));
    assert_eq!(rules[0].severity, Severity::Warning);
    assert_eq!(rules[0].cooldown_seconds, 30);
    assert_eq!(rules[1].name, "c");
    assert!(matches!(rules[1].condition, RuleCondition::DeviceOffline { after_seconds: 300 }));
    assert_eq!(rules[1].severity, Severity::Critical);
    assert_eq!(rejected.len(), 2);
    assert_eq!(rejected[0].0, "b");
    assert_eq!(rejected[0].1, "unknown simple condition 'bogus': expected new_device or protocol_change");
    assert_eq!(rejected[1].0, "d");
    assert!(rejected[1].1.contains("loud"));
}

#[test]
fn alerts_follow_rule_order() {
    let mut rules = vec![
        Rule::new("second".to_string(), true, RuleCondition::NewDevice, Severity::Warning, 0),
        Rule::new("off".to_string(), false, RuleCondition::NewDevice, Severity::Info, 0),
        Rule::new("vendor".to_string(), true, RuleCondition::NewDeviceByVendor("tp-link".to_string()), Severity::Critical, 0),
        Rule::new("changes".to_string(), true, RuleCondition::ProtocolChange, Severity::Info, 0),
    ];
    let mut store = InMemoryAlertStore::new();
    let event = DiscoveryEvent::DeviceDiscovered(sample_device());
    let alerts = process_event(&mut rules, &event, &mut store, 1_000).unwrap();
    assert_eq!(alerts.len(), 2);
    assert_eq!(alerts[0].rule_name, "second");
    assert_eq!(alerts[0].severity, Severity::Warning);
    assert_eq!(alerts[1].rule_name, "vendor");
    assert_eq!(alerts[1].severity, Severity::Critical);
    assert_eq!(alerts[0].id, 1);
    assert_eq!(alerts[1].id, 2);
    assert_eq!(store.count_alerts().unwrap(), 2);
}

#[test]
fn raised_alert_is_stored_under_its_id() {
    let mut rule = Rule::new("store-test".to_string(), true, RuleCondition::NewDevice, Severity::Info, 0);
    let mut store = InMemoryAlertStore::new();
    let event = DiscoveryEvent::DeviceDiscovered(sample_device());
    let alert = evaluate_rule(&mut rule, &event, &mut store, 0).unwrap().expect("alert");
    assert_eq!(alert.id, 1);
    assert_eq!(store.count_alerts().unwrap(), 1);
    let stored = store.get_alert(1).unwrap().expect("stored alert");
    assert_eq!(stored.rule_name, "store-test");
    assert_eq!(stored.message, alert.message);
    let mut quiet = Rule::new("quiet".to_string(), true, RuleCondition::ProtocolChange, Severity::Info, 0);
    assert!(evaluate_rule(&mut quiet, &event, &mut store, 0).unwrap().is_none());
    assert_eq!(store.count_alerts().unwrap(), 1);
}

#[test]
fn outcome_from_store_answers() {
    let alert = Alert::new("r".to_string(), Severity::Info, AlertEventType::NewDevice, sample_device(), "m".to_string());
    let failed = StorageError::Internal("down".to_string());
    assert_eq!(rule_outcome(Err(failed.clone()), alert.clone(), None).unwrap_err(), failed);
    assert!(rule_outcome(Ok(true), alert.clone(), None).unwrap().is_none());
    assert_eq!(rule_outcome(Ok(false), alert.clone(), Some(Ok(7))).unwrap().unwrap().id, 7);
    assert_eq!(rule_outcome(Ok(false), alert.clone(), Some(Err(failed))).unwrap().unwrap().id, 0);
}

#[test]
fn silence_counts_sub_millisecond_time() {
    let seen = Timestamp { millis: 0, nanos: 500_000 };
    assert!(!is_silent(seen, Timestamp { millis: 61_000, nanos: 0 }));
    assert!(is_silent(seen, Timestamp { millis: 61_000, nanos: 500_000 }));
    assert!(Timestamp { millis: 5, nanos: 1 }.is_after(&Timestamp::from_millis(5)));
}
