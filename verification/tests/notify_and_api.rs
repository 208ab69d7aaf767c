use edgeshield::alert::{Alert, AlertEventType, AlertFilter, Severity};
use edgeshield::codec::{build_filter, history_query, protocol_stats_from_json, protocol_stats_to_json, protocols_from_json, protocols_to_json, SqlParam};
use edgeshield::notify::{
    build_ntfy_headers, email_subject, first_protocol_name, format_alert_body, ntfy_title, ntfy_title_header, ntfy_url, qos_from_level, NewDevicePayload,
    NotifierError, NtfyConfig, Qos,
};
use edgeshield::protocol::Protocol;
use edgeshield::routes::{compute_metrics, device_not_found_message, health_response, metrics_within_range, parse_mac_path};
use edgeshield::types::{Device, IpAddr, MacAddress, ProtocolSet, ProtocolStats, Timestamp};
use std::str::FromStr;

fn mac(s: &str) -> MacAddress {
    MacAddress::new(mac_address::MacAddress::from_str(s).unwrap().bytes())
}

fn sample_alert() -> Alert {
    let mut device = Device::new(mac("00:11:22:33:44:55"));
    device.vendor = Some("TP-Link".to_string());
    device.hostname = Some("living-room-plug".to_string());
    Alert::new("new-device".to_string(), Severity::Warning, AlertEventType::NewDevice, device, "New device discovered".to_string())
}

#[test]
fn test_format_alert_body_includes_fields() {
    let alert = sample_alert();
    let body = format_alert_body(&alert);
    assert!(body.contains("Rule: new-device"));
    assert!(body.contains("Severity: warning"));
    assert!(body.contains("MAC: 00:11:22:33:44:55"));
    assert!(body.contains("Hostname: living-room-plug"));
    assert!(body.contains("Vendor: TP-Link"));
    assert!(body.contains("Message: New device discovered"));
}

#[test]
fn test_format_alert_body_handles_unknown_fields() {
    let device = Device::new(mac("00:11:22:33:44:55"));
    let alert = Alert::new("test".to_string(), Severity::Info, AlertEventType::NewDevice, device, "test".to_string());
    let body = format_alert_body(&alert);
    assert!(body.contains("Hostname: (unknown)"));
    assert!(body.contains("Vendor: (unknown)"));
    assert!(body.contains("IPs: (none)"));
}

#[test]
fn alert_body_exact_text() {
    let mut alert = sample_alert();
    alert.timestamp = Timestamp::from_millis(0);
    alert.device_snapshot.add_ip(IpAddr::v4(192, 168, 1, 10));
    alert.device_snapshot.add_ip(IpAddr::v4(10, 0, 0, 1));
    alert.device_snapshot.record_sent(1, Protocol::Udp, Timestamp::from_millis(0));
    alert.device_snapshot.record_sent(1, Protocol::Arp, Timestamp::from_millis(0));
    alert.acknowledged = true;
    let body = format_alert_body(&alert);
    assert_eq!(
        body,
        "EdgeShield Alert\n================\n\nRule: new-device\nSeverity: warning\nEvent: new_device\nTime: 1970-01-01T00:00:00.000Z\n\nDevice:\nMAC: 00:11:22:33:44:55\nHostname: living-room-plug\nVendor: TP-Link\nIPs: 10.0.0.1, 192.168.1.10\nProtocols: ARP, UDP\n\nMessage: New device discovered\n\n(Alert acknowledged)\n"
    );
    assert_eq!(email_subject("[EdgeShield]", &alert), "[EdgeShield] warning — New device discovered");
    assert_eq!(ntfy_title(&alert), "[warning] New device discovered: living-room-plug (00:11:22:33:44:55)");
}

#[test]
fn ntfy_title_header_only_when_valid() {
    let mut alert = sample_alert();
    assert_eq!(
        ntfy_title_header(&alert).as_deref(),
        Some("[warning] New device discovered: living-room-plug (00:11:22:33:44:55)")
    );
    alert.device_snapshot.hostname = Some("bad\nname".to_string());
    assert!(ntfy_title_header(&alert).is_none());
}

#[test]
fn test_payload_from_device_with_ip() {
    let mut device = Device::new(mac("00:11:22:33:44:55"));
    device.add_ip(IpAddr::v4(192, 168, 1, 10));
    device.hostname = Some("pi".to_string());
    let payload = NewDevicePayload::from_device(&device, "TCP");
    assert_eq!(payload.event, "new_device");
    assert_eq!(payload.mac, "00:11:22:33:44:55");
    assert_eq!(payload.ip.as_deref(), Some("192.168.1.10"));
    assert_eq!(payload.hostname.as_deref(), Some("pi"));
    assert_eq!(payload.protocol, "TCP");
}

#[test]
fn test_payload_from_device_without_ip() {
    let device = Device::new(mac("00:11:22:33:44:55"));
    let payload = NewDevicePayload::from_device(&device, "ARP");
    assert!(payload.ip.is_none());
    assert!(payload.vendor.is_none());
    assert_eq!(first_protocol_name(&device), "Unknown");
}

fn sample_config() -> NtfyConfig {
    NtfyConfig { base_url: "https://ntfy.example.com".to_string(), topic: "edgeshield".to_string(), token: None, priority: None, tags: None }
}

#[test]
fn test_build_headers_no_auth() {
    let headers = build_ntfy_headers(&sample_config());
    assert!(headers.is_empty());
}

#[test]
fn test_build_headers_with_auth_and_options() {
    let mut config = sample_config();
    config.token = Some("tok_abc123".to_string());
    config.priority = Some(2);
    config.tags = Some("warning,desktop".to_string());
    let headers = build_ntfy_headers(&config);
    assert_eq!(
        headers,
        vec![
            ("Authorization".to_string(), "Bearer tok_abc123".to_string()),
            ("Priority".to_string(), "2".to_string()),
            ("Tags".to_string(), "warning,desktop".to_string()),
        ]
    );
    assert_eq!(ntfy_url(&config), "https://ntfy.example.com/edgeshield");
}

#[test]
fn test_build_headers_invalid_token_ignored() {
    let mut config = sample_config();
    config.token = Some("bad\ntoken".to_string());
    let headers = build_ntfy_headers(&config);
    assert!(headers.iter().all(|(n, _)| n != "Authorization"));
}

#[test]
fn qos_and_errors() {
    assert_eq!(qos_from_level(0), Qos::AtMostOnce);
    assert_eq!(qos_from_level(1), Qos::AtLeastOnce);
    assert_eq!(qos_from_level(9), Qos::ExactlyOnce);
    assert_eq!(NotifierError::Delivery("x".to_string()).to_string(), "delivery failed: x");
    assert_eq!(NotifierError::Config("y".to_string()).to_string(), "configuration error: y");
}

#[test]
fn mac_paths_and_responses() {
    assert_eq!(parse_mac_path("00:11:22:33:44:55").unwrap(), mac("00:11:22:33:44:55"));
    assert_eq!(parse_mac_path("aabbccddeeff").unwrap(), mac("aa:bb:cc:dd:ee:ff"));
    assert_eq!(parse_mac_path("zz:11").unwrap_err(), "invalid MAC address: zz:11");
    assert_eq!(parse_mac_path("00:11:22").unwrap_err(), "invalid MAC address length: 00:11:22");
    assert_eq!(device_not_found_message(&mac("aa:bb:cc:dd:ee:ff")), "device not found: AA:BB:CC:DD:EE:FF");
    let h = health_response("0.1.0");
    assert_eq!(h.status, "ok");
    assert_eq!(h.version, "0.1.0");
}

#[test]
fn metrics_sum_devices() {
    let mut a = Device::new(mac("00:00:00:00:00:01"));
    a.record_sent(100, Protocol::Tcp, Timestamp::now());
    let mut b = Device::new(mac("00:00:00:00:00:02"));
    b.record_received(50, Protocol::Udp, Timestamp::now());
    b.record_sent(25, Protocol::Udp, Timestamp::now());
    let devices = vec![a, b];
    assert!(metrics_within_range(&devices));
    let m = compute_metrics(&devices, 7);
    assert_eq!(m.total_devices, 2);
    assert_eq!(m.total_packets, 3);
    assert_eq!(m.total_bytes, 175);
    assert_eq!(m.uptime_seconds, 7);
    let mut c = Device::new(mac("00:00:00:00:00:05"));
    c.bytes_sent = u64::MAX;
    c.bytes_received = 1;
    assert!(!metrics_within_range(&vec![c]));
}

#[test]
fn test_serde_protocols_roundtrip() {
    let mut set = ProtocolSet::new();
    set.insert(Protocol::Tcp);
    set.insert(Protocol::Mdns);
    set.insert(Protocol::Other(42));
    let json = protocols_to_json(&set);
    assert_eq!(json, "[\"TCP\",\"mDNS\",\"UNKNOWN(42)\"]");
    let back = protocols_from_json(&json);
    assert_eq!(back, set);
    assert!(protocols_from_json("not json").is_empty());
}

#[test]
fn test_serde_protocol_stats_roundtrip() {
    let mut stats = ProtocolStats::new();
    stats.set(Protocol::Tcp, 3);
    stats.set(Protocol::Dns, 1);
    let json = protocol_stats_to_json(&stats);
    assert_eq!(json, "[[\"TCP\",3],[\"DNS\",1]]");
    let back = protocol_stats_from_json(&json);
    assert_eq!(back, stats);
    assert!(protocol_stats_from_json("{}").is_empty());
}

#[test]
fn query_text() {
    let (clause, params) = build_filter(&AlertFilter::default());
    assert_eq!(clause, "");
    assert!(params.is_empty());
    let f = AlertFilter { severity: Some(Severity::Critical), acknowledged: Some(false), rule_name: Some("r".to_string()), limit: None };
    let (clause, params) = build_filter(&f);
    assert_eq!(clause, " WHERE severity = ?1 AND acknowledged = ?2 AND rule_name = ?3");
    assert_eq!(params, vec![SqlParam::Text("critical".to_string()), SqlParam::Int(0), SqlParam::Text("r".to_string())]);
    let (sql, params) = history_query(&mac("00:11:22:33:44:55"), None, Some("2024-02-01"), Some(5));
    assert!(sql.ends_with("WHERE mac = ?1 AND snapshot_date <= ?2 ORDER BY snapshot_date ASC LIMIT 5"));
    assert_eq!(params, vec!["00:11:22:33:44:55".to_string(), "2024-02-01".to_string()]);
}

#[test]
fn stored_lists_read_back_unchanged() {
    let mut set = ProtocolSet::new();
    set.insert(Protocol::Mdns);
    set.insert(Protocol::Other(200));
    set.insert(Protocol::Arp);
    let back = protocols_from_json(&protocols_to_json(&set));
    assert_eq!(back.len(), 3);
    assert!(back.contains(&Protocol::Arp) && back.contains(&Protocol::Mdns) && back.contains(&Protocol::Other(200)));
    assert_eq!(protocols_from_json("not json").len(), 0);
    let mut stats = ProtocolStats::new();
    stats.set(Protocol::Tcp, 7);
    stats.set(Protocol::Other(9), 2);
    let back = protocol_stats_from_json(&protocol_stats_to_json(&stats));
    assert_eq!(back.get(&Protocol::Tcp), Some(7));
    assert_eq!(back.get(&Protocol::Other(9)), Some(2));
    assert_eq!(back.get(&Protocol::Udp), None);
    assert!(protocol_stats_from_json("{").is_empty());
}

#[test]
fn listed_mac_fetches_the_device() {
    let m = mac("a4:5e:60:0f:b2:c9");
    assert_eq!(m.to_string(), "A4:5E:60:0F:B2:C9");
    assert_eq!(parse_mac_path(&m.to_string()), Ok(m));
}
