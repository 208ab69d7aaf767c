use edgeshield::alert::{Alert, AlertEventType, AlertFilter, Severity};
use edgeshield::alert_store::{AlertStore, InMemoryAlertStore};
use edgeshield::device_store::{DeviceStore, MemoryStore};
use edgeshield::error::StorageError;
use edgeshield::history::DeviceHistorySnapshot;
use edgeshield::protocol::Protocol;
use edgeshield::types::{Device, IpAddr, MacAddress, Timestamp};
use std::str::FromStr;

fn mac(s: &str) -> MacAddress {
    MacAddress::new(mac_address::MacAddress::from_str(s).unwrap().bytes())
}

fn test_device(mac_str: &str) -> Device {
    Device::new(mac(mac_str))
}

#[test]
fn test_device_new() {
    let m = mac("00:11:22:33:44:55");
    let device = Device::new(m);
    assert_eq!(device.mac, m);
    assert_eq!(device.packet_count, 0);
    assert_eq!(device.bytes_sent, 0);
    assert_eq!(device.bytes_received, 0);
    assert!(device.protocols.is_empty());
    assert!(device.ips.is_empty());
}

#[test]
fn test_device_record_sent() {
    let mut device = test_device("00:11:22:33:44:55");
    device.record_sent(100, Protocol::Tcp, Timestamp::now());
    assert_eq!(device.packet_count, 1);
    assert_eq!(device.bytes_sent, 100);
    assert!(device.protocols.contains(&Protocol::Tcp));
}

#[test]
fn test_device_record_received() {
    let mut device = test_device("00:11:22:33:44:55");
    device.record_received(200, Protocol::Udp, Timestamp::now());
    assert_eq!(device.packet_count, 1);
    assert_eq!(device.bytes_received, 200);
    assert!(device.protocols.contains(&Protocol::Udp));
}

#[test]
fn test_device_add_ip() {
    let mut device = test_device("00:11:22:33:44:55");
    let ip = IpAddr::v4(192, 168, 1, 10);
    device.add_ip(ip);
    assert!(device.ips.contains(&ip));
    assert_eq!(device.ips.len(), 1);
}

#[test]
fn test_protocol_stats_incremented_on_record_sent() {
    let mut device = test_device("00:11:22:33:44:55");
    let now = Timestamp::now();
    device.record_sent(100, Protocol::Tcp, now);
    device.record_sent(200, Protocol::Tcp, now);
    device.record_sent(50, Protocol::Udp, now);
    assert_eq!(device.protocol_stats.get(&Protocol::Tcp), Some(2));
    assert_eq!(device.protocol_stats.get(&Protocol::Udp), Some(1));
    assert_eq!(device.protocol_stats.get(&Protocol::Dns), None);
}

#[test]
fn test_protocol_stats_incremented_on_record_received() {
    let mut device = test_device("00:11:22:33:44:55");
    let now = Timestamp::now();
    device.record_received(100, Protocol::Dns, now);
    device.record_received(100, Protocol::Dns, now);
    device.record_received(100, Protocol::Dns, now);
    assert_eq!(device.protocol_stats.get(&Protocol::Dns), Some(3));
}

#[test]
fn test_dhcp_vendor_class_default_none() {
    let device = test_device("00:11:22:33:44:55");
    assert!(device.dhcp_vendor_class.is_none());
    assert!(device.protocol_stats.is_empty());
}

#[test]
fn counters_saturate_and_sets_stay_sorted() {
    let mut device = test_device("00:11:22:33:44:55");
    let now = Timestamp::from_millis(1000);
    device.record_sent(u64::MAX, Protocol::Udp, now);
    device.record_sent(5, Protocol::Arp, now);
    assert_eq!(device.bytes_sent, u64::MAX);
    assert_eq!(device.last_seen, now);
    assert_eq!(device.protocols.get(0), Protocol::Arp);
    assert_eq!(device.protocols.get(1), Protocol::Udp);
    device.add_ip(IpAddr::v4(10, 0, 0, 2));
    device.add_ip(IpAddr::V6(1));
    device.add_ip(IpAddr::v4(10, 0, 0, 1));
    device.add_ip(IpAddr::v4(10, 0, 0, 2));
    assert_eq!(device.ips.len(), 3);
    assert_eq!(device.ips.first(), Some(IpAddr::v4(10, 0, 0, 1)));
    assert_eq!(device.ips.get(2), IpAddr::V6(1));
}

#[test]
fn address_texts() {
    assert_eq!(mac("8c:85:90:12:34:56").to_string(), "8C:85:90:12:34:56");
    assert_eq!(IpAddr::v4(192, 168, 1, 10).to_string(), "192.168.1.10");
    let cases: [(u128, &str); 9] = [
        (0, "::"),
        (1, "::1"),
        (0x2001_0db8_0000_0000_0000_0000_0000_0001, "2001:db8::1"),
        (0xfe80_0000_0000_0000_0001_0000_0000_0001, "fe80::1:0:0:1"),
        (0x0001_0000_0000_0002_0000_0000_0000_0003, "1:0:0:2::3"),
        (0x0001_0000_0000_0002_0000_0000_0003_0004, "1::2:0:0:3:4"),
        (0x0000_0000_0000_0000_0000_ffff_c0a8_0101, "::ffff:192.168.1.1"),
        (0x0001_0002_0003_0004_0005_0006_0007_0008, "1:2:3:4:5:6:7:8"),
        (0x2001_0db8_0000_0001_0001_0001_0001_0001, "2001:db8:0:1:1:1:1:1"),
    ];
    for (bits, text) in cases {
        assert_eq!(IpAddr::V6(bits).to_string(), text);
    }
}

#[test]
fn timestamp_text_is_iso8601() {
    assert_eq!(Timestamp::from_millis(0).to_string(), "1970-01-01T00:00:00.000Z");
    let ts = Timestamp::now();
    let formatted = ts.to_string();
    assert!(formatted.contains('T'));
    assert!(formatted.ends_with('Z'));
}

fn sample_alert(rule_name: &str, mac_str: &str) -> Alert {
    Alert::new(rule_name.to_string(), Severity::Info, AlertEventType::NewDevice, test_device(mac_str), "test alert".to_string())
}

#[test]
fn test_insert_and_get() {
    let mut store = InMemoryAlertStore::new();
    let alert = sample_alert("new-device", "00:11:22:33:44:55");
    let id = store.insert_alert(&alert).unwrap();
    assert_eq!(id, 1);
    let retrieved = store.get_alert(id).unwrap().unwrap();
    assert_eq!(retrieved.rule_name, "new-device");
}

#[test]
fn test_list_alerts_most_recent_first() {
    let mut store = InMemoryAlertStore::new();
    let a1 = sample_alert("rule-a", "00:11:22:33:44:55");
    let a2 = sample_alert("rule-b", "00:11:22:33:44:66");
    let a2 = Alert { timestamp: Timestamp::from_millis(a1.timestamp.millis + 10), ..a2 };
    store.insert_alert(&a1).unwrap();
    store.insert_alert(&a2).unwrap();
    let alerts = store.list_alerts(&AlertFilter::default()).unwrap();
    assert_eq!(alerts.len(), 2);
    assert_eq!(alerts[0].rule_name, "rule-b");
}

#[test]
fn test_list_alerts_filter_by_severity() {
    let mut store = InMemoryAlertStore::new();
    let mut a1 = sample_alert("info-rule", "00:11:22:33:44:55");
    a1.severity = Severity::Info;
    let mut a2 = sample_alert("warn-rule", "00:11:22:33:44:66");
    a2.severity = Severity::Warning;
    store.insert_alert(&a1).unwrap();
    store.insert_alert(&a2).unwrap();
    let filter = AlertFilter { severity: Some(Severity::Warning), ..Default::default() };
    let alerts = store.list_alerts(&filter).unwrap();
    assert_eq!(alerts.len(), 1);
    assert_eq!(alerts[0].rule_name, "warn-rule");
}

#[test]
fn test_acknowledge_and_suppression() {
    let mut store = InMemoryAlertStore::new();
    let alert = sample_alert("new-device", "00:11:22:33:44:55");
    let id = store.insert_alert(&alert).unwrap();
    let m = mac("00:11:22:33:44:55");
    assert!(!store.is_acknowledged("new-device", &m).unwrap());
    store.acknowledge_alert(id).unwrap();
    assert!(store.is_acknowledged("new-device", &m).unwrap());
}

#[test]
fn test_delete_alert() {
    let mut store = InMemoryAlertStore::new();
    let alert = sample_alert("new-device", "00:11:22:33:44:55");
    let id = store.insert_alert(&alert).unwrap();
    assert_eq!(store.count_alerts().unwrap(), 1);
    store.delete_alert(id).unwrap();
    assert_eq!(store.count_alerts().unwrap(), 0);
    assert!(store.get_alert(id).unwrap().is_none());
}

#[test]
fn test_list_alerts_limit() {
    let mut store = InMemoryAlertStore::new();
    for i in 0..10 {
        let m = mac(&format!("00:11:22:33:44:{i:02x}"));
        let alert = Alert::new("rule".to_string(), Severity::Info, AlertEventType::NewDevice, Device::new(m), "test".to_string());
        store.insert_alert(&alert).unwrap();
    }
    let filter = AlertFilter { limit: Some(3), ..Default::default() };
    let alerts = store.list_alerts(&filter).unwrap();
    assert_eq!(alerts.len(), 3);
}

#[test]
fn acknowledging_a_missing_alert_fails() {
    let mut store = InMemoryAlertStore::new();
    assert_eq!(store.acknowledge_alert(7), Err(StorageError::Internal("alert 7 not found".to_string())));
    assert_eq!(store.delete_alert(7), Ok(()));
}

#[test]
fn listing_ties_and_filters() {
    let mut store = InMemoryAlertStore::new();
    let t = Timestamp::from_millis(5000);
    for name in ["a", "b", "c"] {
        let mut al = sample_alert(name, "00:11:22:33:44:55");
        al.timestamp = t;
        store.insert_alert(&al).unwrap();
    }
    let all = store.list_alerts(&AlertFilter::default()).unwrap();
    let names: Vec<&str> = all.iter().map(|a| a.rule_name.as_str()).collect();
    assert_eq!(names, vec!["c", "b", "a"]);
    store.acknowledge_alert(2).unwrap();
    let acked = store.list_alerts(&AlertFilter { acknowledged: Some(true), ..Default::default() }).unwrap();
    assert_eq!(acked.len(), 1);
    assert_eq!(acked[0].rule_name, "b");
    let by_name = store.list_alerts(&AlertFilter { rule_name: Some("c".to_string()), ..Default::default() }).unwrap();
    assert_eq!(by_name.len(), 1);
    assert_eq!(store.list_alerts(&AlertFilter { limit: Some(0), ..Default::default() }).unwrap().len(), 0);
}

#[test]
fn test_memory_store_upsert_and_get() {
    let mut store = MemoryStore::new();
    let m = mac("00:11:22:33:44:55");
    let device = test_device("00:11:22:33:44:55");
    store.upsert(device.clone()).unwrap();
    let retrieved = store.get(&m).unwrap().unwrap();
    assert_eq!(retrieved.mac, m);
}

#[test]
fn test_memory_store_get_nonexistent() {
    let store = MemoryStore::new();
    let m = mac("00:11:22:33:44:55");
    let result = store.get(&m).unwrap();
    assert!(result.is_none());
}

#[test]
fn test_memory_store_list() {
    let mut store = MemoryStore::new();
    store.upsert(test_device("00:11:22:33:44:55")).unwrap();
    store.upsert(test_device("00:11:22:33:44:66")).unwrap();
    let devices = store.list().unwrap();
    assert_eq!(devices.len(), 2);
}

#[test]
fn test_memory_store_count() {
    let mut store = MemoryStore::new();
    assert_eq!(store.count().unwrap(), 0);
    store.upsert(test_device("00:11:22:33:44:55")).unwrap();
    assert_eq!(store.count().unwrap(), 1);
}

#[test]
fn test_memory_store_update_existing() {
    let mut store = MemoryStore::new();
    let m = mac("00:11:22:33:44:55");
    let mut device = test_device("00:11:22:33:44:55");
    device.record_sent(100, Protocol::Tcp, Timestamp::now());
    store.upsert(device).unwrap();
    let mut device2 = test_device("00:11:22:33:44:55");
    device2.record_sent(200, Protocol::Udp, Timestamp::now());
    store.upsert(device2).unwrap();
    let retrieved = store.get(&m).unwrap().unwrap();
    assert_eq!(retrieved.packet_count, 1);
    assert_eq!(retrieved.bytes_sent, 200);
}

#[test]
fn memory_store_lists_by_address() {
    let mut store = MemoryStore::new();
    store.upsert(test_device("00:11:22:33:44:66")).unwrap();
    store.upsert(test_device("00:11:22:33:44:55")).unwrap();
    store.upsert(test_device("aa:11:22:33:44:55")).unwrap();
    let devices = store.list().unwrap();
    let macs: Vec<String> = devices.iter().map(|d| d.mac.to_string()).collect();
    assert_eq!(macs, vec!["00:11:22:33:44:55", "00:11:22:33:44:66", "AA:11:22:33:44:55"]);
    assert_eq!(mac("00:00:00:00:01:02").key(), 0x0102);
}

#[test]
fn test_snapshot_from_device() {
    let mut device = test_device("00:11:22:33:44:55");
    device.hostname = Some("host".to_string());
    device.record_sent(10, Protocol::Tcp, Timestamp::now());
    let snap = DeviceHistorySnapshot::from_device(&device, "2024-01-15".to_string());
    assert_eq!(snap.mac, device.mac);
    assert_eq!(snap.snapshot_date, "2024-01-15");
    assert_eq!(snap.hostname.as_deref(), Some("host"));
    assert_eq!(snap.packet_count, 1);
    assert!(snap.protocols.contains(&Protocol::Tcp));
}

#[test]
fn test_snapshot_independent_of_device_changes() {
    let mut device = test_device("00:11:22:33:44:55");
    let snap = DeviceHistorySnapshot::from_device(&device, "2024-01-15".to_string());
    device.record_sent(10, Protocol::Tcp, Timestamp::now());
    assert_eq!(snap.packet_count, 0);
    assert!(snap.protocols.is_empty());
}

#[test]
fn test_timestamp_now() {
    let ts = Timestamp::now();
    let formatted = ts.to_string();
    assert!(formatted.contains('T'));
    assert!(formatted.ends_with('Z'));
}
