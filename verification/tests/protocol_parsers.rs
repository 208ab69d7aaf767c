use edgeshield::dhcp::parse_dhcp;
use edgeshield::mdns::{parse_mdns, RECORD_TYPE_PTR, RECORD_TYPE_SRV};
use edgeshield::ntp::parse_ntp;
use edgeshield::protocol::Protocol;

/// Build a minimal DHCP packet with a hostname option.
fn build_dhcp_payload(hostname: &str) -> Vec<u8> {
    let mut buf = vec![0u8; 240];
    buf.extend_from_slice(&[0x63, 0x82, 0x53, 0x63]);
    buf.push(53);
    buf.push(1);
    buf.push(3);
    buf.push(12);
    buf.push(hostname.len() as u8);
    buf.extend_from_slice(hostname.as_bytes());
    buf.push(255);
    buf
}

#[test]
fn test_dhcp_parse_hostname() {
    let payload = build_dhcp_payload("raspberrypi");
    let info = parse_dhcp(&payload).unwrap();
    assert_eq!(info.hostname.as_deref(), Some("raspberrypi"));
    assert_eq!(info.message_type, Some(3));
}

#[test]
fn test_dhcp_parse_empty_hostname() {
    let payload = build_dhcp_payload("");
    let info = parse_dhcp(&payload).unwrap();
    assert!(info.hostname.is_none());
}

#[test]
fn test_dhcp_parse_too_short() {
    let result = parse_dhcp(&[0u8; 10]);
    assert!(result.is_none());
}

#[test]
fn test_dhcp_parse_no_magic_cookie() {
    let mut payload = vec![0u8; 244];
    payload[240] = 0x00;
    payload[241] = 0x00;
    payload[242] = 0x00;
    payload[243] = 0x00;
    let result = parse_dhcp(&payload);
    assert!(result.is_none());
}

#[test]
fn test_dhcp_parse_vendor_class() {
    let mut buf = vec![0u8; 240];
    buf.extend_from_slice(&[0x63, 0x82, 0x53, 0x63]);
    buf.push(60);
    buf.push(9);
    buf.extend_from_slice(b"udhcp 1.0");
    buf.push(255);
    let info = parse_dhcp(&buf).unwrap();
    assert_eq!(info.vendor_class.as_deref(), Some("udhcp 1.0"));
}

#[test]
fn test_dhcp_parse_multiple_options() {
    let mut buf = vec![0u8; 240];
    buf.extend_from_slice(&[0x63, 0x82, 0x53, 0x63]);
    buf.push(53);
    buf.push(1);
    buf.push(2);
    buf.push(12);
    buf.push(5);
    buf.extend_from_slice(b"my-pc");
    buf.push(60);
    buf.push(6);
    buf.extend_from_slice(b"dhcpcd");
    buf.push(255);
    let info = parse_dhcp(&buf).unwrap();
    assert_eq!(info.hostname.as_deref(), Some("my-pc"));
    assert_eq!(info.vendor_class.as_deref(), Some("dhcpcd"));
    assert_eq!(info.message_type, Some(2));
}

#[test]
fn dhcp_options_after_end_are_ignored() {
    let mut buf = vec![0u8; 240];
    buf.extend_from_slice(&[0x63, 0x82, 0x53, 0x63]);
    buf.push(255);
    buf.push(12);
    buf.push(3);
    buf.extend_from_slice(b"abc");
    let info = parse_dhcp(&buf).unwrap();
    assert!(info.hostname.is_none());
    assert!(info.message_type.is_none());
}

#[test]
fn dhcp_empty_message_type_is_skipped() {
    let mut buf = vec![0u8; 240];
    buf.extend_from_slice(&[0x63, 0x82, 0x53, 0x63]);
    buf.extend_from_slice(&[53, 0]);
    let info = parse_dhcp(&buf).unwrap();
    assert!(info.message_type.is_none());
    assert!(info.hostname.is_none());
    assert!(info.vendor_class.is_none());
    buf.extend_from_slice(&[12, 2, b'h', b'i', 53, 1, 3]);
    let info = parse_dhcp(&buf).unwrap();
    assert_eq!(info.hostname.as_deref(), Some("hi"));
    assert_eq!(info.message_type, Some(3));
}

fn encode_name(buf: &mut Vec<u8>, name: &str) {
    for label in name.split('.') {
        buf.push(label.len() as u8);
        buf.extend_from_slice(label.as_bytes());
    }
    buf.push(0);
}

fn build_mdns_response(service_type: &str, instance: &str, hostname: &str) -> Vec<u8> {
    let mut buf = Vec::new();
    buf.extend_from_slice(&[0x00, 0x00]);
    buf.extend_from_slice(&[0x84, 0x00]);
    buf.extend_from_slice(&[0x00, 0x00]);
    buf.extend_from_slice(&[0x00, 0x02]);
    buf.extend_from_slice(&[0x00, 0x00]);
    buf.extend_from_slice(&[0x00, 0x00]);
    encode_name(&mut buf, service_type);
    buf.extend_from_slice(&RECORD_TYPE_PTR.to_be_bytes());
    buf.extend_from_slice(&[0x00, 0x01]);
    buf.extend_from_slice(&[0x00, 0x00, 0x00, 0x78]);
    let rdlen_pos = buf.len();
    buf.extend_from_slice(&[0x00, 0x00]);
    let rdata_start = buf.len();
    encode_name(&mut buf, instance);
    let rdlen = (buf.len() - rdata_start) as u16;
    buf[rdlen_pos..rdlen_pos + 2].copy_from_slice(&rdlen.to_be_bytes());
    encode_name(&mut buf, instance);
    buf.extend_from_slice(&RECORD_TYPE_SRV.to_be_bytes());
    buf.extend_from_slice(&[0x00, 0x01]);
    buf.extend_from_slice(&[0x00, 0x00, 0x00, 0x78]);
    let rdlen_pos = buf.len();
    buf.extend_from_slice(&[0x00, 0x00]);
    let rdata_start = buf.len();
    buf.extend_from_slice(&[0x00, 0x00]);
    buf.extend_from_slice(&[0x00, 0x00]);
    buf.extend_from_slice(&[0x1f, 0x90]);
    encode_name(&mut buf, hostname);
    let rdlen = (buf.len() - rdata_start) as u16;
    buf[rdlen_pos..rdlen_pos + 2].copy_from_slice(&rdlen.to_be_bytes());
    buf
}

#[test]
fn test_parse_mdns_extracts_hostname_and_instance() {
    let payload = build_mdns_response(
        "_airplay._tcp.local",
        "Living Room._airplay._tcp.local",
        "living-room-apple-tv.local",
    );
    let info = parse_mdns(&payload).expect("should parse");
    assert_eq!(info.hostname.as_deref(), Some("living-room-apple-tv.local"));
    assert_eq!(info.instance.as_deref(), Some("Living Room._airplay._tcp.local"));
    assert_eq!(info.service_type.as_deref(), Some("_airplay._tcp.local"));
}

#[test]
fn test_parse_mdns_too_short() {
    assert!(parse_mdns(&[0u8; 5]).is_none());
}

#[test]
fn test_parse_mdns_empty_response() {
    let payload = [
        0x00, 0x00, 0x84, 0x00, 0x00, 0x00, 0x00, 0x00, 0x00, 0x00, 0x00, 0x00,
    ];
    assert!(parse_mdns(&payload).is_none());
}

#[test]
fn test_parse_mdns_with_compression_pointer() {
    let service_type = "_airplay._tcp.local";
    let instance = "Living Room._airplay._tcp.local";
    let hostname = "apple-tv.local";
    let mut buf = Vec::new();
    buf.extend_from_slice(&[
        0x00, 0x00, 0x84, 0x00, 0x00, 0x00, 0x00, 0x02, 0x00, 0x00, 0x00, 0x00,
    ]);
    encode_name(&mut buf, service_type);
    buf.extend_from_slice(&RECORD_TYPE_PTR.to_be_bytes());
    buf.extend_from_slice(&[0x00, 0x01]);
    buf.extend_from_slice(&[0x00, 0x00, 0x00, 0x78]);
    let rdlen_pos = buf.len();
    buf.extend_from_slice(&[0x00, 0x00]);
    let rdata_start = buf.len();
    encode_name(&mut buf, instance);
    let rdlen = (buf.len() - rdata_start) as u16;
    buf[rdlen_pos..rdlen_pos + 2].copy_from_slice(&rdlen.to_be_bytes());
    buf.push(0xC0);
    buf.push(rdata_start as u8);
    buf.extend_from_slice(&RECORD_TYPE_SRV.to_be_bytes());
    buf.extend_from_slice(&[0x00, 0x01]);
    buf.extend_from_slice(&[0x00, 0x00, 0x00, 0x78]);
    let rdlen_pos = buf.len();
    buf.extend_from_slice(&[0x00, 0x00]);
    let rdata_start = buf.len();
    buf.extend_from_slice(&[0x00, 0x00, 0x00, 0x00, 0x00, 0x50]);
    encode_name(&mut buf, hostname);
    let rdlen = (buf.len() - rdata_start) as u16;
    buf[rdlen_pos..rdlen_pos + 2].copy_from_slice(&rdlen.to_be_bytes());
    let info = parse_mdns(&buf).expect("should parse with compression");
    assert_eq!(info.hostname.as_deref(), Some("apple-tv.local"));
    assert_eq!(info.instance.as_deref(), Some("Living Room._airplay._tcp.local"));
}

#[test]
fn test_parse_mdns_question_only() {
    let mut buf = Vec::new();
    buf.extend_from_slice(&[
        0x00, 0x00, 0x00, 0x00, 0x00, 0x01, 0x00, 0x00, 0x00, 0x00, 0x00, 0x00,
    ]);
    encode_name(&mut buf, "_airplay._tcp.local");
    buf.extend_from_slice(&[0x00, 0x0C]);
    buf.extend_from_slice(&[0x00, 0x01]);
    assert!(parse_mdns(&buf).is_none());
}

#[test]
fn test_parse_mdns_srv_only() {
    let mut buf = Vec::new();
    buf.extend_from_slice(&[
        0x00, 0x00, 0x84, 0x00, 0x00, 0x00, 0x00, 0x01, 0x00, 0x00, 0x00, 0x00,
    ]);
    encode_name(&mut buf, "printer._ipp._tcp.local");
    buf.extend_from_slice(&RECORD_TYPE_SRV.to_be_bytes());
    buf.extend_from_slice(&[0x00, 0x01]);
    buf.extend_from_slice(&[0x00, 0x00, 0x00, 0x78]);
    let rdlen_pos = buf.len();
    buf.extend_from_slice(&[0x00, 0x00]);
    let rdata_start = buf.len();
    buf.extend_from_slice(&[0x00, 0x00, 0x00, 0x00, 0x06, 0x51]);
    encode_name(&mut buf, "hp-printer.local");
    let rdlen = (buf.len() - rdata_start) as u16;
    buf[rdlen_pos..rdlen_pos + 2].copy_from_slice(&rdlen.to_be_bytes());
    let info = parse_mdns(&buf).expect("should parse");
    assert_eq!(info.hostname.as_deref(), Some("hp-printer.local"));
    assert!(info.instance.is_none());
}

#[test]
fn test_parse_mdns_truncated_record() {
    let payload = [
        0x00, 0x00, 0x84, 0x00, 0x00, 0x00, 0x00, 0x01, 0x00, 0x00, 0x00, 0x00, 0x00,
    ];
    assert!(parse_mdns(&payload).is_none());
}

#[test]
fn mdns_pointer_loop_does_not_hang() {
    let mut buf = vec![0x00, 0x00, 0x84, 0x00, 0x00, 0x00, 0x00, 0x01, 0x00, 0x00, 0x00, 0x00];
    buf.push(0xC0);
    buf.push(12);
    buf.extend_from_slice(&[0x00, 0x0C, 0x00, 0x01, 0x00, 0x00, 0x00, 0x78, 0x00, 0x02, 0xC0, 12]);
    assert!(parse_mdns(&buf).is_none());
}

fn build_ntp_request(version: u8, mode: u8, leap: u8) -> Vec<u8> {
    let mut buf = vec![0u8; 48];
    let first_byte = (leap << 6) | (version << 3) | mode;
    buf[0] = first_byte;
    buf[1] = 1;
    buf
}

#[test]
fn test_parse_ntp_v4_client_request() {
    let payload = build_ntp_request(4, 3, 0);
    let info = parse_ntp(&payload).unwrap();
    assert_eq!(info.version, 4);
    assert_eq!(info.mode, 3);
    assert_eq!(info.leap_indicator, 0);
}

#[test]
fn test_parse_ntp_v3_server_response() {
    let payload = build_ntp_request(3, 4, 0);
    let info = parse_ntp(&payload).unwrap();
    assert_eq!(info.version, 3);
    assert_eq!(info.mode, 4);
}

#[test]
fn test_parse_ntp_leap_indicator_extracted() {
    let payload = build_ntp_request(4, 3, 3);
    let info = parse_ntp(&payload).unwrap();
    assert_eq!(info.leap_indicator, 3);
}

#[test]
fn test_parse_ntp_too_short() {
    assert!(parse_ntp(&[0u8; 47]).is_none());
}

#[test]
fn test_parse_ntp_invalid_version() {
    let payload = build_ntp_request(2, 3, 0);
    assert!(parse_ntp(&payload).is_none());
    let payload = build_ntp_request(5, 3, 0);
    assert!(parse_ntp(&payload).is_none());
}

#[test]
fn test_parse_ntp_invalid_mode() {
    let payload = build_ntp_request(4, 0, 0);
    assert!(parse_ntp(&payload).is_none());
    let payload = build_ntp_request(4, 7, 0);
    assert!(parse_ntp(&payload).is_none());
}

#[test]
fn test_parse_ntp_all_valid_modes() {
    for mode in 1..=6 {
        let payload = build_ntp_request(4, mode, 0);
        let info = parse_ntp(&payload).unwrap();
        assert_eq!(info.mode, mode);
    }
}

#[test]
fn test_protocol_display() {
    assert_eq!(Protocol::Arp.to_string(), "ARP");
    assert_eq!(Protocol::Tcp.to_string(), "TCP");
    assert_eq!(Protocol::Dns.to_string(), "DNS");
    assert_eq!(Protocol::Other(42).to_string(), "UNKNOWN(42)");
}

#[test]
fn protocol_names_read_back() {
    let all = [
        Protocol::Arp,
        Protocol::Ipv4,
        Protocol::Icmp,
        Protocol::Tcp,
        Protocol::Udp,
        Protocol::Dns,
        Protocol::Dhcp,
        Protocol::Http,
        Protocol::Https,
        Protocol::Mdns,
        Protocol::Ntp,
        Protocol::Other(0),
        Protocol::Other(255),
    ];
    for p in all {
        assert_eq!(Protocol::from_str(&p.to_string()), Ok(p));
    }
    assert_eq!(Protocol::from_str("mDNS"), Ok(Protocol::Mdns));
    assert_eq!(Protocol::from_str("UNKNOWN(256)"), Err("unknown protocol: UNKNOWN(256)".to_string()));
    assert_eq!(Protocol::from_str("tcp"), Err("unknown protocol: tcp".to_string()));
}
