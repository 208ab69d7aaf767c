use edgeshield::classifier::{classify, classify_tcp, classify_udp};
use edgeshield::decode::{decode_arp, decode_packet, linktype_to_header_len, PacketBuf, TransportHeader};
use edgeshield::error::PacketError;
use edgeshield::protocol::Protocol;
use edgeshield::types::IpAddr;

fn ip(s: &str) -> IpAddr {
    let parts: Vec<u8> = s.split('.').map(|p| p.parse::<u8>().unwrap()).collect();
    IpAddr::v4(parts[0], parts[1], parts[2], parts[3])
}

fn build_test_packet() -> Vec<u8> {
    let mut buf = Vec::with_capacity(54);
    buf.extend_from_slice(&[0x00; 6]);
    buf.extend_from_slice(&[0x00; 6]);
    buf.extend_from_slice(&[0x08, 0x00]);
    buf.push(0x45);
    buf.push(0x00);
    buf.extend_from_slice(&[0x00, 0x34]);
    buf.extend_from_slice(&[0x00, 0x00]);
    buf.extend_from_slice(&[0x40, 0x00]);
    buf.push(0x40);
    buf.push(0x06);
    buf.extend_from_slice(&[0x00, 0x00]);
    buf.extend_from_slice(&[0xc0, 0xa8, 0x01, 0x01]);
    buf.extend_from_slice(&[0xc0, 0xa8, 0x01, 0x02]);
    buf.extend_from_slice(&[0x1f, 0x90]);
    buf.extend_from_slice(&[0x00, 0x50]);
    buf.extend_from_slice(&[0x00, 0x00, 0x00, 0x00]);
    buf.extend_from_slice(&[0x00, 0x00, 0x00, 0x00]);
    buf.push(0x50);
    buf.push(0x00);
    buf.extend_from_slice(&[0xff, 0xff]);
    buf.extend_from_slice(&[0x00, 0x00]);
    buf.extend_from_slice(&[0x00, 0x00]);
    buf
}

#[test]
fn test_decode_ethernet_ipv4_tcp() {
    let data = build_test_packet();
    let buf = PacketBuf::new(data, 14);
    let decoded = decode_packet(&buf).unwrap();
    assert_eq!(decoded.ethernet.ethertype, 0x0800);
    assert!(decoded.ipv4.is_some());
    let ip4 = decoded.ipv4.as_ref().unwrap();
    assert_eq!(ip4.source, ip("192.168.1.1"));
    assert_eq!(ip4.destination, ip("192.168.1.2"));
    assert_eq!(ip4.protocol, 6);
    let transport = decoded.transport.as_ref().unwrap();
    match transport {
        TransportHeader::Tcp(tcp) => {
            assert_eq!(tcp.source_port, 8080);
            assert_eq!(tcp.destination_port, 80);
        }
        _ => panic!("expected TCP"),
    }
}

#[test]
fn test_decode_ethernet_only() {
    let mut buf = Vec::with_capacity(14);
    buf.extend_from_slice(&[0x00; 6]);
    buf.extend_from_slice(&[0x00; 6]);
    buf.extend_from_slice(&[0x08, 0x06]);
    let packet_buf = PacketBuf::new(buf, 14);
    let decoded = decode_packet(&packet_buf).unwrap();
    assert_eq!(decoded.ethernet.ethertype, 0x0806);
    assert!(decoded.ipv4.is_none());
    assert!(decoded.transport.is_none());
}

#[test]
fn test_decode_truncated_packet() {
    let buf = PacketBuf::new(vec![0x00, 0x01, 0x02], 14);
    let result = decode_packet(&buf);
    assert!(result.is_err());
}

#[test]
fn decode_errors_name_the_missing_header() {
    let buf = PacketBuf::new(vec![0x00, 0x01, 0x02], 14);
    assert_eq!(decode_packet(&buf).unwrap_err(), PacketError::Truncated { expected: 14, actual: 3 });
    let mut data = vec![0u8; 12];
    data.extend_from_slice(&[0x08, 0x00, 0x45]);
    let buf = PacketBuf::new(data, 14);
    assert_eq!(decode_packet(&buf).unwrap_err(), PacketError::Truncated { expected: 20, actual: 1 });
    let mut data = build_test_packet();
    data.truncate(14 + 20 + 10);
    let buf = PacketBuf::new(data, 14);
    assert_eq!(decode_packet(&buf).unwrap_err(), PacketError::Truncated { expected: 20, actual: 10 });
    assert_eq!(
        PacketError::Truncated { expected: 20, actual: 10 }.to_string(),
        "packet too short: expected at least 20 bytes, got 10"
    );
}

#[test]
fn decode_payload_follows_headers() {
    let mut data = build_test_packet();
    data.extend_from_slice(b"hello");
    let buf = PacketBuf::new(data, 14);
    let decoded = decode_packet(&buf).unwrap();
    assert_eq!(decoded.payload, b"hello".to_vec());
}

#[test]
fn header_length_past_the_frame_is_truncated() {
    let mut data = build_test_packet();
    data[14] = 0x4f;
    data.truncate(14 + 40);
    let buf = PacketBuf::new(data, 14);
    assert_eq!(decode_packet(&buf).unwrap_err(), PacketError::Truncated { expected: 60, actual: 40 });
    let mut short = vec![0u8; 12];
    short.extend_from_slice(&[0x08, 0x00, 0x4F, 0, 0, 0x14, 0, 0, 0, 0, 0x40, 6, 0, 0, 10, 0, 0, 1, 10, 0, 0, 2]);
    let buf = PacketBuf::new(short, 14);
    assert_eq!(decode_packet(&buf).unwrap_err(), PacketError::Truncated { expected: 60, actual: 20 });
    let mut long_tcp = build_test_packet();
    long_tcp[46] = 0xf0;
    let buf = PacketBuf::new(long_tcp, 14);
    assert_eq!(decode_packet(&buf).unwrap_err(), PacketError::Truncated { expected: 60, actual: 20 });
    let ok = PacketBuf::new(build_test_packet(), 14);
    assert!(decode_packet(&ok).is_ok());
}

#[test]
fn link_types_and_network_payload() {
    assert_eq!(linktype_to_header_len(1), 14);
    assert_eq!(linktype_to_header_len(12), 0);
    assert_eq!(linktype_to_header_len(113), 16);
    assert_eq!(linktype_to_header_len(999), 14);
    let buf = PacketBuf::new(vec![1, 2, 3, 4], 2);
    assert_eq!(buf.network_payload(), &[3u8, 4][..]);
    let short = PacketBuf::new(vec![1], 14);
    assert!(short.network_payload().is_empty());
}

#[test]
fn arp_fields_are_read() {
    let data = hex_to_bytes("00 01 08 00 06 04 00 01 00 11 22 33 44 55 c0 a8 01 0a 00 00 00 00 00 00 c0 a8 01 01");
    let arp = decode_arp(&data).unwrap();
    assert_eq!(arp.operation, 1);
    assert_eq!(arp.sender_hw_addr, [0x00, 0x11, 0x22, 0x33, 0x44, 0x55]);
    assert_eq!(arp.sender_proto_addr, 0xc0a8010a);
    assert_eq!(arp.target_proto_addr, 0xc0a80101);
    assert_eq!(decode_arp(&data[..27]).unwrap_err(), PacketError::Truncated { expected: 28, actual: 27 });
}

fn hex_to_bytes(hex: &str) -> Vec<u8> {
    let cleaned: String = hex.chars().filter(|c| !c.is_whitespace()).collect();
    (0..cleaned.len())
        .step_by(2)
        .map(|i| u8::from_str_radix(&cleaned[i..i + 2], 16).unwrap())
        .collect()
}

fn fixture_buf(hex: &str) -> PacketBuf {
    PacketBuf::new(hex_to_bytes(hex), 14)
}

const TCP_SYN_FIXTURE: &str = "\
    aa bb cc dd ee ff \
    00 11 22 33 44 55 \
    08 00 \
    45 00 00 3c 00 01 40 00 40 06 00 00 c0 a8 01 0a \
    5d b8 d8 22 \
    d4 31 00 50 00 00 00 01 00 00 00 00 50 02 ff ff \
    00 00 00 00";

const DNS_QUERY_FIXTURE: &str = "\
    aa bb cc dd ee ff \
    00 11 22 33 44 55 \
    08 00 \
    45 00 00 2c 00 02 40 00 40 11 00 00 c0 a8 01 0a \
    08 08 08 08 \
    d4 31 00 35 00 18 00 00 \
    12 34 01 00 00 01 00 00 00 00 00 00 07 65 78 61 \
    6d 70 6c 65 03 63 6f 6d 00 00 01 00 01";

const ARP_REQUEST_FIXTURE: &str = "\
    ff ff ff ff ff ff \
    00 11 22 33 44 55 \
    08 06 \
    00 01 08 00 06 04 00 01 \
    00 11 22 33 44 55 c0 a8 01 0a \
    00 00 00 00 00 00 c0 a8 01 01";

const ICMP_ECHO_FIXTURE: &str = "\
    aa bb cc dd ee ff \
    00 11 22 33 44 55 \
    08 00 \
    45 00 00 54 00 03 40 00 40 01 00 00 c0 a8 01 0a \
    08 08 08 08 \
    08 00 12 34 00 01 00 02 61 62 63 64 65 66 67 68 \
    69 6a 6b 6c 6d 6e 6f 70 71 72 73 74 75 76 77 61 \
    62 63 64 65 66 67 68 69";

#[test]
fn test_fixture_tcp_syn() {
    let buf = fixture_buf(TCP_SYN_FIXTURE);
    let decoded = decode_packet(&buf).expect("TCP SYN fixture should decode");
    assert_eq!(decoded.ethernet.source, [0x00, 0x11, 0x22, 0x33, 0x44, 0x55]);
    assert_eq!(decoded.ethernet.destination, [0xaa, 0xbb, 0xcc, 0xdd, 0xee, 0xff]);
    assert_eq!(decoded.ethernet.ethertype, 0x0800);
    let ip4 = decoded.ipv4.expect("TCP SYN fixture should have IPv4 header");
    assert_eq!(ip4.source, ip("192.168.1.10"));
    assert_eq!(ip4.destination, ip("93.184.216.34"));
    assert_eq!(ip4.protocol, 6);
    assert_eq!(ip4.total_length, 60);
    let transport = decoded.transport.expect("TCP SYN fixture should have transport header");
    match transport {
        TransportHeader::Tcp(tcp) => {
            assert_eq!(tcp.source_port, 54321);
            assert_eq!(tcp.destination_port, 80);
        }
        other => panic!("expected TCP, got {:?}", other),
    }
}

#[test]
fn test_fixture_dns_query() {
    let buf = fixture_buf(DNS_QUERY_FIXTURE);
    let decoded = decode_packet(&buf).expect("DNS fixture should decode");
    assert_eq!(decoded.ethernet.ethertype, 0x0800);
    let ip4 = decoded.ipv4.expect("DNS fixture should have IPv4 header");
    assert_eq!(ip4.source, ip("192.168.1.10"));
    assert_eq!(ip4.destination, ip("8.8.8.8"));
    assert_eq!(ip4.protocol, 17);
    let transport = decoded.transport.expect("DNS fixture should have transport header");
    match transport {
        TransportHeader::Udp(udp) => {
            assert_eq!(udp.source_port, 54321);
            assert_eq!(udp.destination_port, 53);
        }
        other => panic!("expected UDP, got {:?}", other),
    }
}

#[test]
fn test_fixture_arp_request() {
    let buf = fixture_buf(ARP_REQUEST_FIXTURE);
    let decoded = decode_packet(&buf).expect("ARP fixture should decode");
    assert_eq!(decoded.ethernet.source, [0x00, 0x11, 0x22, 0x33, 0x44, 0x55]);
    assert_eq!(decoded.ethernet.destination, [0xff, 0xff, 0xff, 0xff, 0xff, 0xff]);
    assert_eq!(decoded.ethernet.ethertype, 0x0806);
    assert!(decoded.ipv4.is_none(), "ARP should not have IPv4 header");
    assert!(decoded.transport.is_none(), "ARP should not have transport header");
}

#[test]
fn test_fixture_icmp_echo() {
    let buf = fixture_buf(ICMP_ECHO_FIXTURE);
    let decoded = decode_packet(&buf).expect("ICMP fixture should decode");
    assert_eq!(decoded.ethernet.ethertype, 0x0800);
    let ip4 = decoded.ipv4.expect("ICMP fixture should have IPv4 header");
    assert_eq!(ip4.source, ip("192.168.1.10"));
    assert_eq!(ip4.destination, ip("8.8.8.8"));
    assert_eq!(ip4.protocol, 1);
    let transport = decoded.transport.expect("ICMP fixture should have transport header");
    match transport {
        TransportHeader::Icmp(icmp) => {
            assert_eq!(icmp.icmp_type, 8);
            assert_eq!(icmp.icmp_code, 0);
        }
        other => panic!("expected ICMP, got {:?}", other),
    }
}

#[test]
fn test_fixture_all_decode_without_panic() {
    for (name, hex) in &[
        ("TCP_SYN", TCP_SYN_FIXTURE),
        ("DNS_QUERY", DNS_QUERY_FIXTURE),
        ("ARP_REQUEST", ARP_REQUEST_FIXTURE),
        ("ICMP_ECHO", ICMP_ECHO_FIXTURE),
    ] {
        let buf = fixture_buf(hex);
        let result = decode_packet(&buf);
        assert!(result.is_ok(), "fixture '{}' should decode: {:?}", name, result.err());
    }
}

#[test]
fn test_fixture_truncated_packet_returns_error() {
    let buf = PacketBuf::new(vec![0x00, 0x01, 0x02], 14);
    let result = decode_packet(&buf);
    assert!(result.is_err(), "truncated packet should return error");
}

fn build_udp_packet(src_port: u16, dst_port: u16) -> PacketBuf {
    let mut buf = Vec::with_capacity(42);
    buf.extend_from_slice(&[0x00; 6]);
    buf.extend_from_slice(&[0x00; 6]);
    buf.extend_from_slice(&[0x08, 0x00]);
    buf.push(0x45);
    buf.push(0x00);
    buf.extend_from_slice(&[0x00, 0x2a]);
    buf.extend_from_slice(&[0x00, 0x00]);
    buf.extend_from_slice(&[0x40, 0x00]);
    buf.push(0x40);
    buf.push(0x11);
    buf.extend_from_slice(&[0x00, 0x00]);
    buf.extend_from_slice(&[0xc0, 0xa8, 0x01, 0x01]);
    buf.extend_from_slice(&[0xc0, 0xa8, 0x01, 0x02]);
    buf.extend_from_slice(&src_port.to_be_bytes());
    buf.extend_from_slice(&dst_port.to_be_bytes());
    buf.extend_from_slice(&[0x00, 0x10]);
    buf.extend_from_slice(&[0x00, 0x00]);
    PacketBuf::new(buf, 14)
}

fn build_tcp_packet(src_port: u16, dst_port: u16) -> PacketBuf {
    let mut buf = Vec::with_capacity(54);
    buf.extend_from_slice(&[0x00; 6]);
    buf.extend_from_slice(&[0x00; 6]);
    buf.extend_from_slice(&[0x08, 0x00]);
    buf.push(0x45);
    buf.push(0x00);
    buf.extend_from_slice(&[0x00, 0x34]);
    buf.extend_from_slice(&[0x00, 0x00]);
    buf.extend_from_slice(&[0x40, 0x00]);
    buf.push(0x40);
    buf.push(0x06);
    buf.extend_from_slice(&[0x00, 0x00]);
    buf.extend_from_slice(&[0xc0, 0xa8, 0x01, 0x01]);
    buf.extend_from_slice(&[0xc0, 0xa8, 0x01, 0x02]);
    buf.extend_from_slice(&src_port.to_be_bytes());
    buf.extend_from_slice(&dst_port.to_be_bytes());
    buf.extend_from_slice(&[0x00, 0x00, 0x00, 0x01]);
    buf.extend_from_slice(&[0x00, 0x00, 0x00, 0x00]);
    buf.push(0x50);
    buf.push(0x02);
    buf.extend_from_slice(&[0xff, 0xff]);
    buf.extend_from_slice(&[0x00, 0x00]);
    buf.extend_from_slice(&[0x00, 0x00]);
    PacketBuf::new(buf, 14)
}

fn build_arp_packet() -> PacketBuf {
    let mut buf = Vec::with_capacity(42);
    buf.extend_from_slice(&[0x00; 6]);
    buf.extend_from_slice(&[0x00; 6]);
    buf.extend_from_slice(&[0x08, 0x06]);
    buf.extend_from_slice(&[0x00; 28]);
    PacketBuf::new(buf, 14)
}

fn build_icmp_packet() -> PacketBuf {
    let mut buf = Vec::with_capacity(42);
    buf.extend_from_slice(&[0x00; 6]);
    buf.extend_from_slice(&[0x00; 6]);
    buf.extend_from_slice(&[0x08, 0x00]);
    buf.push(0x45);
    buf.push(0x00);
    buf.extend_from_slice(&[0x00, 0x1c]);
    buf.extend_from_slice(&[0x00, 0x00]);
    buf.extend_from_slice(&[0x40, 0x00]);
    buf.push(0x40);
    buf.push(0x01);
    buf.extend_from_slice(&[0x00, 0x00]);
    buf.extend_from_slice(&[0xc0, 0xa8, 0x01, 0x01]);
    buf.extend_from_slice(&[0xc0, 0xa8, 0x01, 0x02]);
    buf.push(0x08);
    buf.push(0x00);
    buf.extend_from_slice(&[0x00, 0x00]);
    PacketBuf::new(buf, 14)
}

#[test]
fn test_classify_arp() {
    let buf = build_arp_packet();
    let decoded = decode_packet(&buf).unwrap();
    assert_eq!(classify(&decoded), Protocol::Arp);
}

#[test]
fn test_classify_udp() {
    let buf = build_udp_packet(12345, 54321);
    let decoded = decode_packet(&buf).unwrap();
    assert_eq!(classify(&decoded), Protocol::Udp);
}

#[test]
fn test_classify_dns_udp() {
    let buf = build_udp_packet(53, 12345);
    let decoded = decode_packet(&buf).unwrap();
    assert_eq!(classify(&decoded), Protocol::Dns);
}

#[test]
fn test_classify_dns_tcp() {
    let buf = build_tcp_packet(12345, 53);
    let decoded = decode_packet(&buf).unwrap();
    assert_eq!(classify(&decoded), Protocol::Dns);
}

#[test]
fn test_classify_dhcp_server() {
    let buf = build_udp_packet(67, 12345);
    let decoded = decode_packet(&buf).unwrap();
    assert_eq!(classify(&decoded), Protocol::Dhcp);
}

#[test]
fn test_classify_dhcp_client() {
    let buf = build_udp_packet(12345, 68);
    let decoded = decode_packet(&buf).unwrap();
    assert_eq!(classify(&decoded), Protocol::Dhcp);
}

#[test]
fn test_classify_http() {
    let buf = build_tcp_packet(12345, 80);
    let decoded = decode_packet(&buf).unwrap();
    assert_eq!(classify(&decoded), Protocol::Http);
}

#[test]
fn test_classify_https() {
    let buf = build_tcp_packet(12345, 443);
    let decoded = decode_packet(&buf).unwrap();
    assert_eq!(classify(&decoded), Protocol::Https);
}

#[test]
fn test_classify_mdns() {
    let buf = build_udp_packet(5353, 12345);
    let decoded = decode_packet(&buf).unwrap();
    assert_eq!(classify(&decoded), Protocol::Mdns);
}

#[test]
fn test_classify_ntp() {
    let buf = build_udp_packet(123, 12345);
    let decoded = decode_packet(&buf).unwrap();
    assert_eq!(classify(&decoded), Protocol::Ntp);
}

#[test]
fn test_classify_icmp() {
    let buf = build_icmp_packet();
    let decoded = decode_packet(&buf).unwrap();
    assert_eq!(classify(&decoded), Protocol::Icmp);
}

#[test]
fn classification_priorities_and_fallbacks() {
    assert_eq!(classify_tcp(80, 443), Protocol::Http);
    assert_eq!(classify_tcp(53, 80), Protocol::Dns);
    assert_eq!(classify_tcp(1000, 2000), Protocol::Tcp);
    assert_eq!(classify_udp(5353, 123), Protocol::Mdns);
    assert_eq!(classify_udp(68, 53), Protocol::Dns);
    assert_eq!(classify_udp(1000, 2000), Protocol::Udp);
    let mut data = vec![0u8; 12];
    data.extend_from_slice(&[0x86, 0xdd]);
    let buf = PacketBuf::new(data, 14);
    assert_eq!(classify(&decode_packet(&buf).unwrap()), Protocol::Other(0));
}
