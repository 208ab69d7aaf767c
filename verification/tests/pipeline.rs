use edgeshield::decode::PacketBuf;
use edgeshield::device_store::{DeviceStore, MemoryStore};
use edgeshield::discovery::{begin_frame, observe, process_frame, receiver_read, sender_read, update_sender, DeviceChange};
use edgeshield::protocol::Protocol;
use edgeshield::rules::DiscoveryEvent;
use edgeshield::types::{IpAddr, MacAddress, Timestamp};

fn build_tcp_packet(src_mac: &[u8; 6], dst_mac: &[u8; 6], src_ip: &[u8; 4], dst_ip: &[u8; 4], src_port: u16, dst_port: u16) -> Vec<u8> {
    let mut buf = Vec::with_capacity(54);
    buf.extend_from_slice(dst_mac);
    buf.extend_from_slice(src_mac);
    buf.extend_from_slice(&[0x08, 0x00]);
    buf.push(0x45);
    buf.push(0x00);
    buf.extend_from_slice(&0u16.to_be_bytes());
    buf.extend_from_slice(&[0x00, 0x01]);
    buf.extend_from_slice(&[0x40, 0x00]);
    buf.push(0x40);
    buf.push(0x06);
    buf.extend_from_slice(&[0x00, 0x00]);
    buf.extend_from_slice(src_ip);
    buf.extend_from_slice(dst_ip);
    buf.extend_from_slice(&src_port.to_be_bytes());
    buf.extend_from_slice(&dst_port.to_be_bytes());
    buf.extend_from_slice(&[0x00, 0x00, 0x00, 0x01]);
    buf.extend_from_slice(&[0x00, 0x00, 0x00, 0x00]);
    buf.push(0x50);
    buf.push(0x02);
    buf.extend_from_slice(&[0xff, 0xff]);
    buf.extend_from_slice(&[0x00, 0x00]);
    buf.extend_from_slice(&[0x00, 0x00]);
    let total_len = buf.len() as u16;
    buf[16] = (total_len >> 8) as u8;
    buf[17] = (total_len & 0xff) as u8;
    buf
}

fn build_arp_packet(src_mac: &[u8; 6], src_ip: &[u8; 4]) -> Vec<u8> {
    let mut buf = Vec::with_capacity(42);
    buf.extend_from_slice(&[0xff, 0xff, 0xff, 0xff, 0xff, 0xff]);
    buf.extend_from_slice(src_mac);
    buf.extend_from_slice(&[0x08, 0x06]);
    buf.extend_from_slice(&[0x00, 0x01]);
    buf.extend_from_slice(&[0x08, 0x00]);
    buf.push(0x06);
    buf.push(0x04);
    buf.extend_from_slice(&[0x00, 0x01]);
    buf.extend_from_slice(src_mac);
    buf.extend_from_slice(src_ip);
    buf.extend_from_slice(&[0x00, 0x00, 0x00, 0x00, 0x00, 0x00]);
    buf.extend_from_slice(&[0xc0, 0xa8, 0x01, 0x01]);
    buf
}

fn build_dns_packet(src_mac: &[u8; 6], dst_mac: &[u8; 6]) -> Vec<u8> {
    let mut buf = Vec::with_capacity(64);
    buf.extend_from_slice(dst_mac);
    buf.extend_from_slice(src_mac);
    buf.extend_from_slice(&[0x08, 0x00]);
    buf.push(0x45);
    buf.push(0x00);
    buf.extend_from_slice(&0u16.to_be_bytes());
    buf.extend_from_slice(&[0x00, 0x02]);
    buf.extend_from_slice(&[0x40, 0x00]);
    buf.push(0x40);
    buf.push(0x11);
    buf.extend_from_slice(&[0x00, 0x00]);
    buf.extend_from_slice(&[0xc0, 0xa8, 0x01, 0x0a]);
    buf.extend_from_slice(&[0x08, 0x08, 0x08, 0x08]);
    buf.extend_from_slice(&[0x00, 0x35]);
    buf.extend_from_slice(&[0x00, 0x35]);
    buf.extend_from_slice(&[0x00, 0x10]);
    buf.extend_from_slice(&[0x00, 0x00]);
    let total_len = buf.len() as u16;
    buf[16] = (total_len >> 8) as u8;
    buf[17] = (total_len & 0xff) as u8;
    buf
}

fn now() -> Timestamp {
    Timestamp::from_millis(1_700_000_000_000)
}

#[test]
fn test_pipeline_tcp_packet() {
    let mut store = MemoryStore::new();
    let src_mac = [0x00, 0x11, 0x22, 0x33, 0x44, 0x55];
    let dst_mac = [0xaa, 0xbb, 0xcc, 0xdd, 0xee, 0xff];
    let src_ip = [192, 168, 1, 10];
    let dst_ip = [10, 0, 0, 1];
    let raw = build_tcp_packet(&src_mac, &dst_mac, &src_ip, &dst_ip, 12345, 23456);
    let buf = PacketBuf::new(raw, 14);
    process_frame(&mut store, &buf, now()).unwrap();

    let src_device = store.get(&MacAddress::new(src_mac)).unwrap().expect("source device should exist");
    assert_eq!(src_device.packet_count, 1, "source should have 1 packet");
    assert!(src_device.bytes_sent > 0, "source should have bytes sent");
    assert!(src_device.protocols.contains(&Protocol::Tcp), "source should have TCP protocol");
    assert!(src_device.ips.contains(&IpAddr::v4(192, 168, 1, 10)), "source should have its IP");

    let dst_device = store.get(&MacAddress::new(dst_mac)).unwrap().expect("destination device should exist");
    assert_eq!(dst_device.packet_count, 1, "destination should have 1 packet");
    assert!(dst_device.bytes_received > 0, "destination should have bytes received");
    assert!(dst_device.protocols.contains(&Protocol::Tcp), "destination should have TCP protocol");
}

#[test]
fn test_pipeline_arp_packet() {
    let mut store = MemoryStore::new();
    let src_mac = [0x00, 0x11, 0x22, 0x33, 0x44, 0x55];
    let src_ip = [192, 168, 1, 10];
    let raw = build_arp_packet(&src_mac, &src_ip);
    process_frame(&mut store, &PacketBuf::new(raw, 14), now()).unwrap();
    let device = store.get(&MacAddress::new(src_mac)).unwrap().expect("ARP sender should be discovered");
    assert!(device.protocols.contains(&Protocol::Arp), "ARP sender should have ARP protocol");
    assert_eq!(device.packet_count, 1);
}

#[test]
fn test_pipeline_dns_packet() {
    let mut store = MemoryStore::new();
    let src_mac = [0x00, 0x11, 0x22, 0x33, 0x44, 0x55];
    let dst_mac = [0xaa, 0xbb, 0xcc, 0xdd, 0xee, 0xff];
    let raw = build_dns_packet(&src_mac, &dst_mac);
    process_frame(&mut store, &PacketBuf::new(raw, 14), now()).unwrap();
    let device = store.get(&MacAddress::new(src_mac)).unwrap().expect("DNS sender should be discovered");
    assert!(device.protocols.contains(&Protocol::Dns), "DNS sender should have DNS protocol");
}

#[test]
fn test_pipeline_multiple_packets_same_device() {
    let mut store = MemoryStore::new();
    let src_mac = [0x00, 0x11, 0x22, 0x33, 0x44, 0x55];
    let dst_mac = [0xaa, 0xbb, 0xcc, 0xdd, 0xee, 0xff];
    let src_ip = [192, 168, 1, 10];
    let dst_ip = [10, 0, 0, 1];
    for _ in 0..3 {
        let raw = build_tcp_packet(&src_mac, &dst_mac, &src_ip, &dst_ip, 12345, 23456);
        process_frame(&mut store, &PacketBuf::new(raw, 14), now()).unwrap();
    }
    let device = store.get(&MacAddress::new(src_mac)).unwrap().expect("device should exist");
    assert_eq!(device.packet_count, 3, "device should have 3 packets after 3 sends");
}

#[test]
fn test_pipeline_multiple_devices() {
    let mut store = MemoryStore::new();
    let devices = [
        ([0x00, 0x11, 0x22, 0x33, 0x44, 0x55], [192, 168, 1, 10]),
        ([0x00, 0x11, 0x22, 0x33, 0x44, 0x66], [192, 168, 1, 11]),
        ([0x00, 0x11, 0x22, 0x33, 0x44, 0x77], [192, 168, 1, 12]),
    ];
    for (mac, ip) in &devices {
        let raw = build_arp_packet(mac, ip);
        process_frame(&mut store, &PacketBuf::new(raw, 14), now()).unwrap();
    }
    let all = store.list().unwrap();
    assert_eq!(all.len(), 4, "should have 3 devices + broadcast MAC");
    for (mac, _) in &devices {
        let addr = MacAddress::new(*mac);
        assert!(store.get(&addr).unwrap().is_some(), "device {} should exist", addr.to_string());
    }
}

#[test]
fn discovery_events_for_new_devices_and_protocols() {
    let mut store = MemoryStore::new();
    let src_mac = [0x00, 0x11, 0x22, 0x33, 0x44, 0x55];
    let dst_mac = [0xaa, 0xbb, 0xcc, 0xdd, 0xee, 0xff];
    let tcp = build_tcp_packet(&src_mac, &dst_mac, &[192, 168, 1, 10], &[10, 0, 0, 1], 12345, 23456);
    let events = process_frame(&mut store, &PacketBuf::new(tcp.clone(), 14), now()).unwrap();
    assert_eq!(events.len(), 2);
    assert!(matches!(&events[0], DiscoveryEvent::DeviceDiscovered(d) if d.mac == MacAddress::new(src_mac)));
    assert!(matches!(&events[1], DiscoveryEvent::DeviceDiscovered(d) if d.mac == MacAddress::new(dst_mac)));
    let events = process_frame(&mut store, &PacketBuf::new(tcp, 14), now()).unwrap();
    assert!(events.is_empty());
    let dns = build_dns_packet(&src_mac, &dst_mac);
    let events = process_frame(&mut store, &PacketBuf::new(dns, 14), now()).unwrap();
    assert_eq!(events.len(), 2);
    assert!(matches!(&events[0], DiscoveryEvent::DeviceUpdated(d) if d.protocols.contains(&Protocol::Dns)));
    let events = process_frame(&mut store, &PacketBuf::new(vec![1, 2, 3], 14), now()).unwrap();
    assert!(events.is_empty());
    assert_eq!(store.count().unwrap(), 2);
}

#[test]
fn observation_of_an_arp_frame() {
    let raw = build_arp_packet(&[0x00, 0x11, 0x22, 0x33, 0x44, 0x55], &[192, 168, 1, 10]);
    let o = observe(&PacketBuf::new(raw.clone(), 14)).unwrap();
    assert_eq!(o.source, MacAddress::new([0x00, 0x11, 0x22, 0x33, 0x44, 0x55]));
    assert_eq!(o.destination, MacAddress::new([0xff; 6]));
    assert_eq!(o.source_ip, Some(IpAddr::v4(192, 168, 1, 10)));
    assert_eq!(o.protocol, Protocol::Arp);
    assert_eq!(o.length, raw.len() as u64);
    let (device, change) = update_sender(None, &o, now());
    assert_eq!(change, DeviceChange::New);
    assert_eq!(device.packet_count, 1);
    assert_eq!(device.bytes_sent, raw.len() as u64);
    assert_eq!(device.first_seen, now());
}

#[test]
fn frame_steps_name_the_records_to_read_and_write() {
    let src_mac = [0x00, 0x11, 0x22, 0x33, 0x44, 0x55];
    let dst_mac = [0xaa, 0xbb, 0xcc, 0xdd, 0xee, 0xff];
    let raw = build_tcp_packet(&src_mac, &dst_mac, &[192, 168, 1, 10], &[10, 0, 0, 1], 12345, 23456);
    let buf = PacketBuf::new(raw, 14);
    let (pending, source) = begin_frame(&buf).expect("decodes");
    assert_eq!(source, MacAddress::new(src_mac));
    let (pending, sender, destination) = sender_read(pending, None, now());
    assert_eq!(sender.mac, MacAddress::new(src_mac));
    assert_eq!(sender.packet_count, 1);
    assert_eq!(destination, MacAddress::new(dst_mac));
    let (receiver, events) = receiver_read(pending, None, now());
    assert_eq!(receiver.mac, MacAddress::new(dst_mac));
    assert_eq!(receiver.bytes_received, 54);
    assert_eq!(events.len(), 2);
    assert!(matches!(&events[0], DiscoveryEvent::DeviceDiscovered(d) if d.mac == MacAddress::new(src_mac)));
    assert!(matches!(&events[1], DiscoveryEvent::DeviceDiscovered(d) if d.mac == MacAddress::new(dst_mac)));
    let (pending, _) = begin_frame(&buf).expect("decodes");
    let (pending, again, _) = sender_read(pending, Some(sender), now());
    assert_eq!(again.packet_count, 2);
    let (_, events) = receiver_read(pending, Some(receiver), now());
    assert!(events.is_empty());
    assert!(begin_frame(&PacketBuf::new(vec![0u8; 3], 14)).is_none());
}
