//! Packet buffers and the decoding of Ethernet, IPv4, TCP, UDP, ICMP and
//! ARP headers. Header fields are read with pnet's packet views; the
//! layering, the offsets and the error cases are this module's own.

use vstd::prelude::*;

use pnet::packet::arp::ArpPacket;
use pnet::packet::ethernet::EthernetPacket;
use pnet::packet::icmp::IcmpPacket;
use pnet::packet::ipv4::Ipv4Packet;
use pnet::packet::tcp::TcpPacket;
use pnet::packet::udp::UdpPacket;

use crate::error::PacketError;
use crate::types::IpAddr;

verus! {

// ---------------------------------------------------------------- buffer

#[verifier::external_type_specification]
#[verifier::external_body]
pub struct ExBytes(bytes::Bytes);

/// The bytes that a `bytes::Bytes` buffer holds.
pub uninterp spec fn bytes_contents(b: bytes::Bytes) -> Seq<u8>;

/// Moves a vector into a shared `bytes::Bytes` buffer with
/// `Bytes::from`, which keeps the bytes as they are.
#[verifier::external_body]
fn bytes_from_vec(v: Vec<u8>) -> (r: bytes::Bytes)
    ensures
        bytes_contents(r) == v@,
{
    bytes::Bytes::from(v)
}

/// Borrows the bytes of a `bytes::Bytes` buffer (`AsRef<[u8]>`).
#[verifier::external_body]
fn bytes_as_slice(b: &bytes::Bytes) -> (r: &[u8])
    ensures
        r@ == bytes_contents(*b),
{
    b.as_ref()
}

/// Clones a `bytes::Bytes` buffer; the clone shares the same bytes.
pub assume_specification[ <bytes::Bytes as Clone>::clone ](b: &bytes::Bytes) -> (r: bytes::Bytes)
    ensures
        bytes_contents(r) == bytes_contents(*b),
;

/// A captured frame: its bytes, link-layer header included, and the
/// length of that link-layer header.
#[derive(Debug, Clone)]
pub struct PacketBuf {
    pub raw: bytes::Bytes,
    pub link_header_len: usize,
}

impl PacketBuf {
    /// A buffer holding `data`.
    pub fn new(data: Vec<u8>, link_header_len: usize) -> (r: PacketBuf)
        ensures
            bytes_contents(r.raw) == data@,
            r.link_header_len == link_header_len,
    {
        PacketBuf { raw: bytes_from_vec(data), link_header_len }
    }

    /// All the bytes of the frame.
    pub fn data(&self) -> (r: &[u8])
        ensures
            r@ == bytes_contents(self.raw),
    {
        bytes_as_slice(&self.raw)
    }

    /// The bytes after the link-layer header; empty for a frame shorter
    /// than that header.
    pub fn network_payload(&self) -> (r: &[u8])
        ensures
            r@ == (if self.link_header_len <= bytes_contents(self.raw).len() {
                bytes_contents(self.raw).subrange(self.link_header_len as int, bytes_contents(self.raw).len() as int)
            } else {
                Seq::<u8>::empty()
            }),
    {
        let all = bytes_as_slice(&self.raw);
        if self.link_header_len <= all.len() {
            slice_from(all, self.link_header_len)
        } else {
            let empty: &[u8] = &[];
            assert(empty@ =~= Seq::<u8>::empty());
            empty
        }
    }
}

/// `s[from..]`.
pub fn slice_from(s: &[u8], from: usize) -> (r: &[u8])
    requires
        from <= s@.len(),
    ensures
        r@ == s@.subrange(from as int, s@.len() as int),
{
    vstd::slice::slice_subrange(s, from, s.len())
}

/// The length of the link-layer header of a pcap link type: 14 for
/// Ethernet (1), 0 for raw IP (12), 16 for Linux cooked capture (113),
/// and 14 for any other type.
pub fn linktype_to_header_len(linktype: i32) -> (r: usize)
    ensures
        r == (if linktype == 12 {
            0usize
        } else if linktype == 113 {
            16usize
        } else {
            14usize
        }),
{
    if linktype == 1 {
        14
    } else if linktype == 12 {
        0
    } else if linktype == 113 {
        16
    } else {
        14
    }
}

// ---------------------------------------------------------------- headers

/// The big-endian number in bytes `i` and `i + 1`.
pub open spec fn be16_at(s: Seq<u8>, i: int) -> u16 {
    (s[i] as int * 256 + s[i + 1] as int) as u16
}

/// The big-endian number in bytes `i .. i + 4`.
pub open spec fn be32_at(s: Seq<u8>, i: int) -> u32 {
    (s[i] as int * 16777216 + s[i + 1] as int * 65536 + s[i + 2] as int * 256 + s[i + 3] as int) as u32
}

/// Ethernet header fields.
#[derive(Debug, Clone, Copy, PartialEq, Eq)]
pub struct EthernetHeader {
    pub source: [u8; 6],
    pub destination: [u8; 6],
    pub ethertype: u16,
}

/// IPv4 header fields.
#[derive(Debug, Clone, Copy, PartialEq, Eq, Structural)]
pub struct Ipv4Header {
    pub source: IpAddr,
    pub destination: IpAddr,
    pub protocol: u8,
    pub total_length: u16,
    /// Header length in bytes (the IHL field times four).
    pub header_length: u8,
}

/// TCP header fields.
#[derive(Debug, Clone, Copy, PartialEq, Eq, Structural)]
pub struct TcpHeader {
    pub source_port: u16,
    pub destination_port: u16,
}

/// UDP header fields.
#[derive(Debug, Clone, Copy, PartialEq, Eq, Structural)]
pub struct UdpHeader {
    pub source_port: u16,
    pub destination_port: u16,
}

/// ICMP header fields.
#[derive(Debug, Clone, Copy, PartialEq, Eq, Structural)]
pub struct IcmpHeader {
    pub icmp_type: u8,
    pub icmp_code: u8,
}

/// A transport-layer header.
#[derive(Debug, Clone, Copy, PartialEq, Eq, Structural)]
pub enum TransportHeader {
    Tcp(TcpHeader),
    Udp(UdpHeader),
    Icmp(IcmpHeader),
}

/// ARP fields (Ethernet hardware and IPv4 protocol addresses).
#[derive(Debug, Clone, Copy, PartialEq, Eq)]
pub struct ArpFields {
    pub operation: u16,
    pub sender_hw_addr: [u8; 6],
    pub sender_proto_addr: u32,
    pub target_hw_addr: [u8; 6],
    pub target_proto_addr: u32,
}

/// Reads an Ethernet header with pnet's `EthernetPacket`: `None` for
/// fewer than 14 bytes, else destination (bytes 0..6), source (6..12)
/// and EtherType (12..14, big-endian).
#[verifier::external_body]
fn pnet_ethernet(data: &[u8]) -> (r: Option<EthernetHeader>)
    ensures
        r is None <==> data@.len() < 14,
        r matches Some(h) ==> h.destination@ == data@.subrange(0, 6) && h.source@ == data@.subrange(6, 12)
            && h.ethertype == be16_at(data@, 12),
{
    match EthernetPacket::new(data) {
        Some(p) => Some(
            EthernetHeader {
                source: p.get_source().octets(),
                destination: p.get_destination().octets(),
                ethertype: p.get_ethertype().0,
            },
        ),
        None => None,
    }
}

/// Reads an IPv4 header with pnet's `Ipv4Packet`: `None` for fewer than
/// 20 bytes, else (IHL, the low four bits of byte 0; total length, bytes
/// 2..4; protocol, byte 9; source, bytes 12..16; destination, 16..20),
/// numbers big-endian.
#[verifier::external_body]
fn pnet_ipv4(data: &[u8]) -> (r: Option<(u8, u16, u8, u32, u32)>)
    ensures
        r is None <==> data@.len() < 20,
        r matches Some(f) ==> f.0 == data@[0] % 16 && f.1 == be16_at(data@, 2) && f.2 == data@[9] && f.3
            == be32_at(data@, 12) && f.4 == be32_at(data@, 16),
{
    match Ipv4Packet::new(data) {
        Some(p) => Some(
            (
                p.get_header_length(),
                p.get_total_length(),
                p.get_next_level_protocol().0,
                u32::from(p.get_source()),
                u32::from(p.get_destination()),
            ),
        ),
        None => None,
    }
}

/// Reads a TCP header with pnet's `TcpPacket`: `None` for fewer than 20
/// bytes, else (source port, bytes 0..2; destination port, 2..4; data
/// offset, the high four bits of byte 12).
#[verifier::external_body]
fn pnet_tcp(data: &[u8]) -> (r: Option<(u16, u16, u8)>)
    ensures
        r is None <==> data@.len() < 20,
        r matches Some(f) ==> f.0 == be16_at(data@, 0) && f.1 == be16_at(data@, 2) && f.2 == data@[12] / 16,
{
    match TcpPacket::new(data) {
        Some(p) => Some((p.get_source(), p.get_destination(), p.get_data_offset())),
        None => None,
    }
}

/// Reads a UDP header with pnet's `UdpPacket`: `None` for fewer than 8
/// bytes, else (source port, bytes 0..2; destination port, 2..4).
#[verifier::external_body]
fn pnet_udp(data: &[u8]) -> (r: Option<(u16, u16)>)
    ensures
        r is None <==> data@.len() < 8,
        r matches Some(f) ==> f.0 == be16_at(data@, 0) && f.1 == be16_at(data@, 2),
{
    match UdpPacket::new(data) {
        Some(p) => Some((p.get_source(), p.get_destination())),
        None => None,
    }
}

/// Reads an ICMP header with pnet's `IcmpPacket`: `None` for fewer than
/// 4 bytes, else (type, byte 0; code, byte 1).
#[verifier::external_body]
fn pnet_icmp(data: &[u8]) -> (r: Option<(u8, u8)>)
    ensures
        r is None <==> data@.len() < 4,
        r matches Some(f) ==> f.0 == data@[0] && f.1 == data@[1],
{
    match IcmpPacket::new(data) {
        Some(p) => Some((p.get_icmp_type().0, p.get_icmp_code().0)),
        None => None,
    }
}

/// Reads an ARP packet with pnet's `ArpPacket`: `None` for fewer than 28
/// bytes, else operation (bytes 6..8), sender hardware (8..14) and
/// protocol (14..18) addresses, target hardware (18..24) and protocol
/// (24..28) addresses.
#[verifier::external_body]
fn pnet_arp(data: &[u8]) -> (r: Option<ArpFields>)
    ensures
        r is None <==> data@.len() < 28,
        r matches Some(a) ==> a.operation == be16_at(data@, 6) && a.sender_hw_addr@ == data@.subrange(8, 14)
            && a.sender_proto_addr == be32_at(data@, 14) && a.target_hw_addr@ == data@.subrange(18, 24)
            && a.target_proto_addr == be32_at(data@, 24),
{
    match ArpPacket::new(data) {
        Some(p) => Some(
            ArpFields {
                operation: p.get_operation().0,
                sender_hw_addr: p.get_sender_hw_addr().octets(),
                sender_proto_addr: u32::from(p.get_sender_proto_addr()),
                target_hw_addr: p.get_target_hw_addr().octets(),
                target_proto_addr: u32::from(p.get_target_proto_addr()),
            },
        ),
        None => None,
    }
}

// ---------------------------------------------------------------- decoding

/// The length of a byte sequence as a `usize`.
pub open spec fn seq_len(s: Seq<u8>) -> usize {
    s.len() as usize
}

fn u8_to_usize(n: u8) -> (r: usize)
    ensures
        r == n,
{
    n as usize
}

/// The Ethernet header of a frame, or `Truncated` (14 expected).
pub open spec fn spec_ethernet(raw: Seq<u8>) -> Result<EthernetHeader, PacketError> {
    if raw.len() < 14 {
        Err(PacketError::Truncated { expected: 14, actual: raw.len() as usize })
    } else {
        Ok(
            EthernetHeader {
                source: choose|a: [u8; 6]| a@ == raw.subrange(6, 12),
                destination: choose|a: [u8; 6]| a@ == raw.subrange(0, 6),
                ethertype: be16_at(raw, 12),
            },
        )
    }
}

/// The IPv4 header at the start of `data`, or `Truncated` (20 expected).
pub open spec fn spec_ipv4(data: Seq<u8>) -> Result<Ipv4Header, PacketError> {
    if data.len() < 20 {
        Err(PacketError::Truncated { expected: 20, actual: data.len() as usize })
    } else {
        Ok(
            Ipv4Header {
                source: IpAddr::V4(be32_at(data, 12)),
                destination: IpAddr::V4(be32_at(data, 16)),
                protocol: data[9],
                total_length: be16_at(data, 2),
                header_length: ((data[0] % 16) * 4) as u8,
            },
        )
    }
}

/// The transport header of an IPv4 packet carrying `protocol`, with the
/// offset of its payload: TCP (6, 20 bytes expected, payload after the
/// data offset), UDP (17, 8 bytes), ICMP (1, 4 bytes); none for other
/// protocols.
pub open spec fn spec_transport(protocol: u8, data: Seq<u8>) -> Result<(Option<TransportHeader>, int), PacketError> {
    if protocol == 6 {
        if data.len() < 20 {
            Err(PacketError::Truncated { expected: 20, actual: seq_len(data) })
        } else {
            Ok(
                (
                    Some(
                        TransportHeader::Tcp(
                            TcpHeader { source_port: be16_at(data, 0), destination_port: be16_at(data, 2) },
                        ),
                    ),
                    (data[12] / 16) * 4,
                ),
            )
        }
    } else if protocol == 17 {
        if data.len() < 8 {
            Err(PacketError::Truncated { expected: 8, actual: seq_len(data) })
        } else {
            Ok(
                (
                    Some(
                        TransportHeader::Udp(
                            UdpHeader { source_port: be16_at(data, 0), destination_port: be16_at(data, 2) },
                        ),
                    ),
                    8,
                ),
            )
        }
    } else if protocol == 1 {
        if data.len() < 4 {
            Err(PacketError::Truncated { expected: 4, actual: seq_len(data) })
        } else {
            Ok((Some(TransportHeader::Icmp(IcmpHeader { icmp_type: data[0], icmp_code: data[1] })), 4))
        }
    } else {
        Ok((None, 0))
    }
}

/// A decoded frame: its Ethernet header, its IPv4 and transport headers
/// when present, and the bytes after the last decoded header.
#[derive(Debug, Clone)]
pub struct DecodedPacket {
    pub ethernet: EthernetHeader,
    pub ipv4: Option<Ipv4Header>,
    pub transport: Option<TransportHeader>,
    pub payload: Vec<u8>,
}

/// Whether `d` is the decoding of `raw`: the Ethernet header; for IPv4
/// frames (EtherType 0x0800) the IPv4 header after it and the transport
/// header after the IPv4 header, with the payload after that; for other
/// frames no further headers and an empty payload.
pub open spec fn decodes_to(raw: Seq<u8>, d: DecodedPacket) -> bool {
    match spec_ethernet(raw) {
        Err(_) => false,
        Ok(eth) => d.ethernet.ethertype == eth.ethertype && d.ethernet.source@ == raw.subrange(6, 12)
            && d.ethernet.destination@ == raw.subrange(0, 6) && if eth.ethertype == 0x0800 {
            match spec_ipv4(raw.subrange(14, raw.len() as int)) {
                Err(_) => false,
                Ok(ip) => {
                    let t = 14 + ip.header_length;
                    match spec_transport(ip.protocol, raw.subrange(t, raw.len() as int)) {
                        Err(_) => false,
                        Ok((tr, off)) => d.ipv4 == Some(ip) && d.transport == tr && d.payload@ == raw.subrange(
                            t + off,
                            raw.len() as int,
                        ),
                    }
                },
            }
        } else {
            d.ipv4 is None && d.transport is None && d.payload@.len() == 0
        },
    }
}

/// The error that decoding `raw` fails with, if it fails.
pub open spec fn decode_error(raw: Seq<u8>) -> Option<PacketError> {
    match spec_ethernet(raw) {
        Err(e) => Some(e),
        Ok(eth) => if eth.ethertype != 0x0800 {
            None
        } else {
            match spec_ipv4(raw.subrange(14, raw.len() as int)) {
                Err(e) => Some(e),
                Ok(ip) => {
                    let t = 14 + ip.header_length;
                    if t > raw.len() {
                        Some(
                            PacketError::Truncated {
                                expected: ip.header_length as usize,
                                actual: (raw.len() - 14) as usize,
                            },
                        )
                    } else {
                        match spec_transport(ip.protocol, raw.subrange(t, raw.len() as int)) {
                            Err(e) => Some(e),
                            Ok((_, off)) => if t + off > raw.len() {
                                Some(PacketError::Truncated { expected: off as usize, actual: (raw.len() - t) as usize })
                            } else {
                                None
                            },
                        }
                    }
                },
            }
        },
    }
}

fn decode_ethernet(raw: &[u8]) -> (r: Result<EthernetHeader, PacketError>)
    ensures
        match spec_ethernet(raw@) {
            Err(e) => r == Err::<EthernetHeader, PacketError>(e),
            Ok(h) => r matches Ok(g) && g.ethertype == h.ethertype && g.source@ == raw@.subrange(6, 12)
                && g.destination@ == raw@.subrange(0, 6),
        },
{
    match pnet_ethernet(raw) {
        Some(h) => Ok(h),
        None => Err(PacketError::Truncated { expected: 14, actual: raw.len() }),
    }
}

fn decode_ipv4(data: &[u8]) -> (r: Result<Ipv4Header, PacketError>)
    ensures
        r == spec_ipv4(data@),
{
    match pnet_ipv4(data) {
        Some((ihl, total_length, protocol, source, destination)) => {
            assert(ihl < 16);
            Ok(
                Ipv4Header {
                    source: IpAddr::V4(source),
                    destination: IpAddr::V4(destination),
                    protocol,
                    total_length,
                    header_length: ihl * 4,
                },
            )
        },
        None => Err(PacketError::Truncated { expected: 20, actual: data.len() }),
    }
}

fn decode_transport(protocol: u8, data: &[u8]) -> (r: Result<(Option<TransportHeader>, usize), PacketError>)
    ensures
        match spec_transport(protocol, data@) {
            Err(e) => r == Err::<(Option<TransportHeader>, usize), PacketError>(e),
            Ok((t, off)) => r matches Ok((t2, off2)) && t2 == t && off2 == off,
        },
{
    if protocol == 6 {
        match pnet_tcp(data) {
            Some((source_port, destination_port, data_offset)) => {
                assert(data_offset < 16);
                Ok(
                    (
                        Some(TransportHeader::Tcp(TcpHeader { source_port, destination_port })),
                        u8_to_usize(data_offset) * 4,
                    ),
                )
            },
            None => Err(PacketError::Truncated { expected: 20, actual: data.len() }),
        }
    } else if protocol == 17 {
        match pnet_udp(data) {
            Some((source_port, destination_port)) => Ok(
                (Some(TransportHeader::Udp(UdpHeader { source_port, destination_port })), 8),
            ),
            None => Err(PacketError::Truncated { expected: 8, actual: data.len() }),
        }
    } else if protocol == 1 {
        match pnet_icmp(data) {
            Some((icmp_type, icmp_code)) => Ok(
                (Some(TransportHeader::Icmp(IcmpHeader { icmp_type, icmp_code })), 4),
            ),
            None => Err(PacketError::Truncated { expected: 4, actual: data.len() }),
        }
    } else {
        Ok((None, 0))
    }
}

/// Decodes a captured frame (Ethernet framing assumed); `Truncated` when
/// the frame is too short for the headers it announces.
pub fn decode_packet(buf: &PacketBuf) -> (r: Result<DecodedPacket, PacketError>)
    ensures
        match decode_error(bytes_contents(buf.raw)) {
            Some(e) => r == Err::<DecodedPacket, PacketError>(e),
            None => r matches Ok(d) && decodes_to(bytes_contents(buf.raw), d),
        },
{
    let raw = buf.data();
    let ethernet = match decode_ethernet(raw) {
        Ok(h) => h,
        Err(e) => return Err(e),
    };
    if ethernet.ethertype == 0x0800 {
        let ip = match decode_ipv4(slice_from(raw, 14)) {
            Ok(h) => h,
            Err(e) => return Err(e),
        };
        let header_length = ip.header_length as usize;
        if header_length > raw.len() - 14 {
            return Err(PacketError::Truncated { expected: header_length, actual: raw.len() - 14 });
        }
        let t: usize = 14 + header_length;
        let (transport, off) = match decode_transport(ip.protocol, slice_from(raw, t)) {
            Ok(x) => x,
            Err(e) => return Err(e),
        };
        if off > raw.len() - t {
            return Err(PacketError::Truncated { expected: off, actual: raw.len() - t });
        }
        let payload = vstd::slice::slice_to_vec(slice_from(raw, t + off));
        Ok(DecodedPacket { ethernet, ipv4: Some(ip), transport, payload })
    } else {
        Ok(DecodedPacket { ethernet, ipv4: None, transport: None, payload: Vec::new() })
    }
}

/// Decodes an ARP packet (the bytes after the Ethernet header), or
/// `Truncated` (28 expected).
pub fn decode_arp(data: &[u8]) -> (r: Result<ArpFields, PacketError>)
    ensures
        data@.len() < 28 ==> r == Err::<ArpFields, PacketError>(
            PacketError::Truncated { expected: 28, actual: data@.len() as usize },
        ),
        r matches Ok(a) ==> data@.len() >= 28 && a.operation == be16_at(data@, 6) && a.sender_hw_addr@
            == data@.subrange(8, 14) && a.sender_proto_addr == be32_at(data@, 14) && a.target_hw_addr@
            == data@.subrange(18, 24) && a.target_proto_addr == be32_at(data@, 24),
        data@.len() >= 28 ==> r is Ok,
{
    match pnet_arp(data) {
        Some(a) => Ok(a),
        None => Err(PacketError::Truncated { expected: 28, actual: data.len() }),
    }
}

} // verus!
