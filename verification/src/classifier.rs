//! Classification of decoded packets into the protocols EdgeShield
//! tracks, by EtherType, IP protocol and well-known ports.

use vstd::prelude::*;

use crate::decode::{decodes_to, DecodedPacket, TransportHeader};
use crate::protocol::Protocol;

verus! {

/// The protocol of a TCP segment between two ports: DNS (53), then
/// HTTP (80), then HTTPS (443) on either side, else plain TCP.
pub open spec fn spec_classify_tcp(src: u16, dst: u16) -> Protocol {
    if src == 53 || dst == 53 {
        Protocol::Dns
    } else if src == 80 || dst == 80 {
        Protocol::Http
    } else if src == 443 || dst == 443 {
        Protocol::Https
    } else {
        Protocol::Tcp
    }
}

/// The protocol of a UDP datagram between two ports: DNS (53), then
/// DHCP (67, 68), then mDNS (5353), then NTP (123) on either side, else
/// plain UDP.
pub open spec fn spec_classify_udp(src: u16, dst: u16) -> Protocol {
    if src == 53 || dst == 53 {
        Protocol::Dns
    } else if src == 67 || dst == 67 || src == 68 || dst == 68 {
        Protocol::Dhcp
    } else if src == 5353 || dst == 5353 {
        Protocol::Mdns
    } else if src == 123 || dst == 123 {
        Protocol::Ntp
    } else {
        Protocol::Udp
    }
}

/// The protocol of a decoded packet: ARP for EtherType 0x0806;
/// `Other(0)` for any other frame without an IPv4 header; otherwise by
/// the transport header, and plain IPv4 when there is none.
pub open spec fn spec_classify(p: DecodedPacket) -> Protocol {
    if p.ethernet.ethertype == 0x0806 {
        Protocol::Arp
    } else if p.ipv4 is None {
        Protocol::Other(0)
    } else {
        match p.transport {
            Some(TransportHeader::Tcp(t)) => spec_classify_tcp(t.source_port, t.destination_port),
            Some(TransportHeader::Udp(u)) => spec_classify_udp(u.source_port, u.destination_port),
            Some(TransportHeader::Icmp(_)) => Protocol::Icmp,
            None => Protocol::Ipv4,
        }
    }
}

/// Classifies a TCP segment by its ports (see [`spec_classify_tcp`]).
pub fn classify_tcp(src_port: u16, dst_port: u16) -> (r: Protocol)
    ensures
        r == spec_classify_tcp(src_port, dst_port),
{
    if src_port == 53 || dst_port == 53 {
        return Protocol::Dns;
    }
    if src_port == 80 || dst_port == 80 {
        return Protocol::Http;
    }
    if src_port == 443 || dst_port == 443 {
        return Protocol::Https;
    }
    Protocol::Tcp
}

/// Classifies a UDP datagram by its ports (see [`spec_classify_udp`]).
pub fn classify_udp(src_port: u16, dst_port: u16) -> (r: Protocol)
    ensures
        r == spec_classify_udp(src_port, dst_port),
{
    if src_port == 53 || dst_port == 53 {
        return Protocol::Dns;
    }
    if src_port == 67 || dst_port == 67 || src_port == 68 || dst_port == 68 {
        return Protocol::Dhcp;
    }
    if src_port == 5353 || dst_port == 5353 {
        return Protocol::Mdns;
    }
    if src_port == 123 || dst_port == 123 {
        return Protocol::Ntp;
    }
    Protocol::Udp
}

/// Classifies a decoded packet (see [`spec_classify`]).
pub fn classify(packet: &DecodedPacket) -> (r: Protocol)
    ensures
        r == spec_classify(*packet),
{
    if packet.ethernet.ethertype == 0x0806 {
        return Protocol::Arp;
    }
    if packet.ipv4.is_none() {
        return Protocol::Other(0);
    }
    match &packet.transport {
        Some(TransportHeader::Tcp(tcp)) => classify_tcp(tcp.source_port, tcp.destination_port),
        Some(TransportHeader::Udp(udp)) => classify_udp(udp.source_port, udp.destination_port),
        Some(TransportHeader::Icmp(_)) => Protocol::Icmp,
        None => Protocol::Ipv4,
    }
}

/// Traffic to or from a well-known port is never classified as plain
/// TCP or UDP.
pub proof fn lemma_well_known_ports_named(src: u16, dst: u16)
    ensures
        (src == 53 || dst == 53 || src == 80 || dst == 80 || src == 443 || dst == 443) ==> spec_classify_tcp(
            src,
            dst,
        ) != Protocol::Tcp,
        (src == 53 || dst == 53 || src == 67 || dst == 67 || src == 68 || dst == 68 || src == 5353 || dst
            == 5353 || src == 123 || dst == 123) ==> spec_classify_udp(src, dst) != Protocol::Udp,
{
}

/// Classification by ports does not depend on which side is the source.
pub proof fn lemma_classify_symmetric(src: u16, dst: u16)
    ensures
        spec_classify_tcp(src, dst) == spec_classify_tcp(dst, src),
        spec_classify_udp(src, dst) == spec_classify_udp(dst, src),
{
}

/// Whether a protocol is one carried over IPv4.
pub open spec fn over_ipv4(p: Protocol) -> bool {
    p is Ipv4 || p is Icmp || p is Tcp || p is Udp || p is Dns || p is Dhcp || p is Http || p is Https || p is Mdns || p is Ntp
}

/// A frame with an IPv4 header (and no ARP EtherType) is always named by
/// a protocol carried over IPv4, plain IPv4 when it has no transport
/// header, and never `Other`: only a frame with neither an ARP EtherType
/// nor an IPv4 header is. Every frame that decodes with EtherType 0x0800
/// has an IPv4 header.
pub proof fn law_ipv4_frames_named(p: DecodedPacket, raw: Seq<u8>)
    ensures
        (spec_classify(p) is Other) <==> (p.ethernet.ethertype != 0x0806 && p.ipv4 is None),
        p.ethernet.ethertype != 0x0806 && p.ipv4 is Some ==> over_ipv4(spec_classify(p)),
        p.ethernet.ethertype != 0x0806 && p.ipv4 is Some && p.transport is None ==> spec_classify(p) == Protocol::Ipv4,
        decodes_to(raw, p) && p.ethernet.ethertype == 0x0800 ==> p.ipv4 is Some && !(spec_classify(p) is Other),
{
}

} // verus!
