//! Device discovery: what a captured frame tells about the devices at
//! its two ends, how their records change, and which discovery events
//! the change raises.

use vstd::prelude::*;

use crate::classifier::{classify, spec_classify};
use crate::decode::{
    be32_at, bytes_contents, decode_arp, decode_error, decode_packet, decodes_to,
    slice_from, DecodedPacket, PacketBuf,
};
use crate::device_store::{mac_key, DeviceStore};
use crate::dhcp::{parse_dhcp, spec_parse_dhcp};
use crate::error::StorageError;
use crate::mdns::{parse_mdns, spec_parse_mdns};
use crate::protocol::Protocol;
use crate::rules::DiscoveryEvent;
use crate::text::copy_str;
use crate::types::{counted, opt_str_view, Device, DeviceView, IpAddr, MacAddress, Timestamp};

verus! {

/// What one frame tells: the MAC addresses at its two ends, the sender's
/// IPv4 address when the frame carries it, the frame's protocol and
/// length, and a hostname and DHCP vendor class the sender announced.
#[derive(Debug)]
pub struct Observation {
    pub source: MacAddress,
    pub destination: MacAddress,
    pub source_ip: Option<IpAddr>,
    pub protocol: Protocol,
    pub length: u64,
    pub hostname: Option<String>,
    pub vendor_class: Option<String>,
}

/// The sender's IPv4 address in a frame: the IPv4 source address, or
/// for ARP the sender protocol address (when the ARP body is complete).
pub open spec fn spec_source_ip(raw: Seq<u8>, d: DecodedPacket) -> Option<IpAddr> {
    match d.ipv4 {
        Some(ip) => Some(ip.source),
        None => if d.ethernet.ethertype == 0x0806 && raw.len() >= 14 + 28 {
            Some(IpAddr::V4(be32_at(raw.subrange(14, raw.len() as int), 14)))
        } else {
            None
        },
    }
}

/// The hostname a frame announces: DHCP option 12 in a DHCP frame, the
/// first SRV target in an mDNS frame.
pub open spec fn spec_announced_hostname(d: DecodedPacket) -> Option<Seq<char>> {
    let protocol = spec_classify(d);
    if protocol == Protocol::Dhcp {
        match spec_parse_dhcp(d.payload@) {
            Some(info) => info.hostname,
            None => None,
        }
    } else if protocol == Protocol::Mdns {
        match spec_parse_mdns(d.payload@) {
            Some(info) => info.hostname,
            None => None,
        }
    } else {
        None
    }
}

/// The DHCP vendor class (option 60) a DHCP frame announces.
pub open spec fn spec_announced_vendor_class(d: DecodedPacket) -> Option<Seq<char>> {
    if spec_classify(d) == Protocol::Dhcp {
        match spec_parse_dhcp(d.payload@) {
            Some(info) => info.vendor_class,
            None => None,
        }
    } else {
        None
    }
}

/// Whether `o` is what the frame `raw`, decoded as `d`, tells.
pub open spec fn observed(raw: Seq<u8>, d: DecodedPacket, o: Observation) -> bool {
    &&& o.source@ == d.ethernet.source@
    &&& o.destination@ == d.ethernet.destination@
    &&& o.source_ip == spec_source_ip(raw, d)
    &&& o.protocol == spec_classify(d)
    &&& o.length == raw.len()
    &&& opt_str_view(o.hostname) == spec_announced_hostname(d)
    &&& opt_str_view(o.vendor_class) == spec_announced_vendor_class(d)
}

/// What a captured frame tells (see [`observed`]); `None` for a frame
/// that does not decode.
pub fn observe(buf: &PacketBuf) -> (r: Option<Observation>)
    ensures
        decode_error(bytes_contents(buf.raw)) is Some ==> r is None,
        decode_error(bytes_contents(buf.raw)) is None ==> (r matches Some(o)
            && exists|d: DecodedPacket| decodes_to(bytes_contents(buf.raw), d) && observed(bytes_contents(buf.raw), d, o)),
{
    let packet = match decode_packet(buf) {
        Ok(p) => p,
        Err(_) => return None,
    };
    let raw = buf.data();
    let protocol = classify(&packet);
    let source_ip = match packet.ipv4 {
        Some(ip) => Some(ip.source),
        None => {
            if packet.ethernet.ethertype == 0x0806 && raw.len() >= 14 {
                match decode_arp(slice_from(raw, 14)) {
                    Ok(arp) => Some(IpAddr::V4(arp.sender_proto_addr)),
                    Err(_) => None,
                }
            } else {
                None
            }
        },
    };
    let payload = packet.payload.as_slice();
    let (hostname, vendor_class) = if protocol == Protocol::Dhcp {
        match parse_dhcp(payload) {
            Some(info) => (info.hostname, info.vendor_class),
            None => (None, None),
        }
    } else if protocol == Protocol::Mdns {
        match parse_mdns(payload) {
            Some(info) => (info.hostname, None),
            None => (None, None),
        }
    } else {
        (None, None)
    };
    let length = raw.len() as u64;
    let o = Observation {
        source: MacAddress::new(packet.ethernet.source),
        destination: MacAddress::new(packet.ethernet.destination),
        source_ip,
        protocol,
        length,
        hostname,
        vendor_class,
    };
    proof {
        assert(observed(bytes_contents(buf.raw), packet, o));
    }
    Some(o)
}

/// How a device record changed.
#[derive(Debug, Clone, Copy, PartialEq, Eq, Structural)]
pub enum DeviceChange {
    /// The device was not known before.
    New,
    /// A known device used a protocol it had not used before.
    NewProtocol,
    /// A known device was seen again.
    Seen,
}

/// The change that seeing `protocol` makes to a device known before (or
/// not).
pub open spec fn change_of(existing: Option<Device>, protocol: Protocol) -> DeviceChange {
    match existing {
        None => DeviceChange::New,
        Some(d) => if d.protocols@.contains(protocol) {
            DeviceChange::Seen
        } else {
            DeviceChange::NewProtocol
        },
    }
}

/// The sender's record after a frame: its packet count, sent bytes,
/// protocols, counters and last-seen time updated, its IPv4 address
/// added, and an announced hostname or vendor class taking the place of
/// the old one; a sender not known before starts as a new device first
/// seen at `now`.
pub fn update_sender(existing: Option<Device>, o: &Observation, now: Timestamp) -> (r: (Device, DeviceChange))
    ensures
        r.1 == change_of(existing, o.protocol),
        match existing {
            Some(d) => r.0.mac == d.mac && r.0.first_seen == d.first_seen && r.0.packet_count == d.packet_count.saturating_add(1)
                && r.0.bytes_sent == d.bytes_sent.saturating_add(o.length) && r.0.bytes_received == d.bytes_received
                && r.0.protocols@.to_set() == d.protocols@.to_set().insert(o.protocol) && r.0.protocol_stats@ == counted(
                d.protocol_stats@,
                o.protocol,
            ) && r.0.ips@.to_set() == (match o.source_ip {
                Some(ip) => d.ips@.to_set().insert(ip),
                None => d.ips@.to_set(),
            }) && opt_str_view(r.0.hostname) == (if o.hostname is Some {
                opt_str_view(o.hostname)
            } else {
                opt_str_view(d.hostname)
            }) && opt_str_view(r.0.dhcp_vendor_class) == (if o.vendor_class is Some {
                opt_str_view(o.vendor_class)
            } else {
                opt_str_view(d.dhcp_vendor_class)
            }) && r.0.vendor == d.vendor,
            None => r.0.mac == o.source && r.0.first_seen == now && r.0.packet_count == 1 && r.0.bytes_sent == o.length
                && r.0.bytes_received == 0 && r.0.protocols@.to_set() == set![o.protocol] && r.0.protocol_stats@ == map![
                o.protocol => 1u64] && r.0.ips@.to_set() == (match o.source_ip {
                Some(ip) => set![ip],
                None => Set::<IpAddr>::empty(),
            }) && opt_str_view(r.0.hostname) == opt_str_view(o.hostname) && opt_str_view(r.0.dhcp_vendor_class) == opt_str_view(
                o.vendor_class,
            ) && r.0.vendor is None,
        },
        r.0.last_seen == now,
{
    let change = match &existing {
        None => DeviceChange::New,
        Some(d) => if d.protocols.contains(&o.protocol) {
            DeviceChange::Seen
        } else {
            DeviceChange::NewProtocol
        },
    };
    let mut device = match existing {
        Some(d) => d,
        None => Device::new_at(o.source, now),
    };
    device.record_sent(o.length, o.protocol, now);
    match o.source_ip {
        Some(ip) => device.add_ip(ip),
        None => {},
    }
    match &o.hostname {
        Some(h) => {
            device.hostname = Some(copy_str(h.as_str()));
        },
        None => {},
    }
    match &o.vendor_class {
        Some(v) => {
            device.dhcp_vendor_class = Some(copy_str(v.as_str()));
        },
        None => {},
    }
    proof {
        if existing is None {
            assert(device.protocols@.to_set() =~= set![o.protocol]);
            assert(device.protocol_stats@ =~= map![o.protocol => 1u64]);
        }
    }
    (device, change)
}

/// The receiver's record after a frame: its packet count, received
/// bytes, protocols, counters and last-seen time updated; a receiver not
/// known before starts as a new device first seen at `now`.
pub fn update_receiver(existing: Option<Device>, o: &Observation, now: Timestamp) -> (r: (Device, DeviceChange))
    ensures
        r.1 == change_of(existing, o.protocol),
        match existing {
            Some(d) => r.0.mac == d.mac && r.0.first_seen == d.first_seen && r.0.packet_count == d.packet_count.saturating_add(1)
                && r.0.bytes_received == d.bytes_received.saturating_add(o.length) && r.0.bytes_sent == d.bytes_sent
                && r.0.protocols@.to_set() == d.protocols@.to_set().insert(o.protocol) && r.0.protocol_stats@ == counted(
                d.protocol_stats@,
                o.protocol,
            ) && r.0.ips@ == d.ips@ && r.0.hostname == d.hostname && r.0.dhcp_vendor_class == d.dhcp_vendor_class
                && r.0.vendor == d.vendor,
            None => r.0.mac == o.destination && r.0.first_seen == now && r.0.packet_count == 1 && r.0.bytes_received
                == o.length && r.0.bytes_sent == 0 && r.0.protocols@.to_set() == set![o.protocol] && r.0.protocol_stats@
                == map![o.protocol => 1u64] && r.0.ips@.len() == 0 && r.0.hostname is None && r.0.dhcp_vendor_class is None
                && r.0.vendor is None,
        },
        r.0.last_seen == now,
{
    let change = match &existing {
        None => DeviceChange::New,
        Some(d) => if d.protocols.contains(&o.protocol) {
            DeviceChange::Seen
        } else {
            DeviceChange::NewProtocol
        },
    };
    let mut device = match existing {
        Some(d) => d,
        None => Device::new_at(o.destination, now),
    };
    device.record_received(o.length, o.protocol, now);
    proof {
        if existing is None {
            assert(device.protocols@.to_set() =~= set![o.protocol]);
            assert(device.protocol_stats@ =~= map![o.protocol => 1u64]);
        }
    }
    (device, change)
}

/// The event a change raises about a device: a new device is
/// discovered, a new protocol updates it, and being seen again raises
/// none.
pub open spec fn raised(change: DeviceChange, device: Device, e: Option<DiscoveryEvent>) -> bool {
    match change {
        DeviceChange::New => e matches Some(DiscoveryEvent::DeviceDiscovered(x)) && x@ == device@,
        DeviceChange::NewProtocol => e matches Some(DiscoveryEvent::DeviceUpdated(x)) && x@ == device@,
        DeviceChange::Seen => e is None,
    }
}

/// The event a change raises (see [`raised`]).
pub fn event_for(change: DeviceChange, device: &Device) -> (r: Option<DiscoveryEvent>)
    ensures
        raised(change, *device, r),
{
    match change {
        DeviceChange::New => Some(DiscoveryEvent::DeviceDiscovered(device.clone())),
        DeviceChange::NewProtocol => Some(DiscoveryEvent::DeviceUpdated(device.clone())),
        DeviceChange::Seen => None,
    }
}

/// Whether `o` is what the frame `raw` tells (see [`observe`]).
pub open spec fn observes(raw: Seq<u8>, o: Observation) -> bool {
    exists|d: DecodedPacket| decodes_to(raw, d) && observed(raw, d, o)
}

/// Whether `known` is what a store holding `devices` answers when asked
/// for the device with address `mac`.
pub open spec fn answered(devices: Map<u64, DeviceView>, mac: MacAddress, known: Option<Device>) -> bool {
    match known {
        Some(d) => devices.dom().contains(mac_key(mac@)) && d@ == devices[mac_key(mac@)],
        None => !devices.dom().contains(mac_key(mac@)),
    }
}

/// Whether `r` is the sender's record and change [`update_sender`] gives
/// for the record `existing`.
pub open spec fn sender_updated(existing: Option<Device>, o: Observation, now: Timestamp, r: (Device, DeviceChange)) -> bool {
    &&& r.1 == change_of(existing, o.protocol)
    &&& match existing {
        Some(d) => r.0.mac == d.mac && r.0.first_seen == d.first_seen && r.0.packet_count == d.packet_count.saturating_add(1)
            && r.0.bytes_sent == d.bytes_sent.saturating_add(o.length) && r.0.bytes_received == d.bytes_received
            && r.0.protocols@.to_set() == d.protocols@.to_set().insert(o.protocol) && r.0.protocol_stats@ == counted(
            d.protocol_stats@,
            o.protocol,
        ) && r.0.ips@.to_set() == (match o.source_ip {
            Some(ip) => d.ips@.to_set().insert(ip),
            None => d.ips@.to_set(),
        }) && opt_str_view(r.0.hostname) == (if o.hostname is Some {
            opt_str_view(o.hostname)
        } else {
            opt_str_view(d.hostname)
        }) && opt_str_view(r.0.dhcp_vendor_class) == (if o.vendor_class is Some {
            opt_str_view(o.vendor_class)
        } else {
            opt_str_view(d.dhcp_vendor_class)
        }) && r.0.vendor == d.vendor,
        None => r.0.mac == o.source && r.0.first_seen == now && r.0.packet_count == 1 && r.0.bytes_sent == o.length
            && r.0.bytes_received == 0 && r.0.protocols@.to_set() == set![o.protocol] && r.0.protocol_stats@ == map![
            o.protocol => 1u64] && r.0.ips@.to_set() == (match o.source_ip {
            Some(ip) => set![ip],
            None => Set::<IpAddr>::empty(),
        }) && opt_str_view(r.0.hostname) == opt_str_view(o.hostname) && opt_str_view(r.0.dhcp_vendor_class) == opt_str_view(
            o.vendor_class,
        ) && r.0.vendor is None,
    }
    &&& r.0.last_seen == now
}

/// Whether `r` is the receiver's record and change [`update_receiver`]
/// gives for the record `existing`.
pub open spec fn receiver_updated(existing: Option<Device>, o: Observation, now: Timestamp, r: (Device, DeviceChange)) -> bool {
    &&& r.1 == change_of(existing, o.protocol)
    &&& match existing {
        Some(d) => r.0.mac == d.mac && r.0.first_seen == d.first_seen && r.0.packet_count == d.packet_count.saturating_add(1)
            && r.0.bytes_received == d.bytes_received.saturating_add(o.length) && r.0.bytes_sent == d.bytes_sent
            && r.0.protocols@.to_set() == d.protocols@.to_set().insert(o.protocol) && r.0.protocol_stats@ == counted(
            d.protocol_stats@,
            o.protocol,
        ) && r.0.ips@ == d.ips@ && r.0.hostname == d.hostname && r.0.dhcp_vendor_class == d.dhcp_vendor_class
            && r.0.vendor == d.vendor,
        None => r.0.mac == o.destination && r.0.first_seen == now && r.0.packet_count == 1 && r.0.bytes_received
            == o.length && r.0.bytes_sent == 0 && r.0.protocols@.to_set() == set![o.protocol] && r.0.protocol_stats@
            == map![o.protocol => 1u64] && r.0.ips@.len() == 0 && r.0.hostname is None && r.0.dhcp_vendor_class is None
            && r.0.vendor is None,
    }
    &&& r.0.last_seen == now
}

/// The event, if any, as a sequence of none or one.
pub open spec fn event_seq(e: Option<DiscoveryEvent>) -> Seq<DiscoveryEvent> {
    match e {
        Some(x) => seq![x],
        None => Seq::empty(),
    }
}

/// Whether `events` are the events the sender's update `s` and then the
/// receiver's update `t` raise.
pub open spec fn events_raised(s: (Device, DeviceChange), t: (Device, DeviceChange), events: Seq<DiscoveryEvent>) -> bool {
    exists|es: Option<DiscoveryEvent>, et: Option<DiscoveryEvent>|
        raised(s.1, s.0, es) && raised(t.1, t.0, et) && events == #[trigger] event_seq(es) + #[trigger] event_seq(et)
}

/// Whether recording the frame `raw` at `now` took a store from the
/// devices `before` to `after` and raised `events`: with `o` what the
/// frame tells, the sender's record `s` is [`update_sender`]'s for what
/// the store held under the source address and is written first; the
/// receiver's record `t` is [`update_receiver`]'s for what the store
/// then held under the destination address and is written next; the
/// events are those of the sender's change, then the receiver's.
pub open spec fn frame_recorded(
    raw: Seq<u8>,
    now: Timestamp,
    before: Map<u64, DeviceView>,
    after: Map<u64, DeviceView>,
    events: Seq<DiscoveryEvent>,
    o: Observation,
    s: (Device, DeviceChange),
    t: (Device, DeviceChange),
) -> bool {
    let middle = before.insert(mac_key(s.0.mac@), s.0@);
    &&& observes(raw, o)
    &&& exists|known: Option<Device>| answered(before, o.source, known) && sender_updated(known, o, now, s)
    &&& exists|known: Option<Device>| answered(middle, o.destination, known) && receiver_updated(known, o, now, t)
    &&& after == middle.insert(mac_key(t.0.mac@), t.0@)
    &&& events_raised(s, t, events)
}

/// A frame being recorded, before the sender's record is read: what the
/// frame tells.
pub struct SenderPending {
    observation: Observation,
}

impl SenderPending {
    /// What the frame tells.
    pub closed spec fn observation(&self) -> Observation {
        self.observation
    }
}

/// A frame being recorded, after the sender's record was written and
/// before the receiver's is read: what the frame tells, and the event the
/// sender's change raised.
pub struct ReceiverPending {
    observation: Observation,
    sender_event: Option<DiscoveryEvent>,
}

impl ReceiverPending {
    /// What the frame tells.
    pub closed spec fn observation(&self) -> Observation {
        self.observation
    }

    /// The event the sender's change raised.
    pub closed spec fn sender_event(&self) -> Option<DiscoveryEvent> {
        self.sender_event
    }
}

/// Starts recording a frame: nothing for a frame that does not decode;
/// otherwise the pending recording and the address whose stored record
/// to read first, the sender's.
pub fn begin_frame(buf: &PacketBuf) -> (r: Option<(SenderPending, MacAddress)>)
    ensures
        observe_fails(bytes_contents(buf.raw)) <==> r is None,
        r matches Some((p, mac)) ==> observes(bytes_contents(buf.raw), p.observation()) && mac == p.observation().source,
{
    match observe(buf) {
        Some(o) => {
            let mac = o.source;
            Some((SenderPending { observation: o }, mac))
        },
        None => None,
    }
}

/// Goes on recording a frame once the store answered with the sender's
/// stored record `known`: the sender's record to write (see
/// [`update_sender`]), the pending recording, and the address whose
/// stored record to read next, the receiver's.
pub fn sender_read(p: SenderPending, known: Option<Device>, now: Timestamp) -> (r: (ReceiverPending, Device, MacAddress))
    ensures
        sender_updated(known, p.observation(), now, (r.1, change_of(known, p.observation().protocol))),
        r.0.observation() == p.observation(),
        raised(change_of(known, p.observation().protocol), r.1, r.0.sender_event()),
        r.2 == p.observation().destination,
{
    let o = p.observation;
    let (sender, change) = update_sender(known, &o, now);
    let event = event_for(change, &sender);
    let mac = o.destination;
    (ReceiverPending { observation: o, sender_event: event }, sender, mac)
}

/// Ends recording a frame once the store answered with the receiver's
/// stored record `known`: the receiver's record to write (see
/// [`update_receiver`]) and the events raised, the sender's first.
pub fn receiver_read(q: ReceiverPending, known: Option<Device>, now: Timestamp) -> (r: (Device, Vec<DiscoveryEvent>))
    ensures
        receiver_updated(known, q.observation(), now, (r.0, change_of(known, q.observation().protocol))),
        exists|e: Option<DiscoveryEvent>|
            raised(change_of(known, q.observation().protocol), r.0, e) && r.1@ == event_seq(q.sender_event()) + #[trigger] event_seq(e),
{
    let o = q.observation;
    let (receiver, change) = update_receiver(known, &o, now);
    let event = event_for(change, &receiver);
    let ghost e = event;
    let mut events: Vec<DiscoveryEvent> = Vec::new();
    match q.sender_event {
        Some(x) => events.push(x),
        None => {},
    }
    match event {
        Some(x) => events.push(x),
        None => {},
    }
    proof {
        assert(events@ =~= event_seq(q.sender_event) + event_seq(e));
    }
    (receiver, events)
}

/// Records one captured frame in a device store: the sender's record,
/// then the receiver's, each read, updated and written back; returns the
/// events raised, the sender's first (see [`frame_recorded`]). A frame
/// that does not decode changes nothing. The first failure of the store
/// is returned. The steps are [`begin_frame`], [`sender_read`] and
/// [`receiver_read`].
pub fn process_frame<S: DeviceStore>(store: &mut S, buf: &PacketBuf, now: Timestamp) -> (r: Result<Vec<DiscoveryEvent>, StorageError>)
    ensures
        observe_fails(bytes_contents(buf.raw)) ==> (r matches Ok(events) && events@.len() == 0) && final(store).devices()
            == old(store).devices(),
        r is Err ==> !observe_fails(bytes_contents(buf.raw)),
        old(store).answers() ==> r is Ok,
        match r {
            Ok(events) => !observe_fails(bytes_contents(buf.raw)) ==> exists|
                o: Observation,
                s: (Device, DeviceChange),
                t: (Device, DeviceChange),
            |
                #[trigger] frame_recorded(
                    bytes_contents(buf.raw),
                    now,
                    old(store).devices(),
                    final(store).devices(),
                    events@,
                    o,
                    s,
                    t,
                ),
            Err(_) => true,
        },
        r matches Ok(events) ==> events@.len() <= 2 && forall|k: int| 0 <= k < events@.len() ==> !(#[trigger] events@[k] is DeviceOffline),
{
    let ghost raw = bytes_contents(buf.raw);
    let ghost before = store.devices();
    let (pending, source) = match begin_frame(buf) {
        Some(x) => x,
        None => return Ok(Vec::new()),
    };
    let ghost o = pending.observation();
    let known = match store.get(&source) {
        Ok(d) => d,
        Err(e) => return Err(e),
    };
    let ghost known_sender = known;
    let (pending, sender, destination) = sender_read(pending, known, now);
    let ghost s = (sender, change_of(known_sender, o.protocol));
    let ghost es = pending.sender_event();
    match store.upsert(sender) {
        Ok(()) => {},
        Err(e) => return Err(e),
    }
    let ghost middle = store.devices();
    let known = match store.get(&destination) {
        Ok(d) => d,
        Err(e) => return Err(e),
    };
    let ghost known_receiver = known;
    let (receiver, events) = receiver_read(pending, known, now);
    let ghost t = (receiver, change_of(known_receiver, o.protocol));
    match store.upsert(receiver) {
        Ok(()) => {},
        Err(e) => return Err(e),
    }
    proof {
        assert(answered(before, o.source, known_sender) && sender_updated(known_sender, o, now, s));
        assert(answered(middle, o.destination, known_receiver) && receiver_updated(known_receiver, o, now, t));
        let et = choose|e: Option<DiscoveryEvent>|
            raised(t.1, t.0, e) && events@ == event_seq(es) + #[trigger] event_seq(e);
        assert(raised(s.1, s.0, es) && raised(t.1, t.0, et) && events@ == event_seq(es) + event_seq(et));
        assert(events_raised(s, t, events@));
        assert(frame_recorded(raw, now, before, store.devices(), events@, o, s, t));
        assert forall|k: int| 0 <= k < events@.len() implies !(#[trigger] events@[k] is DeviceOffline) by {
            if k < event_seq(es).len() {
                assert(events@[k] == event_seq(es)[k]);
            } else {
                assert(events@[k] == event_seq(et)[k - event_seq(es).len()]);
            }
        }
    }
    Ok(events)
}

/// Whether a frame tells nothing: it does not decode.
pub open spec fn observe_fails(raw: Seq<u8>) -> bool {
    decode_error(raw) is Some
}

} // verus!
