//! What the REST endpoints compute: the health answer, the device
//! lookup by a MAC address written in the path, and the metrics.

use vstd::prelude::*;
use vstd::utf8::{encode_scalar, encode_utf8};

use crate::crypto::{hex_decodable, hex_decode, hex_digit_value, hex_value};
use crate::text::{copy_str, push_char, push_str};
use crate::types::{hex_upper_byte, mac_text, Device, MacAddress};

verus! {

/// The answer of the health endpoint.
#[derive(Debug, Clone, PartialEq, Eq)]
pub struct HealthResponse {
    pub status: String,
    pub version: String,
}

/// The health answer: status `ok` and the program's version.
pub fn health_response(version: &str) -> (r: HealthResponse)
    ensures
        r.status@ == "ok"@,
        r.version@ == version@,
{
    HealthResponse { status: copy_str("ok"), version: copy_str(version) }
}

/// The answer of the metrics endpoint.
#[derive(Debug, Clone, Copy, PartialEq, Eq)]
pub struct MetricsResponse {
    pub total_devices: usize,
    pub total_packets: u64,
    pub total_bytes: u64,
    pub uptime_seconds: u64,
}

/// `s` without its colons.
pub open spec fn without_colons(s: Seq<char>) -> Seq<char>
    decreases s.len(),
{
    if s.len() == 0 {
        s
    } else if s.last() == ':' {
        without_colons(s.drop_last())
    } else {
        without_colons(s.drop_last()).push(s.last())
    }
}

/// What a MAC address written in a request path denotes: its colons
/// removed, the rest must be hexadecimal (else `invalid MAC address:
/// <path text>`) for exactly six bytes (else `invalid MAC address
/// length: <path text>`).
pub open spec fn spec_parse_mac_path(s: Seq<char>) -> Result<Seq<u8>, Seq<char>> {
    let digits = encode_utf8(without_colons(s));
    if !hex_decodable(digits) {
        Err("invalid MAC address: "@ + s)
    } else if hex_value(digits).len() != 6 {
        Err("invalid MAC address length: "@ + s)
    } else {
        Ok(hex_value(digits))
    }
}

fn remove_colons(s: &str) -> (r: String)
    ensures
        r@ == without_colons(s@),
{
    let mut out = String::new();
    let n = s.unicode_len();
    let mut i: usize = 0;
    while i < n
        invariant
            i <= n,
            n == s@.len(),
            out@ == without_colons(s@.subrange(0, i as int)),
        decreases n - i,
    {
        let c = s.get_char(i);
        if c != ':' {
            push_char(&mut out, c);
        }
        proof {
            assert(s@.subrange(0, i + 1).drop_last() == s@.subrange(0, i as int));
        }
        i = i + 1;
    }
    proof {
        assert(s@.subrange(0, n as int) == s@);
    }
    out
}

/// Parses a MAC address written in a request path (see
/// [`spec_parse_mac_path`]).
pub fn parse_mac_path(mac: &str) -> (r: Result<MacAddress, String>)
    ensures
        match spec_parse_mac_path(mac@) {
            Ok(b) => r matches Ok(m) && m@ == b,
            Err(e) => r matches Err(m) && m@ == e,
        },
{
    let clean = remove_colons(mac);
    match hex_decode(clean.as_str().as_bytes()) {
        Some(bytes) => {
            if bytes.len() != 6 {
                let mut m = copy_str("invalid MAC address length: ");
                push_str(&mut m, mac);
                return Err(m);
            }
            let octets: [u8; 6] = [bytes[0], bytes[1], bytes[2], bytes[3], bytes[4], bytes[5]];
            assert(octets@ =~= bytes@);
            Ok(MacAddress::new(octets))
        },
        None => {
            let mut m = copy_str("invalid MAC address: ");
            push_str(&mut m, mac);
            Err(m)
        },
    }
}

proof fn lemma_without_colons_concat(a: Seq<char>, b: Seq<char>)
    ensures
        without_colons(a + b) == without_colons(a) + without_colons(b),
    decreases b.len(),
{
    if b.len() == 0 {
        assert(a + b =~= a);
        assert(without_colons(a) + without_colons(b) =~= without_colons(a));
    } else {
        lemma_without_colons_concat(a, b.drop_last());
        assert((a + b).drop_last() =~= a + b.drop_last());
        assert((a + b).last() == b.last());
        if b.last() != ':' {
            assert(without_colons(a) + without_colons(b.drop_last()).push(b.last()) =~= (without_colons(a)
                + without_colons(b.drop_last())).push(b.last()));
        }
    }
}

/// The byte of an upper-case hexadecimal digit.
spec fn upper_digit_byte(d: nat) -> u8 {
    if d < 10 {
        (d + 48) as u8
    } else {
        (d + 55) as u8
    }
}

proof fn lemma_hex_byte_text(b: u8)
    ensures
        without_colons(hex_upper_byte(b)) == hex_upper_byte(b),
        encode_utf8(hex_upper_byte(b)) == seq![upper_digit_byte((b / 16) as nat), upper_digit_byte((b % 16) as nat)],
{
    let t = hex_upper_byte(b);
    let hi = (b / 16) as nat;
    let lo = (b % 16) as nat;
    assert(t[0] != ':' && t[1] != ':');
    reveal_with_fuel(without_colons, 3);
    reveal_with_fuel(encode_utf8, 3);
    assert(t.drop_last() =~= seq![t[0]]);
    assert(seq![t[0]].drop_last() =~= Seq::<char>::empty());
    assert(without_colons(seq![t[0]]) =~= seq![t[0]]);
    assert(without_colons(t) =~= t);
    let v0 = t[0] as u32;
    let v1 = t[1] as u32;
    assert(v0 == upper_digit_byte(hi) && v1 == upper_digit_byte(lo));
    assert((v0 & 0x7f) == v0) by (bit_vector)
        requires
            v0 <= 0x7f,
    ;
    assert((v1 & 0x7f) == v1) by (bit_vector)
        requires
            v1 <= 0x7f,
    ;
    assert(t.drop_first() =~= seq![t[1]]);
    assert(seq![t[1]].drop_first() =~= Seq::<char>::empty());
    assert(encode_utf8(seq![t[1]]) =~= seq![upper_digit_byte(lo)]);
    assert(encode_utf8(t) =~= seq![upper_digit_byte(hi), upper_digit_byte(lo)]);
}

proof fn lemma_upper_digit_value(d: nat)
    requires
        d < 16,
    ensures
        hex_digit_value(upper_digit_byte(d)) == Some(d as u8),
{
}

/// The hexadecimal digits of a MAC address, without separators.
spec fn mac_digits(mac: Seq<u8>) -> Seq<char> {
    hex_upper_byte(mac[0]) + hex_upper_byte(mac[1]) + hex_upper_byte(mac[2]) + hex_upper_byte(mac[3]) + hex_upper_byte(
        mac[4],
    ) + hex_upper_byte(mac[5])
}

/// The digit bytes of a MAC address's text: high then low nibble of each
/// octet.
spec fn mac_digit_bytes(mac: Seq<u8>) -> Seq<u8> {
    Seq::new(
        12,
        |i: int|
            if i % 2 == 0 {
                upper_digit_byte((mac[i / 2] / 16) as nat)
            } else {
                upper_digit_byte((mac[i / 2] % 16) as nat)
            },
    )
}

proof fn lemma_mac_text_digits(mac: Seq<u8>)
    requires
        mac.len() == 6,
    ensures
        without_colons(mac_text(mac)) == mac_digits(mac),
{
    let c = seq![':'];
    let h0 = hex_upper_byte(mac[0]);
    let h1 = hex_upper_byte(mac[1]);
    let h2 = hex_upper_byte(mac[2]);
    let h3 = hex_upper_byte(mac[3]);
    let h4 = hex_upper_byte(mac[4]);
    let h5 = hex_upper_byte(mac[5]);
    lemma_hex_byte_text(mac[0]);
    lemma_hex_byte_text(mac[1]);
    lemma_hex_byte_text(mac[2]);
    lemma_hex_byte_text(mac[3]);
    lemma_hex_byte_text(mac[4]);
    lemma_hex_byte_text(mac[5]);
    reveal_with_fuel(without_colons, 2);
    assert(c.drop_last() =~= Seq::<char>::empty());
    assert(without_colons(c) =~= Seq::<char>::empty());
    let t1 = h0 + c;
    let t2 = t1 + h1;
    let t3 = t2 + c;
    let t4 = t3 + h2;
    let t5 = t4 + c;
    let t6 = t5 + h3;
    let t7 = t6 + c;
    let t8 = t7 + h4;
    let t9 = t8 + c;
    let t10 = t9 + h5;
    lemma_without_colons_concat(h0, c);
    lemma_without_colons_concat(t1, h1);
    lemma_without_colons_concat(t2, c);
    lemma_without_colons_concat(t3, h2);
    lemma_without_colons_concat(t4, c);
    lemma_without_colons_concat(t5, h3);
    lemma_without_colons_concat(t6, c);
    lemma_without_colons_concat(t7, h4);
    lemma_without_colons_concat(t8, c);
    lemma_without_colons_concat(t9, h5);
    assert(without_colons(t1) =~= h0);
    assert(without_colons(t3) =~= h0 + h1);
    assert(without_colons(t5) =~= h0 + h1 + h2);
    assert(without_colons(t7) =~= h0 + h1 + h2 + h3);
    assert(without_colons(t9) =~= h0 + h1 + h2 + h3 + h4);
    assert(without_colons(t10) =~= mac_digits(mac));
}

proof fn lemma_mac_digits_bytes(mac: Seq<u8>)
    requires
        mac.len() == 6,
    ensures
        encode_utf8(mac_digits(mac)) == mac_digit_bytes(mac),
{
    let h0 = hex_upper_byte(mac[0]);
    let h1 = hex_upper_byte(mac[1]);
    let h2 = hex_upper_byte(mac[2]);
    let h3 = hex_upper_byte(mac[3]);
    let h4 = hex_upper_byte(mac[4]);
    let h5 = hex_upper_byte(mac[5]);
    lemma_hex_byte_text(mac[0]);
    lemma_hex_byte_text(mac[1]);
    lemma_hex_byte_text(mac[2]);
    lemma_hex_byte_text(mac[3]);
    lemma_hex_byte_text(mac[4]);
    lemma_hex_byte_text(mac[5]);
    lemma_encode_concat(h0, h1);
    lemma_encode_concat(h0 + h1, h2);
    lemma_encode_concat(h0 + h1 + h2, h3);
    lemma_encode_concat(h0 + h1 + h2 + h3, h4);
    lemma_encode_concat(h0 + h1 + h2 + h3 + h4, h5);
    assert(encode_utf8(mac_digits(mac)) =~= mac_digit_bytes(mac));
}

/// A device's MAC address as every listing writes it
/// (`00:11:22:AA:BB:CC`), used as a request path, denotes that address.
pub proof fn law_mac_path_read_back(mac: Seq<u8>)
    requires
        mac.len() == 6,
    ensures
        spec_parse_mac_path(mac_text(mac)) == Ok::<Seq<u8>, Seq<char>>(mac),
{
    lemma_mac_text_digits(mac);
    lemma_mac_digits_bytes(mac);
    let flat = mac_digit_bytes(mac);
    assert forall|i: int| 0 <= i < flat.len() implies (#[trigger] hex_digit_value(flat[i])) is Some by {
        if i % 2 == 0 {
            lemma_upper_digit_value((mac[i / 2] / 16) as nat);
        } else {
            lemma_upper_digit_value((mac[i / 2] % 16) as nat);
        }
    }
    assert(hex_decodable(flat));
    assert forall|k: int| 0 <= k < 6 implies #[trigger] hex_value(flat)[k] == mac[k] by {
        lemma_upper_digit_value((mac[k] / 16) as nat);
        lemma_upper_digit_value((mac[k] % 16) as nat);
        assert((2 * k) % 2 == 0 && (2 * k) / 2 == k);
        assert((2 * k + 1) % 2 == 1 && (2 * k + 1) / 2 == k);
    }
    assert(hex_value(flat) =~= mac);
}

proof fn lemma_encode_concat(a: Seq<char>, b: Seq<char>)
    ensures
        encode_utf8(a + b) == encode_utf8(a) + encode_utf8(b),
    decreases a.len(),
{
    if a.len() == 0 {
        assert(a + b =~= b);
        assert(encode_utf8(a) + encode_utf8(b) =~= encode_utf8(b));
    } else {
        lemma_encode_concat(a.drop_first(), b);
        assert((a + b).drop_first() =~= a.drop_first() + b);
        assert((a + b)[0] == a[0]);
        assert(encode_scalar(a[0] as u32) + (encode_utf8(a.drop_first()) + encode_utf8(b)) =~= (encode_scalar(a[0] as u32)
            + encode_utf8(a.drop_first())) + encode_utf8(b));
    }
}

/// The message for a device that is not stored.
pub fn device_not_found_message(mac: &MacAddress) -> (r: String)
    ensures
        r@ == "device not found: "@ + mac_text(mac@),
{
    let mut m = copy_str("device not found: ");
    push_str(&mut m, mac.to_string().as_str());
    m
}

/// The packets of all devices together.
pub open spec fn total_packets(ds: Seq<Device>) -> int
    decreases ds.len(),
{
    if ds.len() == 0 {
        0
    } else {
        total_packets(ds.drop_last()) + ds.last().packet_count
    }
}

/// The bytes sent and received by all devices together.
pub open spec fn total_bytes(ds: Seq<Device>) -> int
    decreases ds.len(),
{
    if ds.len() == 0 {
        0
    } else {
        total_bytes(ds.drop_last()) + ds.last().bytes_sent + ds.last().bytes_received
    }
}

proof fn lemma_totals_monotone(ds: Seq<Device>, i: int)
    requires
        0 <= i <= ds.len(),
    ensures
        0 <= total_packets(ds.subrange(0, i)) <= total_packets(ds),
        0 <= total_bytes(ds.subrange(0, i)) <= total_bytes(ds),
    decreases ds.len() - i,
{
    if i < ds.len() {
        lemma_totals_monotone(ds, i + 1);
        assert(ds.subrange(0, i + 1).drop_last() == ds.subrange(0, i));
    } else {
        assert(ds.subrange(0, i) == ds);
    }
    lemma_totals_nonnegative(ds.subrange(0, i));
}

proof fn lemma_totals_nonnegative(ds: Seq<Device>)
    ensures
        total_packets(ds) >= 0,
        total_bytes(ds) >= 0,
    decreases ds.len(),
{
    if ds.len() > 0 {
        lemma_totals_nonnegative(ds.drop_last());
    }
}

/// Whether the totals of the metrics fit in 64 bits.
pub open spec fn metrics_fit(ds: Seq<Device>) -> bool {
    total_packets(ds) <= u64::MAX && total_bytes(ds) <= u64::MAX
}

/// The metrics of a list of devices: how many, their packets and bytes
/// together, and the given uptime.
pub fn compute_metrics(devices: &Vec<Device>, uptime_seconds: u64) -> (r: MetricsResponse)
    requires
        metrics_fit(devices@),
    ensures
        r.total_devices == devices@.len(),
        r.total_packets == total_packets(devices@),
        r.total_bytes == total_bytes(devices@),
        r.uptime_seconds == uptime_seconds,
{
    let mut packets: u64 = 0;
    let mut bytes: u64 = 0;
    let mut i: usize = 0;
    while i < devices.len()
        invariant
            i <= devices@.len(),
            metrics_fit(devices@),
            packets == total_packets(devices@.subrange(0, i as int)),
            bytes == total_bytes(devices@.subrange(0, i as int)),
        decreases devices@.len() - i,
    {
        proof {
            assert(devices@.subrange(0, i + 1).drop_last() == devices@.subrange(0, i as int));
            lemma_totals_monotone(devices@, i + 1);
        }
        packets = packets + devices[i].packet_count;
        bytes = bytes + devices[i].bytes_sent + devices[i].bytes_received;
        i = i + 1;
    }
    proof {
        assert(devices@.subrange(0, i as int) == devices@);
    }
    MetricsResponse { total_devices: devices.len(), total_packets: packets, total_bytes: bytes, uptime_seconds }
}

/// Whether the totals of `devices` fit in 64 bits (see
/// [`compute_metrics`]).
pub fn metrics_within_range(devices: &Vec<Device>) -> (r: bool)
    ensures
        r == metrics_fit(devices@),
{
    let mut packets: u64 = 0;
    let mut bytes: u64 = 0;
    let mut i: usize = 0;
    while i < devices.len()
        invariant
            i <= devices@.len(),
            packets == total_packets(devices@.subrange(0, i as int)),
            bytes == total_bytes(devices@.subrange(0, i as int)),
        decreases devices@.len() - i,
    {
        proof {
            assert(devices@.subrange(0, i + 1).drop_last() == devices@.subrange(0, i as int));
            lemma_totals_monotone(devices@, i + 1);
            lemma_totals_monotone(devices@, i as int);
        }
        let d = &devices[i];
        if d.packet_count > u64::MAX - packets {
            proof {
                lemma_totals_monotone(devices@, i + 1);
            }
            return false;
        }
        if d.bytes_sent > u64::MAX - bytes || d.bytes_received > u64::MAX - bytes - d.bytes_sent {
            proof {
                lemma_totals_monotone(devices@, i + 1);
            }
            return false;
        }
        packets = packets + d.packet_count;
        bytes = bytes + d.bytes_sent + d.bytes_received;
        i = i + 1;
    }
    proof {
        assert(devices@.subrange(0, i as int) == devices@);
    }
    true
}

} // verus!
