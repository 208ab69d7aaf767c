//! Core domain types: MAC and IP addresses, timestamps, sorted protocol
//! and address sets, per-protocol counters, and the device record.

use vstd::prelude::*;

use crate::protocol::{protocol_rank, Protocol};
use crate::text::{decimal, push_char, push_decimal};
use crate::protocol::lemma_rank_injective;

verus! {

// ---------------------------------------------------------------- MAC

/// A 48-bit MAC address.
#[derive(Debug, Clone, Copy, PartialEq, Eq, Hash)]
pub struct MacAddress {
    pub octets: [u8; 6],
}

impl View for MacAddress {
    type V = Seq<u8>;

    open spec fn view(&self) -> Seq<u8> {
        self.octets@
    }
}

/// Upper-case hexadecimal digit for `d < 16`.
pub open spec fn hex_upper_digit(d: nat) -> char {
    if d < 10 {
        (d + 48) as char
    } else {
        (d + 55) as char
    }
}

/// Two upper-case hexadecimal digits of a byte.
pub open spec fn hex_upper_byte(b: u8) -> Seq<char> {
    seq![hex_upper_digit((b / 16) as nat), hex_upper_digit((b % 16) as nat)]
}

/// The colon-separated upper-case form `00:11:22:AA:BB:CC`.
pub open spec fn mac_text(b: Seq<u8>) -> Seq<char> {
    hex_upper_byte(b[0]) + seq![':'] + hex_upper_byte(b[1]) + seq![':'] + hex_upper_byte(b[2]) + seq![':']
        + hex_upper_byte(b[3]) + seq![':'] + hex_upper_byte(b[4]) + seq![':'] + hex_upper_byte(b[5])
}

fn hex_digit_upper(d: u8) -> (c: char)
    requires
        d < 16,
    ensures
        c == hex_upper_digit(d as nat),
{
    if d < 10 {
        let b: u8 = d + 48;
        let c = b as char;
        assert(c == (d + 48) as char);
        c
    } else {
        let b: u8 = d + 55;
        let c = b as char;
        assert(c == (d + 55) as char);
        c
    }
}

fn push_hex_byte(s: &mut String, b: u8)
    ensures
        final(s)@ == old(s)@ + hex_upper_byte(b),
{
    push_char(s, hex_digit_upper(b / 16));
    push_char(s, hex_digit_upper(b % 16));
    assert(final(s)@ =~= old(s)@ + hex_upper_byte(b));
}

impl MacAddress {
    /// A MAC address from its six octets.
    pub fn new(octets: [u8; 6]) -> (r: MacAddress)
        ensures
            r@ == octets@,
    {
        MacAddress { octets }
    }

    /// The six octets.
    pub fn octets(&self) -> (r: [u8; 6])
        ensures
            r@ == self@,
    {
        self.octets
    }

    /// Octet `i`.
    pub fn octet(&self, i: usize) -> (r: u8)
        requires
            i < 6,
        ensures
            r == self@[i as int],
    {
        self.octets[i]
    }

    /// Whether two addresses are the same.
    pub fn same(&self, other: &MacAddress) -> (r: bool)
        ensures
            r == (self@ == other@),
    {
        let mut i: usize = 0;
        while i < 6
            invariant
                i <= 6,
                self@.len() == 6,
                other@.len() == 6,
                forall|j: int| 0 <= j < i ==> self@[j] == other@[j],
            decreases 6 - i,
        {
            if self.octets[i] != other.octets[i] {
                return false;
            }
            i = i + 1;
        }
        assert(self@ =~= other@);
        true
    }

    /// The colon-separated upper-case form (see [`mac_text`]).
    pub fn to_string(&self) -> (r: String)
        ensures
            r@ == mac_text(self@),
    {
        let mut s = String::new();
        push_hex_byte(&mut s, self.octets[0]);
        push_char(&mut s, ':');
        push_hex_byte(&mut s, self.octets[1]);
        push_char(&mut s, ':');
        push_hex_byte(&mut s, self.octets[2]);
        push_char(&mut s, ':');
        push_hex_byte(&mut s, self.octets[3]);
        push_char(&mut s, ':');
        push_hex_byte(&mut s, self.octets[4]);
        push_char(&mut s, ':');
        push_hex_byte(&mut s, self.octets[5]);
        assert(s@ =~= mac_text(self@));
        s
    }
}

// ---------------------------------------------------------------- IP

/// An IP address: IPv4 as a 32-bit and IPv6 as a 128-bit number, most
/// significant octet first.
#[derive(Debug, Clone, Copy, PartialEq, Eq, Structural, Hash)]
pub enum IpAddr {
    V4(u32),
    V6(u128),
}

/// The order of addresses: every IPv4 address before every IPv6
/// address, each family by numeric value.
pub open spec fn ip_less(a: IpAddr, b: IpAddr) -> bool {
    match (a, b) {
        (IpAddr::V4(x), IpAddr::V4(y)) => x < y,
        (IpAddr::V4(_), IpAddr::V6(_)) => true,
        (IpAddr::V6(_), IpAddr::V4(_)) => false,
        (IpAddr::V6(x), IpAddr::V6(y)) => x < y,
    }
}

/// The dotted-quad form `a.b.c.d` of an IPv4 address.
pub open spec fn ipv4_text(n: u32) -> Seq<char> {
    decimal((n / 16777216) as nat) + seq!['.'] + decimal(((n / 65536) % 256) as nat) + seq!['.']
        + decimal(((n / 256) % 256) as nat) + seq!['.'] + decimal((n % 256) as nat)
}

/// Lower-case hexadecimal digit for `d < 16`.
pub open spec fn hex_lower_digit(d: nat) -> char {
    if d < 10 {
        (d + 48) as char
    } else {
        (d + 87) as char
    }
}

/// One 16-bit group of an IPv6 address in lower-case hexadecimal
/// without leading zeros.
pub open spec fn hex_group(g: nat) -> Seq<char>
    decreases g,
{
    if g < 16 {
        seq![hex_lower_digit(g)]
    } else {
        hex_group(g / 16).push(hex_lower_digit(g % 16))
    }
}

/// Group `i` (0 = most significant) of a 128-bit address.
pub open spec fn ipv6_group(bits: u128, i: int) -> nat {
    ((bits >> ((112 - 16 * i) as u32)) & 0xffffu128) as nat
}

/// Groups `from..to` written with `:` between them.
pub open spec fn ipv6_groups_text(bits: u128, from: int, to: int) -> Seq<char>
    decreases to - from,
{
    if to <= from {
        Seq::empty()
    } else if to == from + 1 {
        hex_group(ipv6_group(bits, from))
    } else {
        ipv6_groups_text(bits, from, to - 1) + seq![':'] + hex_group(ipv6_group(bits, to - 1))
    }
}

/// Length of the run of zero groups starting at group `i`.
pub open spec fn zero_run(bits: u128, i: int) -> int
    decreases 8 - i,
{
    if i >= 8 || i < 0 || ipv6_group(bits, i) != 0 {
        0
    } else {
        1 + zero_run(bits, i + 1)
    }
}

/// The start of the first longest run of at least two zero groups among
/// groups `i..8`, with its length; `(8, 0)` when there is none.
pub open spec fn longest_zero_run(bits: u128, i: int) -> (int, int)
    decreases 8 - i,
{
    if i >= 8 || i < 0 {
        (8, 0)
    } else {
        let rest = longest_zero_run(bits, i + 1);
        let here = zero_run(bits, i);
        if here >= 2 && here >= rest.1 {
            (i, here)
        } else {
            rest
        }
    }
}

/// The RFC 5952 text of an IPv6 address: lower-case groups without
/// leading zeros, the first longest run of two or more zero groups
/// written as `::`, and IPv4-mapped addresses as `::ffff:a.b.c.d`.
pub open spec fn ipv6_text(bits: u128) -> Seq<char> {
    if (bits >> 32u32) == 0xffffu128 {
        seq![':', ':', 'f', 'f', 'f', 'f', ':'] + ipv4_text((bits & 0xffff_ffffu128) as u32)
    } else {
        let (start, len) = longest_zero_run(bits, 0);
        if len == 0 {
            ipv6_groups_text(bits, 0, 8)
        } else {
            ipv6_groups_text(bits, 0, start) + seq![':', ':'] + ipv6_groups_text(bits, start + len, 8)
        }
    }
}

/// The display form of an address.
pub open spec fn ip_text(a: IpAddr) -> Seq<char> {
    match a {
        IpAddr::V4(n) => ipv4_text(n),
        IpAddr::V6(n) => ipv6_text(n),
    }
}

fn hex_digit_lower(d: u16) -> (c: char)
    requires
        d < 16,
    ensures
        c == hex_lower_digit(d as nat),
{
    if d < 10 {
        let b: u8 = (d as u8) + 48;
        let c = b as char;
        assert(c == (d + 48) as char);
        c
    } else {
        let b: u8 = (d as u8) + 87;
        let c = b as char;
        assert(c == (d + 87) as char);
        c
    }
}

fn push_hex_group(s: &mut String, g: u16)
    ensures
        final(s)@ == old(s)@ + hex_group(g as nat),
    decreases g,
{
    if g < 16 {
        push_char(s, hex_digit_lower(g));
        assert(hex_group(g as nat) == seq![hex_lower_digit(g as nat)]);
    } else {
        push_hex_group(s, g / 16);
        push_char(s, hex_digit_lower(g % 16));
    }
}

fn group_at(bits: u128, i: usize) -> (r: u16)
    requires
        i < 8,
    ensures
        r == ipv6_group(bits, i as int),
{
    let sh: u32 = 112 - 16 * (i as u32);
    let x: u128 = (bits >> sh) & 0xffff;
    assert(x <= 0xffff) by (bit_vector)
        requires
            x == (bits >> sh) & 0xffff,
    ;
    x as u16
}

fn zero_run_at(bits: u128, i: usize) -> (r: usize)
    requires
        i <= 8,
    ensures
        r == zero_run(bits, i as int),
        r <= 8 - i,
    decreases 8 - i,
{
    if i >= 8 || group_at(bits, i) != 0 {
        0
    } else {
        1 + zero_run_at(bits, i + 1)
    }
}

fn longest_zero_run_at(bits: u128, i: usize) -> (r: (usize, usize))
    requires
        i <= 8,
    ensures
        r.0 == longest_zero_run(bits, i as int).0,
        r.1 == longest_zero_run(bits, i as int).1,
        r.0 <= 8,
        r.0 + r.1 <= 8,
    decreases 8 - i,
{
    if i >= 8 {
        (8, 0)
    } else {
        let rest = longest_zero_run_at(bits, i + 1);
        let here = zero_run_at(bits, i);
        if here >= 2 && here >= rest.1 {
            (i, here)
        } else {
            rest
        }
    }
}

fn push_groups(s: &mut String, bits: u128, from: usize, to: usize)
    requires
        to <= 8,
    ensures
        final(s)@ == old(s)@ + ipv6_groups_text(bits, from as int, to as int),
    decreases to,
{
    if to <= from {
    } else if to == from + 1 {
        push_hex_group(s, group_at(bits, from));
    } else {
        push_groups(s, bits, from, to - 1);
        push_char(s, ':');
        push_hex_group(s, group_at(bits, to - 1));
        assert(final(s)@ =~= old(s)@ + ipv6_groups_text(bits, from as int, to as int));
    }
}

fn push_ipv4(s: &mut String, n: u32)
    ensures
        final(s)@ == old(s)@ + ipv4_text(n),
{
    push_decimal(s, (n / 16777216) as u64);
    push_char(s, '.');
    push_decimal(s, ((n / 65536) % 256) as u64);
    push_char(s, '.');
    push_decimal(s, ((n / 256) % 256) as u64);
    push_char(s, '.');
    push_decimal(s, (n % 256) as u64);
    assert(final(s)@ =~= old(s)@ + ipv4_text(n));
}

fn push_ipv6(s: &mut String, bits: u128)
    ensures
        final(s)@ == old(s)@ + ipv6_text(bits),
{
    if (bits >> 32u32) == 0xffff {
        push_char(s, ':');
        push_char(s, ':');
        push_char(s, 'f');
        push_char(s, 'f');
        push_char(s, 'f');
        push_char(s, 'f');
        push_char(s, ':');
        let low: u128 = bits & 0xffff_ffff;
        assert(low <= 0xffff_ffff) by (bit_vector)
            requires
                low == bits & 0xffff_ffff,
        ;
        push_ipv4(s, low as u32);
        assert(final(s)@ =~= old(s)@ + ipv6_text(bits));
    } else {
        let (start, len) = longest_zero_run_at(bits, 0);
        if len == 0 {
            push_groups(s, bits, 0, 8);
        } else {
            push_groups(s, bits, 0, start);
            push_char(s, ':');
            push_char(s, ':');
            push_groups(s, bits, start + len, 8);
            assert(final(s)@ =~= old(s)@ + ipv6_text(bits));
        }
    }
}

impl IpAddr {
    /// The IPv4 address `a.b.c.d`.
    pub fn v4(a: u8, b: u8, c: u8, d: u8) -> (r: IpAddr)
        ensures
            r == IpAddr::V4((a * 16777216 + b * 65536 + c * 256 + d) as u32),
    {
        IpAddr::V4((a as u32) * 16777216 + (b as u32) * 65536 + (c as u32) * 256 + (d as u32))
    }

    /// Whether `self` sorts before `other` (see [`ip_less`]).
    pub fn less(&self, other: &IpAddr) -> (r: bool)
        ensures
            r == ip_less(*self, *other),
    {
        match (self, other) {
            (IpAddr::V4(x), IpAddr::V4(y)) => *x < *y,
            (IpAddr::V4(_), IpAddr::V6(_)) => true,
            (IpAddr::V6(_), IpAddr::V4(_)) => false,
            (IpAddr::V6(x), IpAddr::V6(y)) => *x < *y,
        }
    }

    /// The display form (see [`ip_text`]).
    pub fn to_string(&self) -> (r: String)
        ensures
            r@ == ip_text(*self),
    {
        let mut s = String::new();
        match self {
            IpAddr::V4(n) => push_ipv4(&mut s, *n),
            IpAddr::V6(n) => push_ipv6(&mut s, *n),
        }
        assert(s@ =~= ip_text(*self));
        s
    }
}

// ---------------------------------------------------------------- time

/// A UTC instant: whole milliseconds since the Unix epoch, and the
/// nanoseconds past that millisecond (below 1 000 000).
#[derive(Debug, Clone, Copy, PartialEq, Eq, Structural, Hash)]
pub struct Timestamp {
    pub millis: i64,
    pub nanos: u32,
}

/// The instant in nanoseconds since the Unix epoch.
pub open spec fn epoch_nanos(t: Timestamp) -> int {
    t.millis * 1_000_000 + t.nanos
}

/// Whether `a` is a later instant than `b`.
pub open spec fn later_than(a: Timestamp, b: Timestamp) -> bool {
    a.millis > b.millis || (a.millis == b.millis && a.nanos > b.nanos)
}

/// The ISO 8601 text `YYYY-MM-DDTHH:MM:SS.mmmZ` that chrono's
/// `format("%Y-%m-%dT%H:%M:%S%.3fZ")` gives for the instant `millis`
/// milliseconds after the epoch (the empty text outside chrono's range).
pub uninterp spec fn iso8601_millis(millis: i64) -> Seq<char>;

/// Reads the current UTC time through chrono (`Utc::now`): its whole
/// milliseconds since the epoch (`timestamp_millis`) and the nanoseconds
/// past its second (`timestamp_subsec_nanos`).
#[verifier::external_body]
fn utc_now_parts() -> (i64, u32) {
    let t = chrono::Utc::now();
    (t.timestamp_millis(), t.timestamp_subsec_nanos())
}

/// Formats an instant with chrono (see [`iso8601_millis`]).
#[verifier::external_body]
fn format_iso8601_millis(millis: i64) -> (r: String)
    ensures
        r@ == iso8601_millis(millis),
{
    match chrono::DateTime::from_timestamp_millis(millis) {
        Some(dt) => dt.format("%Y-%m-%dT%H:%M:%S%.3fZ").to_string(),
        None => String::new(),
    }
}

impl Timestamp {
    /// The current time.
    pub fn now() -> (r: Timestamp)
        ensures
            r.nanos < 1_000_000,
    {
        let (millis, subsec) = utc_now_parts();
        Timestamp { millis, nanos: subsec % 1_000_000 }
    }

    /// The instant `millis` milliseconds after the epoch.
    pub fn from_millis(millis: i64) -> (r: Timestamp)
        ensures
            r.millis == millis,
            r.nanos == 0,
    {
        Timestamp { millis, nanos: 0 }
    }

    /// Whether this instant is later than `other`.
    pub fn is_after(&self, other: &Timestamp) -> (r: bool)
        ensures
            r == later_than(*self, *other),
    {
        self.millis > other.millis || (self.millis == other.millis && self.nanos > other.nanos)
    }

    /// The ISO 8601 form with millisecond precision.
    pub fn to_string(&self) -> (r: String)
        ensures
            r@ == iso8601_millis(self.millis),
    {
        format_iso8601_millis(self.millis)
    }
}

// ---------------------------------------------------------------- sets

/// A set of protocols kept in the order of [`protocol_rank`].
#[derive(Debug, PartialEq, Eq)]
pub struct ProtocolSet {
    items: Vec<Protocol>,
}

/// Strictly increasing by rank.
pub open spec fn sorted_protocols(s: Seq<Protocol>) -> bool {
    forall|i: int, j: int| 0 <= i < j < s.len() ==> protocol_rank(s[i]) < protocol_rank(s[j])
}

impl View for ProtocolSet {
    type V = Seq<Protocol>;

    closed spec fn view(&self) -> Seq<Protocol> {
        self.items@
    }
}

impl Clone for ProtocolSet {
    fn clone(&self) -> (r: ProtocolSet)
        ensures
            r@ == self@,
    {
        proof {
            use_type_invariant(self);
        }
        let mut items: Vec<Protocol> = Vec::new();
        let mut i: usize = 0;
        while i < self.items.len()
            invariant
                i <= self.items@.len(),
                items@ == self.items@.subrange(0, i as int),
            decreases self.items@.len() - i,
        {
            items.push(self.items[i]);
            assert(self.items@.subrange(0, i + 1) == self.items@.subrange(0, i as int).push(self.items@[i as int]));
            i = i + 1;
        }
        assert(self.items@.subrange(0, i as int) == self.items@);
        ProtocolSet { items }
    }
}

impl ProtocolSet {
    #[verifier::type_invariant]
    spec fn wf(&self) -> bool {
        sorted_protocols(self.items@)
    }

    /// The empty set.
    pub fn new() -> (r: ProtocolSet)
        ensures
            r@ == Seq::<Protocol>::empty(),
    {
        ProtocolSet { items: Vec::new() }
    }

    /// Number of elements.
    pub fn len(&self) -> (r: usize)
        ensures
            r == self@.len(),
    {
        self.items.len()
    }

    /// Whether the set is empty.
    pub fn is_empty(&self) -> (r: bool)
        ensures
            r == (self@.len() == 0),
    {
        self.items.len() == 0
    }

    /// Element `i` in rank order.
    pub fn get(&self, i: usize) -> (r: Protocol)
        requires
            i < self@.len(),
        ensures
            r == self@[i as int],
    {
        self.items[i]
    }

    /// The element of lowest rank, if any.
    pub fn first(&self) -> (r: Option<Protocol>)
        ensures
            r == (if self@.len() == 0 {
                None
            } else {
                Some(self@[0])
            }),
    {
        if self.items.len() == 0 {
            None
        } else {
            Some(self.items[0])
        }
    }

    /// Whether `p` is an element.
    pub fn contains(&self, p: &Protocol) -> (r: bool)
        ensures
            r == self@.contains(*p),
    {
        let mut i: usize = 0;
        while i < self.items.len()
            invariant
                i <= self.items@.len(),
                forall|j: int| 0 <= j < i ==> self.items@[j] != *p,
            decreases self.items@.len() - i,
        {
            if self.items[i] == *p {
                return true;
            }
            i = i + 1;
        }
        false
    }

    /// Inserts `p`, keeping rank order; no effect when present.
    pub fn insert(&mut self, p: Protocol)
        ensures
            final(self)@.to_set() == old(self)@.to_set().insert(p),
            old(self)@.contains(p) ==> final(self)@ == old(self)@,
    {
        proof {
            use_type_invariant(&*self);
        }
        let rank = p.rank();
        let mut i: usize = 0;
        while i < self.items.len() && self.items[i].rank() < rank
            invariant
                i <= self.items@.len(),
                sorted_protocols(self.items@),
                rank == protocol_rank(p),
                forall|j: int| 0 <= j < i ==> protocol_rank(self.items@[j]) < protocol_rank(p),
            decreases self.items@.len() - i,
        {
            i = i + 1;
        }
        if i < self.items.len() && self.items[i].rank() == rank {
            proof {
                crate::protocol::lemma_rank_injective(self.items@[i as int], p);
                assert(self.items@.to_set().insert(p) =~= self.items@.to_set());
            }
            return;
        }
        let ghost old_items = self.items@;
        let mut items: Vec<Protocol> = Vec::new();
        std::mem::swap(&mut items, &mut self.items);
        items.insert(i, p);
        proof {
            assert(items@ == old_items.subrange(0, i as int).push(p) + old_items.subrange(i as int, old_items.len() as int));
            assert forall|a: int, b: int| 0 <= a < b < items@.len() implies protocol_rank(items@[a]) < protocol_rank(items@[b]) by {
                if b < i {
                } else if b == i {
                } else if a < i {
                    assert(items@[b] == old_items[b - 1]);
                } else if a == i {
                    assert(items@[b] == old_items[b - 1]);
                } else {
                    assert(items@[a] == old_items[a - 1]);
                    assert(items@[b] == old_items[b - 1]);
                }
            }
            assert(items@.to_set() =~= old_items.to_set().insert(p)) by {
                assert forall|x: Protocol| items@.contains(x) <==> old_items.contains(x) || x == p by {
                    if items@.contains(x) {
                        let k = choose|k: int| 0 <= k < items@.len() && items@[k] == x;
                        if k < i {
                            assert(old_items[k] == x);
                        } else if k > i {
                            assert(old_items[k - 1] == x);
                        }
                    }
                    if old_items.contains(x) {
                        let k = choose|k: int| 0 <= k < old_items.len() && old_items[k] == x;
                        if k < i {
                            assert(items@[k] == x);
                        } else {
                            assert(items@[k + 1] == x);
                        }
                    }
                    if x == p {
                        assert(items@[i as int] == p);
                    }
                }
            }
            assert(!old_items.contains(p)) by {
                if old_items.contains(p) {
                    let k = choose|k: int| 0 <= k < old_items.len() && old_items[k] == p;
                    if k < i {
                    } else {
                        assert(protocol_rank(old_items[k]) >= protocol_rank(old_items[i as int]));
                    }
                }
            }
        }
        self.items = items;
    }
}


proof fn lemma_ip_less_trans(a: IpAddr, b: IpAddr, c: IpAddr)
    requires
        ip_less(a, b),
        ip_less(b, c),
    ensures
        ip_less(a, c),
{
}

/// A set of IP addresses kept in the order of [`ip_less`].
#[derive(Debug, PartialEq, Eq)]
pub struct IpSet {
    items: Vec<IpAddr>,
}

/// Strictly increasing by [`ip_less`].
pub open spec fn sorted_ips(s: Seq<IpAddr>) -> bool {
    forall|i: int, j: int| 0 <= i < j < s.len() ==> ip_less(s[i], s[j])
}

impl View for IpSet {
    type V = Seq<IpAddr>;

    closed spec fn view(&self) -> Seq<IpAddr> {
        self.items@
    }
}

impl Clone for IpSet {
    fn clone(&self) -> (r: IpSet)
        ensures
            r@ == self@,
    {
        proof {
            use_type_invariant(self);
        }
        let mut items: Vec<IpAddr> = Vec::new();
        let mut i: usize = 0;
        while i < self.items.len()
            invariant
                i <= self.items@.len(),
                items@ == self.items@.subrange(0, i as int),
            decreases self.items@.len() - i,
        {
            items.push(self.items[i]);
            assert(self.items@.subrange(0, i + 1) == self.items@.subrange(0, i as int).push(self.items@[i as int]));
            i = i + 1;
        }
        assert(self.items@.subrange(0, i as int) == self.items@);
        IpSet { items }
    }
}

impl IpSet {
    #[verifier::type_invariant]
    spec fn wf(&self) -> bool {
        sorted_ips(self.items@)
    }

    /// The empty set.
    pub fn new() -> (r: IpSet)
        ensures
            r@ == Seq::<IpAddr>::empty(),
    {
        IpSet { items: Vec::new() }
    }

    /// Number of addresses.
    pub fn len(&self) -> (r: usize)
        ensures
            r == self@.len(),
    {
        self.items.len()
    }

    /// Whether the set is empty.
    pub fn is_empty(&self) -> (r: bool)
        ensures
            r == (self@.len() == 0),
    {
        self.items.len() == 0
    }

    /// Address `i` in ascending order.
    pub fn get(&self, i: usize) -> (r: IpAddr)
        requires
            i < self@.len(),
        ensures
            r == self@[i as int],
    {
        self.items[i]
    }

    /// The smallest address, if any.
    pub fn first(&self) -> (r: Option<IpAddr>)
        ensures
            r == (if self@.len() == 0 {
                None
            } else {
                Some(self@[0])
            }),
    {
        if self.items.len() == 0 {
            None
        } else {
            Some(self.items[0])
        }
    }

    /// Whether `ip` is an element.
    pub fn contains(&self, ip: &IpAddr) -> (r: bool)
        ensures
            r == self@.contains(*ip),
    {
        let mut i: usize = 0;
        while i < self.items.len()
            invariant
                i <= self.items@.len(),
                forall|j: int| 0 <= j < i ==> self.items@[j] != *ip,
            decreases self.items@.len() - i,
        {
            if self.items[i] == *ip {
                return true;
            }
            i = i + 1;
        }
        false
    }

    /// Inserts `ip`, keeping ascending order; no effect when present.
    pub fn insert(&mut self, ip: IpAddr)
        ensures
            final(self)@.to_set() == old(self)@.to_set().insert(ip),
            old(self)@.contains(ip) ==> final(self)@ == old(self)@,
    {
        proof {
            use_type_invariant(&*self);
        }
        let mut i: usize = 0;
        while i < self.items.len() && self.items[i].less(&ip)
            invariant
                i <= self.items@.len(),
                sorted_ips(self.items@),
                forall|j: int| 0 <= j < i ==> ip_less(self.items@[j], ip),
            decreases self.items@.len() - i,
        {
            i = i + 1;
        }
        if i < self.items.len() && self.items[i] == ip {
            proof {
                assert(self.items@.to_set().insert(ip) =~= self.items@.to_set());
            }
            return;
        }
        let ghost old_items = self.items@;
        let mut items: Vec<IpAddr> = Vec::new();
        std::mem::swap(&mut items, &mut self.items);
        items.insert(i, ip);
        proof {
            assert(i < old_items.len() ==> ip_less(ip, old_items[i as int]));
            assert(items@ == old_items.subrange(0, i as int).push(ip) + old_items.subrange(i as int, old_items.len() as int));
            assert forall|a: int, b: int| 0 <= a < b < items@.len() implies ip_less(items@[a], items@[b]) by {
                if b < i {
                } else if b == i {
                } else if a < i {
                    assert(items@[a] == old_items[a]);
                    assert(items@[b] == old_items[b - 1]);
                } else if a == i {
                    assert(items@[b] == old_items[b - 1]);
                    if b - 1 > i {
                        lemma_ip_less_trans(ip, old_items[i as int], old_items[b - 1]);
                    }
                } else {
                    assert(items@[a] == old_items[a - 1]);
                    assert(items@[b] == old_items[b - 1]);
                }
            }
            assert(items@.to_set() =~= old_items.to_set().insert(ip)) by {
                assert forall|x: IpAddr| items@.contains(x) <==> old_items.contains(x) || x == ip by {
                    if items@.contains(x) {
                        let k = choose|k: int| 0 <= k < items@.len() && items@[k] == x;
                        if k < i {
                            assert(old_items[k] == x);
                        } else if k > i {
                            assert(old_items[k - 1] == x);
                        }
                    }
                    if old_items.contains(x) {
                        let k = choose|k: int| 0 <= k < old_items.len() && old_items[k] == x;
                        if k < i {
                            assert(items@[k] == x);
                        } else {
                            assert(items@[k + 1] == x);
                        }
                    }
                    if x == ip {
                        assert(items@[i as int] == ip);
                    }
                }
            }
            assert(!old_items.contains(ip)) by {
                if old_items.contains(ip) {
                    let k = choose|k: int| 0 <= k < old_items.len() && old_items[k] == ip;
                    if k < i {
                    } else if k > i {
                        assert(ip_less(old_items[i as int], old_items[k]));
                    }
                }
            }
        }
        self.items = items;
    }
}

// ---------------------------------------------------------------- counters

/// Per-protocol packet counters, one entry per protocol in rank order.
#[derive(Debug, PartialEq, Eq)]
pub struct ProtocolStats {
    entries: Vec<(Protocol, u64)>,
}

/// Entries strictly increasing by protocol rank (so no protocol twice).
pub open spec fn sorted_stats(s: Seq<(Protocol, u64)>) -> bool {
    forall|i: int, j: int| 0 <= i < j < s.len() ==> protocol_rank(s[i].0) < protocol_rank(s[j].0)
}

/// Whether some entry is for `p`.
pub open spec fn stats_has(s: Seq<(Protocol, u64)>, p: Protocol) -> bool {
    exists|i: int| 0 <= i < s.len() && s[i].0 == p
}

/// The counter of `p` in a list of entries.
pub open spec fn stats_count(s: Seq<(Protocol, u64)>, p: Protocol) -> u64 {
    s[choose|i: int| 0 <= i < s.len() && s[i].0 == p].1
}

/// The map from protocol to counter that a list of entries describes.
pub open spec fn stats_map(s: Seq<(Protocol, u64)>) -> Map<Protocol, u64> {
    Map::new(|p: Protocol| stats_has(s, p), |p: Protocol| stats_count(s, p))
}

/// In a sorted list, the entry at `k` is the one that the map reads.
pub proof fn lemma_stats_at(s: Seq<(Protocol, u64)>, k: int)
    requires
        sorted_stats(s),
        0 <= k < s.len(),
    ensures
        stats_has(s, s[k].0),
        stats_count(s, s[k].0) == s[k].1,
{
    let p = s[k].0;
    assert(0 <= k < s.len() && s[k].0 == p);
    let i = choose|i: int| 0 <= i < s.len() && s[i].0 == p;
    if i < k {
        assert(protocol_rank(s[i].0) < protocol_rank(s[k].0));
    } else if i > k {
        assert(protocol_rank(s[k].0) < protocol_rank(s[i].0));
    }
}

impl View for ProtocolStats {
    type V = Map<Protocol, u64>;

    closed spec fn view(&self) -> Map<Protocol, u64> {
        stats_map(self.entries@)
    }
}

impl Clone for ProtocolStats {
    fn clone(&self) -> (r: ProtocolStats)
        ensures
            r@ == self@,
    {
        proof {
            use_type_invariant(self);
        }
        let entries = self.entries();
        ProtocolStats { entries }
    }
}

impl ProtocolStats {
    #[verifier::type_invariant]
    spec fn wf(&self) -> bool {
        sorted_stats(self.entries@)
    }

    /// No counters.
    pub fn new() -> (r: ProtocolStats)
        ensures
            r@ == Map::<Protocol, u64>::empty(),
    {
        let r = ProtocolStats { entries: Vec::new() };
        assert(r@ =~= Map::<Protocol, u64>::empty());
        r
    }

    /// Whether there are no counters.
    pub fn is_empty(&self) -> (r: bool)
        ensures
            r == (self@ == Map::<Protocol, u64>::empty()),
    {
        proof {
            use_type_invariant(self);
        }
        if self.entries.len() == 0 {
            assert(self@ =~= Map::<Protocol, u64>::empty());
            true
        } else {
            proof {
                lemma_stats_at(self.entries@, 0);
                assert(self@.dom().contains(self.entries@[0].0));
            }
            false
        }
    }

    /// The counters as a list in rank order.
    pub fn entries(&self) -> (r: Vec<(Protocol, u64)>)
        ensures
            stats_map(r@) == self@,
            sorted_stats(r@),
    {
        proof {
            use_type_invariant(self);
        }
        let mut out: Vec<(Protocol, u64)> = Vec::new();
        let mut i: usize = 0;
        while i < self.entries.len()
            invariant
                i <= self.entries@.len(),
                out@ == self.entries@.subrange(0, i as int),
            decreases self.entries@.len() - i,
        {
            out.push(self.entries[i]);
            assert(self.entries@.subrange(0, i + 1) == self.entries@.subrange(0, i as int).push(self.entries@[i as int]));
            i = i + 1;
        }
        assert(self.entries@.subrange(0, i as int) == self.entries@);
        out
    }

    /// The counter of `p`, if there is one.
    pub fn get(&self, p: &Protocol) -> (r: Option<u64>)
        ensures
            r == (if self@.dom().contains(*p) {
                Some(self@[*p])
            } else {
                None
            }),
    {
        proof {
            use_type_invariant(self);
        }
        let mut i: usize = 0;
        while i < self.entries.len()
            invariant
                i <= self.entries@.len(),
                sorted_stats(self.entries@),
                forall|j: int| 0 <= j < i ==> self.entries@[j].0 != *p,
            decreases self.entries@.len() - i,
        {
            if self.entries[i].0 == *p {
                proof {
                    lemma_stats_at(self.entries@, i as int);
                }
                return Some(self.entries[i].1);
            }
            i = i + 1;
        }
        None
    }

    /// Sets the counter of `p` to `count`.
    pub fn set(&mut self, p: Protocol, count: u64)
        ensures
            final(self)@ == old(self)@.insert(p, count),
    {
        proof {
            use_type_invariant(&*self);
        }
        let rank = p.rank();
        let mut i: usize = 0;
        while i < self.entries.len() && self.entries[i].0.rank() < rank
            invariant
                i <= self.entries@.len(),
                sorted_stats(self.entries@),
                rank == protocol_rank(p),
                forall|j: int| 0 <= j < i ==> protocol_rank(self.entries@[j].0) < protocol_rank(p),
            decreases self.entries@.len() - i,
        {
            i = i + 1;
        }
        let ghost old_entries = self.entries@;
        let mut entries: Vec<(Protocol, u64)> = Vec::new();
        std::mem::swap(&mut entries, &mut self.entries);
        if i < entries.len() && entries[i].0.rank() == rank {
            proof {
                lemma_rank_injective(old_entries[i as int].0, p);
            }
            entries.set(i, (p, count));
            proof {
                assert(sorted_stats(entries@)) by {
                    assert forall|a: int, b: int| 0 <= a < b < entries@.len() implies protocol_rank(entries@[a].0) < protocol_rank(entries@[b].0) by {
                        assert(entries@[a].0 == old_entries[a].0);
                        assert(entries@[b].0 == old_entries[b].0);
                    }
                }
                assert forall|q: Protocol| #[trigger] stats_map(entries@).dom().contains(q) == stats_map(old_entries).insert(p, count).dom().contains(q)
                    && (stats_map(entries@).dom().contains(q) ==> stats_map(entries@)[q] == stats_map(old_entries).insert(p, count)[q]) by {
                    if q == p {
                        lemma_stats_at(entries@, i as int);
                    } else {
                        if stats_has(entries@, q) {
                            let k = choose|k: int| 0 <= k < entries@.len() && entries@[k].0 == q;
                            lemma_stats_at(entries@, k);
                            lemma_stats_at(old_entries, k);
                        }
                        if stats_has(old_entries, q) {
                            let k = choose|k: int| 0 <= k < old_entries.len() && old_entries[k].0 == q;
                            assert(entries@[k].0 == q);
                        }
                    }
                }
                assert(stats_map(entries@).dom() =~= stats_map(old_entries).insert(p, count).dom());
                assert(stats_map(entries@) =~= stats_map(old_entries).insert(p, count));
            }
        } else {
            entries.insert(i, (p, count));
            proof {
                assert(entries@ == old_entries.subrange(0, i as int).push((p, count)) + old_entries.subrange(i as int, old_entries.len() as int));
                assert(i < old_entries.len() ==> protocol_rank(p) < protocol_rank(old_entries[i as int].0)) by {
                    if i < old_entries.len() {
                        lemma_rank_injective(old_entries[i as int].0, p);
                    }
                }
                assert(sorted_stats(entries@)) by {
                    assert forall|a: int, b: int| 0 <= a < b < entries@.len() implies protocol_rank(entries@[a].0) < protocol_rank(entries@[b].0) by {
                        if b < i {
                        } else if b == i {
                        } else if a < i {
                            assert(entries@[b] == old_entries[b - 1]);
                        } else if a == i {
                            assert(entries@[b] == old_entries[b - 1]);
                        } else {
                            assert(entries@[a] == old_entries[a - 1]);
                            assert(entries@[b] == old_entries[b - 1]);
                        }
                    }
                }
                assert forall|q: Protocol| #[trigger] stats_map(entries@).dom().contains(q) == stats_map(old_entries).insert(p, count).dom().contains(q)
                    && (stats_map(entries@).dom().contains(q) ==> stats_map(entries@)[q] == stats_map(old_entries).insert(p, count)[q]) by {
                    if q == p {
                        lemma_stats_at(entries@, i as int);
                    } else {
                        if stats_has(entries@, q) {
                            let k = choose|k: int| 0 <= k < entries@.len() && entries@[k].0 == q;
                            lemma_stats_at(entries@, k);
                            if k < i {
                                lemma_stats_at(old_entries, k);
                            } else {
                                assert(entries@[k] == old_entries[k - 1]);
                                lemma_stats_at(old_entries, k - 1);
                            }
                        }
                        if stats_has(old_entries, q) {
                            let k = choose|k: int| 0 <= k < old_entries.len() && old_entries[k].0 == q;
                            if k < i {
                                assert(entries@[k].0 == q);
                            } else {
                                assert(entries@[k + 1].0 == q);
                            }
                        }
                    }
                }
                assert(stats_map(entries@).dom() =~= stats_map(old_entries).insert(p, count).dom());
                assert(stats_map(entries@) =~= stats_map(old_entries).insert(p, count));
            }
        }
        self.entries = entries;
    }

    /// Adds one to the counter of `p` (starting from zero), saturating
    /// at `u64::MAX`.
    pub fn increment(&mut self, p: Protocol)
        ensures
            final(self)@ == old(self)@.insert(
                p,
                (if old(self)@.dom().contains(p) {
                    old(self)@[p]
                } else {
                    0
                }).saturating_add(1),
            ),
    {
        let current = match self.get(&p) {
            Some(c) => c,
            None => 0,
        };
        self.set(p, current.saturating_add(1));
    }
}

// ---------------------------------------------------------------- device

/// A network device, keyed by its MAC address.
#[derive(Debug)]
pub struct Device {
    /// MAC address (the primary key).
    pub mac: MacAddress,
    /// Observed IP addresses, in ascending order.
    pub ips: IpSet,
    /// Hostname, when discovered.
    pub hostname: Option<String>,
    /// When the device was first seen.
    pub first_seen: Timestamp,
    /// When the device was last seen.
    pub last_seen: Timestamp,
    /// Packets observed from or to this device.
    pub packet_count: u64,
    /// Bytes sent by this device.
    pub bytes_sent: u64,
    /// Bytes received by this device.
    pub bytes_received: u64,
    /// Protocols observed for this device.
    pub protocols: ProtocolSet,
    /// OUI vendor, when known.
    pub vendor: Option<String>,
    /// DHCP vendor class identifier (option 60), when seen.
    pub dhcp_vendor_class: Option<String>,
    /// Packets observed per protocol.
    pub protocol_stats: ProtocolStats,
}

impl Device {
    /// A device first and last seen at `now`, with every counter at zero
    /// and nothing else known.
    pub fn new_at(mac: MacAddress, now: Timestamp) -> (r: Device)
        ensures
            r.mac == mac,
            r.ips@.len() == 0,
            r.hostname is None,
            r.first_seen == now,
            r.last_seen == now,
            r.packet_count == 0,
            r.bytes_sent == 0,
            r.bytes_received == 0,
            r.protocols@.len() == 0,
            r.vendor is None,
            r.dhcp_vendor_class is None,
            r.protocol_stats@ == Map::<Protocol, u64>::empty(),
    {
        Device {
            mac,
            ips: IpSet::new(),
            hostname: None,
            first_seen: now,
            last_seen: now,
            packet_count: 0,
            bytes_sent: 0,
            bytes_received: 0,
            protocols: ProtocolSet::new(),
            vendor: None,
            dhcp_vendor_class: None,
            protocol_stats: ProtocolStats::new(),
        }
    }

    /// A device first seen now (see [`Device::new_at`]).
    pub fn new(mac: MacAddress) -> (r: Device)
        ensures
            r.mac == mac,
            r.ips@.len() == 0,
            r.hostname is None,
            r.first_seen == r.last_seen,
            r.packet_count == 0,
            r.bytes_sent == 0,
            r.bytes_received == 0,
            r.protocols@.len() == 0,
            r.vendor is None,
            r.dhcp_vendor_class is None,
            r.protocol_stats@ == Map::<Protocol, u64>::empty(),
    {
        Device::new_at(mac, Timestamp::now())
    }

    /// Records a packet of `bytes` bytes sent by this device at `now`:
    /// one more packet, `bytes` more bytes sent, `protocol` observed and
    /// counted; counters saturate at `u64::MAX`.
    pub fn record_sent(&mut self, bytes: u64, protocol: Protocol, now: Timestamp)
        ensures
            final(self).packet_count == old(self).packet_count.saturating_add(1),
            final(self).bytes_sent == old(self).bytes_sent.saturating_add(bytes),
            final(self).bytes_received == old(self).bytes_received,
            final(self).protocols@.to_set() == old(self).protocols@.to_set().insert(protocol),
            final(self).protocol_stats@ == counted(old(self).protocol_stats@, protocol),
            final(self).last_seen == now,
            unchanged_identity(*old(self), *final(self)),
    {
        self.packet_count = self.packet_count.saturating_add(1);
        self.bytes_sent = self.bytes_sent.saturating_add(bytes);
        self.protocols.insert(protocol);
        self.protocol_stats.increment(protocol);
        self.last_seen = now;
    }

    /// Records a packet of `bytes` bytes received by this device at
    /// `now` (as [`Device::record_sent`], counting received bytes).
    pub fn record_received(&mut self, bytes: u64, protocol: Protocol, now: Timestamp)
        ensures
            final(self).packet_count == old(self).packet_count.saturating_add(1),
            final(self).bytes_received == old(self).bytes_received.saturating_add(bytes),
            final(self).bytes_sent == old(self).bytes_sent,
            final(self).protocols@.to_set() == old(self).protocols@.to_set().insert(protocol),
            final(self).protocol_stats@ == counted(old(self).protocol_stats@, protocol),
            final(self).last_seen == now,
            unchanged_identity(*old(self), *final(self)),
    {
        self.packet_count = self.packet_count.saturating_add(1);
        self.bytes_received = self.bytes_received.saturating_add(bytes);
        self.protocols.insert(protocol);
        self.protocol_stats.increment(protocol);
        self.last_seen = now;
    }

    /// Adds an IP address.
    pub fn add_ip(&mut self, ip: IpAddr)
        ensures
            final(self).ips@.to_set() == old(self).ips@.to_set().insert(ip),
            final(self).mac == old(self).mac,
            final(self).hostname == old(self).hostname,
            final(self).first_seen == old(self).first_seen,
            final(self).last_seen == old(self).last_seen,
            final(self).packet_count == old(self).packet_count,
            final(self).bytes_sent == old(self).bytes_sent,
            final(self).bytes_received == old(self).bytes_received,
            final(self).protocols@ == old(self).protocols@,
            final(self).vendor == old(self).vendor,
            final(self).dhcp_vendor_class == old(self).dhcp_vendor_class,
            final(self).protocol_stats@ == old(self).protocol_stats@,
    {
        self.ips.insert(ip);
    }
}

/// The plain form of an optional string.
pub open spec fn opt_str_view(o: Option<String>) -> Option<Seq<char>> {
    match o {
        Some(s) => Some(s@),
        None => None,
    }
}

/// A copy of an optional string.
pub fn clone_opt_str(o: &Option<String>) -> (r: Option<String>)
    ensures
        opt_str_view(r) == opt_str_view(*o),
{
    match o {
        Some(s) => Some(s.clone()),
        None => None,
    }
}

/// The plain form of a [`Device`].
pub struct DeviceView {
    pub mac: Seq<u8>,
    pub ips: Seq<IpAddr>,
    pub hostname: Option<Seq<char>>,
    pub first_seen: Timestamp,
    pub last_seen: Timestamp,
    pub packet_count: u64,
    pub bytes_sent: u64,
    pub bytes_received: u64,
    pub protocols: Seq<Protocol>,
    pub vendor: Option<Seq<char>>,
    pub dhcp_vendor_class: Option<Seq<char>>,
    pub protocol_stats: Map<Protocol, u64>,
}

impl View for Device {
    type V = DeviceView;

    open spec fn view(&self) -> DeviceView {
        DeviceView {
            mac: self.mac@,
            ips: self.ips@,
            hostname: opt_str_view(self.hostname),
            first_seen: self.first_seen,
            last_seen: self.last_seen,
            packet_count: self.packet_count,
            bytes_sent: self.bytes_sent,
            bytes_received: self.bytes_received,
            protocols: self.protocols@,
            vendor: opt_str_view(self.vendor),
            dhcp_vendor_class: opt_str_view(self.dhcp_vendor_class),
            protocol_stats: self.protocol_stats@,
        }
    }
}

impl Clone for Device {
    fn clone(&self) -> (r: Device)
        ensures
            r@ == self@,
    {
        Device {
            mac: self.mac,
            ips: self.ips.clone(),
            hostname: clone_opt_str(&self.hostname),
            first_seen: self.first_seen,
            last_seen: self.last_seen,
            packet_count: self.packet_count,
            bytes_sent: self.bytes_sent,
            bytes_received: self.bytes_received,
            protocols: self.protocols.clone(),
            vendor: clone_opt_str(&self.vendor),
            dhcp_vendor_class: clone_opt_str(&self.dhcp_vendor_class),
            protocol_stats: self.protocol_stats.clone(),
        }
    }
}

/// `stats` with the counter of `p` raised by one (saturating).
pub open spec fn counted(stats: Map<Protocol, u64>, p: Protocol) -> Map<Protocol, u64> {
    stats.insert(p, (if stats.dom().contains(p) { stats[p] } else { 0 }).saturating_add(1))
}

/// The fields that recording traffic leaves alone.
pub open spec fn unchanged_identity(a: Device, b: Device) -> bool {
    &&& b.mac == a.mac
    &&& b.ips@ == a.ips@
    &&& b.hostname == a.hostname
    &&& b.first_seen == a.first_seen
    &&& b.vendor == a.vendor
    &&& b.dhcp_vendor_class == a.dhcp_vendor_class
}

/// A summary of device activity for the metrics endpoint.
#[derive(Debug, Clone, Copy, PartialEq, Eq)]
pub struct Metrics {
    pub total_devices: usize,
    pub total_packets: u64,
    pub total_bytes: u64,
    pub uptime_seconds: u64,
}

} // verus!
