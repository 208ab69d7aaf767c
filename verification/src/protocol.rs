//! The protocols EdgeShield recognises, their display names and their
//! parsing back from those names.

use vstd::prelude::*;

use crate::text::{chars_string, decimal, push_char, push_decimal, push_str, u8_to_u16, u8_to_u64};

verus! {

/// A protocol detected on the network. `Other` carries an unknown
/// protocol's numeric identifier.
#[derive(Debug, Clone, Copy, PartialEq, Eq, Structural, Hash)]
pub enum Protocol {
    Arp,
    Ipv4,
    Icmp,
    Tcp,
    Udp,
    Dns,
    Dhcp,
    Http,
    Https,
    Mdns,
    Ntp,
    /// Unknown protocol identified by its IP protocol number.
    Other(u8),
}

/// Position of a protocol in the order of the variants (the order that
/// sorted protocol sets and maps follow): the named protocols first, in
/// declaration order, then `Other(n)` by `n`.
pub open spec fn protocol_rank(p: Protocol) -> int {
    match p {
        Protocol::Arp => 0,
        Protocol::Ipv4 => 1,
        Protocol::Icmp => 2,
        Protocol::Tcp => 3,
        Protocol::Udp => 4,
        Protocol::Dns => 5,
        Protocol::Dhcp => 6,
        Protocol::Http => 7,
        Protocol::Https => 8,
        Protocol::Mdns => 9,
        Protocol::Ntp => 10,
        Protocol::Other(n) => 11 + n,
    }
}

/// Distinct protocols have distinct ranks.
pub proof fn lemma_rank_injective(a: Protocol, b: Protocol)
    ensures
        protocol_rank(a) == protocol_rank(b) ==> a == b,
{
}

/// The display name of a named protocol (`None` for `Other`).
pub open spec fn named_protocol_text(p: Protocol) -> Option<Seq<char>> {
    match p {
        Protocol::Arp => Some(seq!['A', 'R', 'P']),
        Protocol::Ipv4 => Some(seq!['I', 'P', 'v', '4']),
        Protocol::Icmp => Some(seq!['I', 'C', 'M', 'P']),
        Protocol::Tcp => Some(seq!['T', 'C', 'P']),
        Protocol::Udp => Some(seq!['U', 'D', 'P']),
        Protocol::Dns => Some(seq!['D', 'N', 'S']),
        Protocol::Dhcp => Some(seq!['D', 'H', 'C', 'P']),
        Protocol::Http => Some(seq!['H', 'T', 'T', 'P']),
        Protocol::Https => Some(seq!['H', 'T', 'T', 'P', 'S']),
        Protocol::Mdns => Some(seq!['m', 'D', 'N', 'S']),
        Protocol::Ntp => Some(seq!['N', 'T', 'P']),
        Protocol::Other(_) => None,
    }
}

/// `"UNKNOWN("`.
pub open spec fn unknown_prefix() -> Seq<char> {
    seq!['U', 'N', 'K', 'N', 'O', 'W', 'N', '(']
}

/// The display form of a protocol: its name, or `UNKNOWN(n)`.
pub open spec fn protocol_text(p: Protocol) -> Seq<char> {
    match p {
        Protocol::Other(n) => unknown_prefix() + decimal(n as nat) + seq![')'],
        _ => named_protocol_text(p).unwrap(),
    }
}

/// The value of a string of decimal digits.
pub open spec fn digits_value(s: Seq<char>) -> nat
    decreases s.len(),
{
    if s.len() == 0 {
        0
    } else {
        digits_value(s.drop_last()) * 10 + ((s.last() as nat) - 48) as nat
    }
}

pub open spec fn is_digit(c: char) -> bool {
    '0' <= c && c <= '9'
}

pub open spec fn all_digits(s: Seq<char>) -> bool {
    forall|i: int| 0 <= i < s.len() ==> is_digit(#[trigger] s[i])
}

/// `u8::from_str`: an optional `+` followed by at least one decimal digit,
/// with a value below 256.
pub open spec fn spec_parse_u8(s: Seq<char>) -> Option<u8> {
    let d = if s.len() > 0 && s[0] == '+' {
        s.drop_first()
    } else {
        s
    };
    if d.len() > 0 && all_digits(d) && digits_value(d) < 256 {
        Some(digits_value(d) as u8)
    } else {
        None
    }
}

/// What `Protocol::from_str` accepts: a display name, or `UNKNOWN(`,
/// a `u8` as `u8::from_str` reads it, and `)`.
pub open spec fn spec_protocol_from_text(s: Seq<char>) -> Option<Protocol> {
    if s == seq!['A', 'R', 'P'] {
        Some(Protocol::Arp)
    } else if s == seq!['I', 'P', 'v', '4'] {
        Some(Protocol::Ipv4)
    } else if s == seq!['I', 'C', 'M', 'P'] {
        Some(Protocol::Icmp)
    } else if s == seq!['T', 'C', 'P'] {
        Some(Protocol::Tcp)
    } else if s == seq!['U', 'D', 'P'] {
        Some(Protocol::Udp)
    } else if s == seq!['D', 'N', 'S'] {
        Some(Protocol::Dns)
    } else if s == seq!['D', 'H', 'C', 'P'] {
        Some(Protocol::Dhcp)
    } else if s == seq!['H', 'T', 'T', 'P'] {
        Some(Protocol::Http)
    } else if s == seq!['H', 'T', 'T', 'P', 'S'] {
        Some(Protocol::Https)
    } else if s == seq!['m', 'D', 'N', 'S'] {
        Some(Protocol::Mdns)
    } else if s == seq!['N', 'T', 'P'] {
        Some(Protocol::Ntp)
    } else if s.len() >= 9 && s.subrange(0, 8) == unknown_prefix() && s.last() == ')' {
        match spec_parse_u8(s.subrange(8, s.len() - 1)) {
            Some(n) => Some(Protocol::Other(n)),
            None => None,
        }
    } else {
        None
    }
}

impl Protocol {
    /// Position in the sort order (see [`protocol_rank`]).
    pub fn rank(&self) -> (r: u16)
        ensures
            r == protocol_rank(*self),
    {
        match self {
            Protocol::Arp => 0,
            Protocol::Ipv4 => 1,
            Protocol::Icmp => 2,
            Protocol::Tcp => 3,
            Protocol::Udp => 4,
            Protocol::Dns => 5,
            Protocol::Dhcp => 6,
            Protocol::Http => 7,
            Protocol::Https => 8,
            Protocol::Mdns => 9,
            Protocol::Ntp => 10,
            Protocol::Other(n) => 11 + u8_to_u16(*n),
        }
    }

    /// The display form: `ARP`, `IPv4`, `ICMP`, `TCP`, `UDP`, `DNS`,
    /// `DHCP`, `HTTP`, `HTTPS`, `mDNS`, `NTP`, or `UNKNOWN(n)`.
    pub fn to_string(&self) -> (r: String)
        ensures
            r@ == protocol_text(*self),
    {
        match self {
            Protocol::Arp => chars_string(&['A', 'R', 'P']),
            Protocol::Ipv4 => chars_string(&['I', 'P', 'v', '4']),
            Protocol::Icmp => chars_string(&['I', 'C', 'M', 'P']),
            Protocol::Tcp => chars_string(&['T', 'C', 'P']),
            Protocol::Udp => chars_string(&['U', 'D', 'P']),
            Protocol::Dns => chars_string(&['D', 'N', 'S']),
            Protocol::Dhcp => chars_string(&['D', 'H', 'C', 'P']),
            Protocol::Http => chars_string(&['H', 'T', 'T', 'P']),
            Protocol::Https => chars_string(&['H', 'T', 'T', 'P', 'S']),
            Protocol::Mdns => chars_string(&['m', 'D', 'N', 'S']),
            Protocol::Ntp => chars_string(&['N', 'T', 'P']),
            Protocol::Other(n) => {
                let mut s = chars_string(&['U', 'N', 'K', 'N', 'O', 'W', 'N', '(']);
                push_decimal(&mut s, u8_to_u64(*n));
                push_char(&mut s, ')');
                s
            },
        }
    }

    /// Parses the display form back (see [`spec_protocol_from_text`]).
    /// The error message is `unknown protocol: ` followed by the input.
    pub fn from_str(s: &str) -> (r: Result<Protocol, String>)
        ensures
            match r {
                Ok(p) => spec_protocol_from_text(s@) == Some(p),
                Err(e) => spec_protocol_from_text(s@) is None && e@ == seq![
                    'u',
                    'n',
                    'k',
                    'n',
                    'o',
                    'w',
                    'n',
                    ' ',
                    'p',
                    'r',
                    'o',
                    't',
                    'o',
                    'c',
                    'o',
                    'l',
                    ':',
                    ' ',
                ] + s@,
            },
    {
        let chars = str_chars(s);
        match protocol_from_chars(&chars) {
            Some(p) => Ok(p),
            None => {
                let mut e = chars_string(
                    &['u', 'n', 'k', 'n', 'o', 'w', 'n', ' ', 'p', 'r', 'o', 't', 'o', 'c', 'o', 'l', ':', ' '],
                );
                push_str(&mut e, s);
                Err(e)
            },
        }
    }
}

/// The characters of `s` as a vector.
pub fn str_chars(s: &str) -> (r: Vec<char>)
    ensures
        r@ == s@,
{
    let n = s.unicode_len();
    let mut r: Vec<char> = Vec::new();
    let mut i: usize = 0;
    while i < n
        invariant
            i <= n,
            n == s@.len(),
            r@ == s@.subrange(0, i as int),
        decreases n - i,
    {
        r.push(s.get_char(i));
        assert(s@.subrange(0, i + 1) == s@.subrange(0, i as int).push(s@[i as int]));
        i = i + 1;
    }
    assert(s@.subrange(0, n as int) == s@);
    r
}

/// Whether `a` equals the characters in `b`.
pub fn chars_eq(a: &[char], b: &[char]) -> (r: bool)
    ensures
        r == (a@ == b@),
{
    if a.len() != b.len() {
        return false;
    }
    let mut i: usize = 0;
    while i < a.len()
        invariant
            i <= a@.len(),
            a@.len() == b@.len(),
            forall|j: int| 0 <= j < i ==> a@[j] == b@[j],
        decreases a@.len() - i,
    {
        if a[i] != b[i] {
            return false;
        }
        i = i + 1;
    }
    assert(a@ =~= b@);
    true
}

/// Parses a run of characters as `u8::from_str` does.
pub fn parse_u8_chars(s: &[char]) -> (r: Option<u8>)
    ensures
        r == spec_parse_u8(s@),
{
    let mut start: usize = 0;
    if s.len() > 0 && s[0] == '+' {
        start = 1;
    }
    let ghost d = if s@.len() > 0 && s@[0] == '+' {
        s@.drop_first()
    } else {
        s@
    };
    assert(d == s@.subrange(start as int, s@.len() as int));
    if start >= s.len() {
        return None;
    }
    let mut v: u32 = 0;
    let mut i: usize = start;
    while i < s.len()
        invariant
            start <= i <= s@.len(),
            start < s@.len(),
            d == s@.subrange(start as int, s@.len() as int),
            d == (if s@.len() > 0 && s@[0] == '+' {
                s@.drop_first()
            } else {
                s@
            }),
            all_digits(s@.subrange(start as int, i as int)),
            v == digits_value(s@.subrange(start as int, i as int)),
            v < 256,
        decreases s@.len() - i,
    {
        let c = s[i];
        if !('0' <= c && c <= '9') {
            assert(d[i - start] == c);
            assert(!is_digit(d[i - start]));
            return None;
        }
        let dv: u32 = (c as u32) - 48;
        let ghost pre = s@.subrange(start as int, i + 1);
        assert(pre.drop_last() == s@.subrange(start as int, i as int));
        assert(pre.last() == c);
        assert(digits_value(pre) == v * 10 + dv);
        assert(all_digits(pre)) by {
            assert forall|k: int| 0 <= k < pre.len() implies is_digit(#[trigger] pre[k]) by {
                if k < pre.len() - 1 {
                    assert(pre[k] == s@.subrange(start as int, i as int)[k]);
                }
            }
        }
        let nv: u32 = v * 10 + dv;
        if nv >= 256 {
            proof {
                lemma_digits_value_prefix_monotone(d, (i + 1 - start) as int);
                assert(pre == d.subrange(0, i + 1 - start));
            }
            return None;
        }
        v = nv;
        i = i + 1;
    }
    assert(s@.subrange(start as int, i as int) == d);
    Some(v as u8)
}

/// A prefix of an all-digit string has a value no greater than the whole.
proof fn lemma_digits_value_prefix_monotone(d: Seq<char>, k: int)
    requires
        0 <= k <= d.len(),
    ensures
        all_digits(d) ==> digits_value(d.subrange(0, k)) <= digits_value(d),
    decreases d.len() - k,
{
    if k < d.len() && all_digits(d) {
        lemma_digits_value_prefix_monotone(d, k + 1);
        let p = d.subrange(0, k + 1);
        assert(p.drop_last() == d.subrange(0, k));
        assert(is_digit(d[k]));
    } else if k == d.len() {
        assert(d.subrange(0, k) == d);
    }
}

/// The protocol named by `s` (see [`spec_protocol_from_text`]).
pub fn protocol_from_chars(s: &Vec<char>) -> (r: Option<Protocol>)
    ensures
        r == spec_protocol_from_text(s@),
{
    let sl = s.as_slice();
    if chars_eq(sl, &['A', 'R', 'P']) {
        return Some(Protocol::Arp);
    }
    if chars_eq(sl, &['I', 'P', 'v', '4']) {
        return Some(Protocol::Ipv4);
    }
    if chars_eq(sl, &['I', 'C', 'M', 'P']) {
        return Some(Protocol::Icmp);
    }
    if chars_eq(sl, &['T', 'C', 'P']) {
        return Some(Protocol::Tcp);
    }
    if chars_eq(sl, &['U', 'D', 'P']) {
        return Some(Protocol::Udp);
    }
    if chars_eq(sl, &['D', 'N', 'S']) {
        return Some(Protocol::Dns);
    }
    if chars_eq(sl, &['D', 'H', 'C', 'P']) {
        return Some(Protocol::Dhcp);
    }
    if chars_eq(sl, &['H', 'T', 'T', 'P']) {
        return Some(Protocol::Http);
    }
    if chars_eq(sl, &['H', 'T', 'T', 'P', 'S']) {
        return Some(Protocol::Https);
    }
    if chars_eq(sl, &['m', 'D', 'N', 'S']) {
        return Some(Protocol::Mdns);
    }
    if chars_eq(sl, &['N', 'T', 'P']) {
        return Some(Protocol::Ntp);
    }
    let n = s.len();
    if n < 9 || s[n - 1] != ')' {
        return None;
    }
    let head = slice_range(sl, 0, 8);
    if !chars_eq(head, &['U', 'N', 'K', 'N', 'O', 'W', 'N', '(']) {
        return None;
    }
    let mid = slice_range(sl, 8, n - 1);
    match parse_u8_chars(mid) {
        Some(v) => Some(Protocol::Other(v)),
        None => None,
    }
}

/// The sub-slice `s[from..to]`.
pub fn slice_range<T>(s: &[T], from: usize, to: usize) -> (r: &[T])
    requires
        from <= to <= s@.len(),
    ensures
        r@ == s@.subrange(from as int, to as int),
{
    &s[from..to]
}

/// Parsing the display form of a protocol gives the protocol back.
pub proof fn lemma_protocol_text_roundtrip(p: Protocol)
    ensures
        spec_protocol_from_text(protocol_text(p)) == Some(p),
{
    let t = protocol_text(p);
    match p {
        Protocol::Other(n) => {
            let dec = decimal(n as nat);
            lemma_decimal_digits(n as nat);
            lemma_decimal_value(n as nat);
            assert(t.subrange(0, 8) == unknown_prefix());
            assert(t.subrange(8, t.len() - 1) == dec);
            assert(t.len() >= 9);
            assert(t[0] == 'U');
            assert(t != seq!['A', 'R', 'P']);
            assert(t != seq!['I', 'P', 'v', '4']);
            assert(t != seq!['I', 'C', 'M', 'P']);
            assert(t != seq!['T', 'C', 'P']);
            assert(t != seq!['U', 'D', 'P']);
            assert(t != seq!['D', 'N', 'S']);
            assert(t != seq!['D', 'H', 'C', 'P']);
            assert(t != seq!['H', 'T', 'T', 'P']);
            assert(t != seq!['H', 'T', 'T', 'P', 'S']);
            assert(t != seq!['m', 'D', 'N', 'S']);
            assert(t != seq!['N', 'T', 'P']);
            assert(dec[0] != '+');
        },
        _ => {
            assert(t == named_protocol_text(p).unwrap());
        },
    }
}

/// The decimal rendering consists of digits and is non-empty.
pub proof fn lemma_decimal_digits(n: nat)
    ensures
        decimal(n).len() > 0,
        all_digits(decimal(n)),
    decreases n,
{
    if n >= 10 {
        lemma_decimal_digits(n / 10);
        let d = decimal(n / 10);
        assert(decimal(n) == d.push(crate::text::digit_char(n % 10)));
        assert forall|i: int| 0 <= i < decimal(n).len() implies is_digit(#[trigger] decimal(n)[i]) by {
            if i < d.len() {
                assert(decimal(n)[i] == d[i]);
            }
        }
    }
}

/// Reading the decimal rendering gives the number back.
pub proof fn lemma_decimal_value(n: nat)
    ensures
        digits_value(decimal(n)) == n,
    decreases n,
{
    if n >= 10 {
        lemma_decimal_value(n / 10);
        let d = decimal(n / 10);
        assert(decimal(n).drop_last() == d);
        assert(decimal(n).last() == crate::text::digit_char(n % 10));
        assert((crate::text::digit_char(n % 10) as nat) == n % 10 + 48);
        assert(n == (n / 10) * 10 + n % 10);
        let s = decimal(n);
        assert(digits_value(s) == digits_value(s.drop_last()) * 10 + ((s.last() as nat) - 48) as nat);
    } else {
        let s = decimal(n);
        assert(s.drop_last() == Seq::<char>::empty());
        assert((crate::text::digit_char(n) as nat) == n + 48);
        assert(digits_value(s) == digits_value(s.drop_last()) * 10 + ((s.last() as nat) - 48) as nat);
        assert(digits_value(Seq::<char>::empty()) == 0);
    }
}

} // verus!
