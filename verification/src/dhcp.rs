//! DHCP option parsing.
//!
//! Extracts the hostname (option 12), the vendor class identifier
//! (option 60) and the message type (option 53) from a DHCP message.
//! The fixed BOOTP header is 240 bytes, followed by the magic cookie
//! `63 82 53 63` and TLV-encoded options (tag, length, value). Tag 0 is
//! padding and tag 255 ends the list.

use vstd::prelude::*;
use vstd::utf8::*;

use crate::text::{trim_end_char, trim_end_matches_char, utf8_decode};

verus! {

/// Information extracted from a DHCP packet.
#[derive(Debug, Clone)]
pub struct DhcpInfo {
    /// Hostname from option 12.
    pub hostname: Option<String>,
    /// Vendor class identifier from option 60.
    pub vendor_class: Option<String>,
    /// DHCP message type from option 53.
    pub message_type: Option<u8>,
}

/// The mathematical content of a [`DhcpInfo`].
pub struct DhcpView {
    pub hostname: Option<Seq<char>>,
    pub vendor_class: Option<Seq<char>>,
    pub message_type: Option<u8>,
}

/// The characters of an optional string.
pub open spec fn opt_view(o: Option<String>) -> Option<Seq<char>> {
    match o {
        Some(s) => Some(s@),
        None => None,
    }
}

impl View for DhcpInfo {
    type V = DhcpView;

    open spec fn view(&self) -> DhcpView {
        DhcpView {
            hostname: opt_view(self.hostname),
            vendor_class: opt_view(self.vendor_class),
            message_type: self.message_type,
        }
    }
}

impl Default for DhcpInfo {
    fn default() -> (r: Self)
        ensures
            r@ == empty_dhcp_view(),
    {
        DhcpInfo { hostname: None, vendor_class: None, message_type: None }
    }
}

/// Nothing extracted yet.
pub open spec fn empty_dhcp_view() -> DhcpView {
    DhcpView { hostname: None, vendor_class: None, message_type: None }
}

/// A textual option value: valid UTF-8 with trailing NUL characters
/// removed, kept only when something remains.
pub open spec fn text_option(value: Seq<u8>) -> Option<Seq<char>> {
    if valid_utf8(value) {
        let t = trim_end_char(decode_utf8(value), '\0');
        if t.len() > 0 {
            Some(t)
        } else {
            None
        }
    } else {
        None
    }
}

/// The effect of one option on the information gathered so far.
pub open spec fn apply_option(info: DhcpView, tag: u8, value: Seq<u8>) -> DhcpView {
    if tag == 12 {
        match text_option(value) {
            Some(t) => DhcpView {
                hostname: Some(t),
                vendor_class: info.vendor_class,
                message_type: info.message_type,
            },
            None => info,
        }
    } else if tag == 60 {
        match text_option(value) {
            Some(t) => DhcpView {
                hostname: info.hostname,
                vendor_class: Some(t),
                message_type: info.message_type,
            },
            None => info,
        }
    } else if tag == 53 && value.len() > 0 {
        DhcpView { hostname: info.hostname, vendor_class: info.vendor_class, message_type: Some(value[0]) }
    } else {
        info
    }
}

/// Walks the option list from offset `off`: stops at the end of the
/// data, at the end option, or at an option whose value runs past the
/// end of the data; skips pad bytes; applies every other option.
pub open spec fn walk_options(p: Seq<u8>, off: int, info: DhcpView) -> DhcpView
    decreases p.len() - off,
{
    if off < 0 || off + 1 >= p.len() {
        info
    } else if p[off] == 255 {
        info
    } else if p[off] == 0 {
        walk_options(p, off + 1, info)
    } else {
        let len = p[off + 1] as int;
        if off + 2 + len > p.len() {
            info
        } else {
            walk_options(p, off + 2 + len, apply_option(info, p[off], p.subrange(off + 2, off + 2 + len)))
        }
    }
}

/// Whether `p` carries the DHCP magic cookie after the fixed header.
pub open spec fn has_magic_cookie(p: Seq<u8>) -> bool {
    p.len() >= 244 && p[240] == 0x63 && p[241] == 0x82 && p[242] == 0x53 && p[243] == 0x63
}

/// What `parse_dhcp` extracts from a payload.
pub open spec fn spec_parse_dhcp(p: Seq<u8>) -> Option<DhcpView> {
    if has_magic_cookie(p) {
        Some(walk_options(p, 244, empty_dhcp_view()))
    } else {
        None
    }
}

proof fn lemma_walk_suffix(p: Seq<u8>, off: int, info: DhcpView)
    requires
        0 <= off <= p.len(),
    ensures
        walk_options(p, off, info) == walk_options(p.subrange(off, p.len() as int), 0, info),
    decreases p.len() - off,
{
    let q = p.subrange(off, p.len() as int);
    if off + 1 >= p.len() {
    } else if p[off] == 255 {
        assert(q[0] == p[off]);
    } else if p[off] == 0 {
        assert(q[0] == p[off]);
        lemma_walk_suffix(p, off + 1, info);
        lemma_walk_suffix(q, 1, info);
        assert(p.subrange(off + 1, p.len() as int) =~= q.subrange(1, q.len() as int));
    } else {
        assert(q[0] == p[off] && q[1] == p[off + 1]);
        let len = p[off + 1] as int;
        if off + 2 + len <= p.len() {
            let value = p.subrange(off + 2, off + 2 + len);
            assert(q.subrange(2, 2 + len) =~= value);
            let next = apply_option(info, p[off], value);
            lemma_walk_suffix(p, off + 2 + len, next);
            lemma_walk_suffix(q, 2 + len, next);
            assert(p.subrange(off + 2 + len, p.len() as int) =~= q.subrange(2 + len, q.len() as int));
        }
    }
}

/// Whether `opts` is a run of whole options: pad bytes, and options
/// other than the end option whose values lie inside the run.
pub open spec fn whole_options(opts: Seq<u8>) -> bool
    decreases opts.len(),
{
    if opts.len() == 0 {
        true
    } else if opts[0] == 0 {
        whole_options(opts.subrange(1, opts.len() as int))
    } else if opts[0] == 255 || opts.len() < 2 {
        false
    } else {
        let l = opts[1] as int;
        2 + l <= opts.len() && whole_options(opts.subrange(2 + l, opts.len() as int))
    }
}

proof fn lemma_unread_step(tag: u8, value: Seq<u8>, rest: Seq<u8>, info: DhcpView)
    requires
        tag != 0 && tag != 12 && tag != 53 && tag != 60 && tag != 255,
        value.len() < 256,
    ensures
        walk_options(seq![tag, value.len() as u8] + value + rest, 0, info) == walk_options(rest, 0, info),
{
    let p = seq![tag, value.len() as u8] + value + rest;
    let len = value.len() as int;
    assert(p[0] == tag && p[1] == value.len() as u8);
    assert(p.subrange(2, 2 + len) =~= value);
    assert(apply_option(info, tag, value) == info);
    lemma_walk_suffix(p, 2 + len, info);
    assert(p.subrange(2 + len, p.len() as int) =~= rest);
}

proof fn lemma_whole_prefix(opts: Seq<u8>, x: Seq<u8>, y: Seq<u8>, info: DhcpView)
    requires
        whole_options(opts),
        forall|i: DhcpView| #[trigger] walk_options(x, 0, i) == walk_options(y, 0, i),
    ensures
        walk_options(opts + x, 0, info) == walk_options(opts + y, 0, info),
    decreases opts.len(),
{
    if opts.len() == 0 {
        assert(opts + x =~= x);
        assert(opts + y =~= y);
        assert(walk_options(x, 0, info) == walk_options(y, 0, info));
    } else if opts[0] == 0 {
        let o2 = opts.subrange(1, opts.len() as int);
        lemma_whole_prefix(o2, x, y, info);
        assert((opts + x)[0] == 0);
        assert((opts + y)[0] == 0);
        lemma_walk_suffix(opts + x, 1, info);
        lemma_walk_suffix(opts + y, 1, info);
        assert((opts + x).subrange(1, (opts + x).len() as int) =~= o2 + x);
        assert((opts + y).subrange(1, (opts + y).len() as int) =~= o2 + y);
        if (opts + x).len() <= 1 {
            assert(o2 + x =~= Seq::<u8>::empty());
        }
        if (opts + y).len() <= 1 {
            assert(o2 + y =~= Seq::<u8>::empty());
        }
    } else {
        let l = opts[1] as int;
        let o3 = opts.subrange(2 + l, opts.len() as int);
        let value = opts.subrange(2, 2 + l);
        let next = apply_option(info, opts[0], value);
        lemma_whole_prefix(o3, x, y, next);
        assert((opts + x)[0] == opts[0] && (opts + x)[1] == opts[1]);
        assert((opts + y)[0] == opts[0] && (opts + y)[1] == opts[1]);
        assert((opts + x).subrange(2, 2 + l) =~= value);
        assert((opts + y).subrange(2, 2 + l) =~= value);
        lemma_walk_suffix(opts + x, 2 + l, next);
        lemma_walk_suffix(opts + y, 2 + l, next);
        assert((opts + x).subrange(2 + l, (opts + x).len() as int) =~= o3 + x);
        assert((opts + y).subrange(2 + l, (opts + y).len() as int) =~= o3 + y);
    }
}

/// An option the parser does not read (any tag but pad 0, hostname 12,
/// message type 53, vendor class 60 and end 255) is passed over whole:
/// put after any run of whole options, with its value inside the
/// payload, it changes nothing the payload gives.
pub proof fn law_unread_option_skipped(head: Seq<u8>, opts: Seq<u8>, tag: u8, value: Seq<u8>, rest: Seq<u8>)
    requires
        head.len() == 244,
        has_magic_cookie(head),
        whole_options(opts),
        tag != 0 && tag != 12 && tag != 53 && tag != 60 && tag != 255,
        value.len() < 256,
    ensures
        spec_parse_dhcp(head + opts + (seq![tag, value.len() as u8] + value) + rest) == spec_parse_dhcp(head + opts + rest),
{
    let u = seq![tag, value.len() as u8] + value;
    let p = head + opts + u + rest;
    let q = head + opts + rest;
    assert(p[240] == head[240] && p[241] == head[241] && p[242] == head[242] && p[243] == head[243]);
    assert(q[240] == head[240] && q[241] == head[241] && q[242] == head[242] && q[243] == head[243]);
    assert forall|i: DhcpView| #[trigger] walk_options(u + rest, 0, i) == walk_options(rest, 0, i) by {
        lemma_unread_step(tag, value, rest, i);
    }
    lemma_whole_prefix(opts, u + rest, rest, empty_dhcp_view());
    lemma_walk_suffix(p, 244, empty_dhcp_view());
    lemma_walk_suffix(q, 244, empty_dhcp_view());
    assert(p.subrange(244, p.len() as int) =~= opts + (u + rest));
    assert(q.subrange(244, q.len() as int) =~= opts + rest);
}

/// Decodes a textual option value (see [`text_option`]).
fn text_value(value: &[u8]) -> (r: Option<String>)
    ensures
        opt_view(r) == text_option(value@),
{
    match utf8_decode(value) {
        Some(s) => {
            let t = trim_end_matches_char(s.as_str(), '\0');
            if t.as_str().is_empty() {
                None
            } else {
                Some(t)
            }
        },
        None => None,
    }
}

/// Parse a DHCP packet payload and extract options.
///
/// The payload starts at the DHCP header (after the UDP header).
/// Returns `None` if the payload is too short to hold the fixed header
/// and magic cookie, or if the cookie is wrong.
pub fn parse_dhcp(payload: &[u8]) -> (r: Option<DhcpInfo>)
    ensures
        match r {
            Some(info) => spec_parse_dhcp(payload@) == Some(info@),
            None => spec_parse_dhcp(payload@) is None,
        },
{
    if payload.len() < 240 {
        return None;
    }
    if payload.len() < 244 {
        return None;
    }
    if payload[240] != 0x63 || payload[241] != 0x82 || payload[242] != 0x53 || payload[243] != 0x63 {
        return None;
    }
    let mut info = DhcpInfo::default();
    let mut offset: usize = 244;
    while offset < payload.len() && payload.len() - offset > 1
        invariant
            244 <= offset,
            walk_options(payload@, offset as int, info@) == walk_options(payload@, 244, empty_dhcp_view()),
        ensures
            info@ == walk_options(payload@, 244, empty_dhcp_view()),
        decreases payload.len() - offset,
    {
        let tag = payload[offset];
        if tag == 255 {
            break;
        }
        if tag == 0 {
            offset = offset + 1;
            continue;
        }
        let len = payload[offset + 1] as usize;
        if len > payload.len() - offset - 2 {
            break;
        }
        let value = &payload[offset + 2..offset + 2 + len];
        let ghost before = info@;
        if tag == 12 {
            match text_value(value) {
                Some(h) => {
                    info.hostname = Some(h);
                },
                None => {},
            }
        } else if tag == 60 {
            match text_value(value) {
                Some(v) => {
                    info.vendor_class = Some(v);
                },
                None => {},
            }
        } else if tag == 53 && len > 0 {
            info.message_type = Some(value[0]);
        }
        assert(info@ == apply_option(before, tag, payload@.subrange(offset + 2, offset + 2 + len)));
        offset = offset + 2 + len;
    }
    Some(info)
}

} // verus!
