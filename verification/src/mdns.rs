//! mDNS (DNS wire format) parsing.
//!
//! Extracts the first SRV target (the device hostname), the first PTR
//! instance name and the PTR owner name (the service type) from an mDNS
//! message. Names are sequences of length-prefixed labels ending in a
//! zero byte; a byte with its two top bits set starts a two-byte
//! compression pointer to an earlier offset. At most ten pointers are
//! followed, and each must point before the offset where the name began.

use vstd::prelude::*;
use vstd::utf8::*;

use crate::dhcp::opt_view;
use crate::text::{push_char, push_str, utf8_decode};

verus! {

/// Information extracted from an mDNS packet.
#[derive(Debug, Clone, PartialEq, Eq)]
pub struct MdnsInfo {
    /// Hostname from the first SRV record's target field.
    pub hostname: Option<String>,
    /// Service instance name from the first PTR record.
    pub instance: Option<String>,
    /// Service type from the first PTR record's owner name.
    pub service_type: Option<String>,
}

/// The mathematical content of an [`MdnsInfo`].
pub struct MdnsView {
    pub hostname: Option<Seq<char>>,
    pub instance: Option<Seq<char>>,
    pub service_type: Option<Seq<char>>,
}

impl View for MdnsInfo {
    type V = MdnsView;

    open spec fn view(&self) -> MdnsView {
        MdnsView {
            hostname: opt_view(self.hostname),
            instance: opt_view(self.instance),
            service_type: opt_view(self.service_type),
        }
    }
}

impl Default for MdnsInfo {
    fn default() -> (r: Self)
        ensures
            r@ == empty_mdns_view(),
    {
        MdnsInfo { hostname: None, instance: None, service_type: None }
    }
}

pub open spec fn empty_mdns_view() -> MdnsView {
    MdnsView { hostname: None, instance: None, service_type: None }
}

/// DNS record type PTR.
pub const RECORD_TYPE_PTR: u16 = 12;

/// DNS record type SRV.
pub const RECORD_TYPE_SRV: u16 = 33;

/// Big-endian 16-bit value of two bytes.
pub open spec fn be16(a: u8, b: u8) -> int {
    a * 256 + b
}

/// Labels joined with dots.
pub open spec fn join_labels(labels: Seq<Seq<char>>) -> Seq<char>
    decreases labels.len(),
{
    if labels.len() == 0 {
        Seq::empty()
    } else if labels.len() == 1 {
        labels[0]
    } else {
        join_labels(labels.drop_last()) + seq!['.'] + labels.last()
    }
}

/// Reading a name from offset `off`. `orig` is where the name began,
/// `jumps` the pointers followed so far, `end` the offset just past the
/// first pointer (if any), `labels` the labels decoded so far. Returns the
/// offset just past the name and, when `collect` is set and at least one
/// label was read, the dotted name. `None` when the name runs past the
/// data, a pointer is out of order or over the limit, or (when
/// collecting) a label is not UTF-8.
pub open spec fn name_walk(
    p: Seq<u8>,
    off: int,
    orig: int,
    jumps: int,
    end: Option<int>,
    labels: Seq<Seq<char>>,
    collect: bool,
) -> Option<(int, Option<Seq<char>>)>
    decreases 11 - jumps, p.len() - off,
{
    if off < 0 || off >= p.len() || jumps < 0 || jumps > 10 {
        None
    } else {
        let len = p[off];
        if len >= 0xC0 {
            if off + 1 >= p.len() {
                None
            } else {
                let ptr = (len - 0xC0) * 256 + p[off + 1];
                let end2 = match end {
                    Some(e) => Some(e),
                    None => Some(off + 2),
                };
                if jumps + 1 > 10 || ptr >= orig {
                    None
                } else {
                    name_walk(p, ptr, orig, jumps + 1, end2, labels, collect)
                }
            }
        } else if len == 0 {
            let fin = match end {
                Some(e) => e,
                None => off + 1,
            };
            let name = if collect && labels.len() > 0 {
                Some(join_labels(labels))
            } else {
                None
            };
            Some((fin, name))
        } else {
            let label_end = off + 1 + len;
            if label_end > p.len() {
                None
            } else if collect {
                let bytes = p.subrange(off + 1, label_end);
                if valid_utf8(bytes) {
                    name_walk(p, label_end, orig, jumps, end, labels.push(decode_utf8(bytes)), collect)
                } else {
                    None
                }
            } else {
                name_walk(p, label_end, orig, jumps, end, labels, collect)
            }
        }
    }
}

/// A name read from `off` from scratch.
pub open spec fn spec_read_name(p: Seq<u8>, off: int, collect: bool) -> Option<(int, Option<Seq<char>>)> {
    name_walk(p, off, off, 0, None, Seq::empty(), collect)
}

proof fn lemma_join_push(labels: Seq<Seq<char>>, l: Seq<char>)
    ensures
        join_labels(labels.push(l)) == if labels.len() == 0 {
            l
        } else {
            join_labels(labels) + seq!['.'] + l
        },
{
    assert(labels.push(l).drop_last() == labels);
}

/// Core name reader (see [`name_walk`]).
fn read_name_internal(payload: &[u8], offset: usize, collect: bool) -> (r: Option<(usize, Option<String>)>)
    ensures
        match r {
            Some((e, n)) => spec_read_name(payload@, offset as int, collect) == Some((e as int, opt_view(n))),
            None => spec_read_name(payload@, offset as int, collect) is None,
        },
{
    let original_offset = offset;
    let mut off = offset;
    let mut name = String::new();
    let mut have_label = false;
    let ghost mut labels: Seq<Seq<char>> = Seq::empty();
    let mut end_offset: Option<usize> = None;
    let mut jumps: u8 = 0;
    let ghost target = spec_read_name(payload@, original_offset as int, collect);
    loop
        invariant
            jumps <= 10,
            original_offset == offset,
            name_walk(
                payload@,
                off as int,
                original_offset as int,
                jumps as int,
                match end_offset {
                    Some(e) => Some(e as int),
                    None => None,
                },
                labels,
                collect,
            ) == target,
            target == spec_read_name(payload@, original_offset as int, collect),
            end_offset matches Some(e) ==> e <= payload@.len(),
            have_label == (labels.len() > 0),
            name@ == join_labels(labels),
        decreases 11 - jumps, payload@.len() - off,
    {
        if off >= payload.len() {
            return None;
        }
        let len = payload[off];
        if len >= 0xC0 {
            if off + 1 >= payload.len() {
                return None;
            }
            let pointer: usize = ((len - 0xC0) as usize) * 256 + payload[off + 1] as usize;
            if end_offset.is_none() {
                end_offset = Some(off + 2);
            }
            jumps = jumps + 1;
            if jumps > 10 || pointer >= original_offset {
                return None;
            }
            off = pointer;
            continue;
        }
        if len == 0 {
            let final_end = match end_offset {
                Some(e) => e,
                None => off + 1,
            };
            let result = if collect && have_label {
                Some(name)
            } else {
                None
            };
            return Some((final_end, result));
        }
        if len as usize > payload.len() - off - 1 {
            return None;
        }
        let label_end = off + 1 + len as usize;
        if collect {
            match utf8_decode(&payload[off + 1..label_end]) {
                Some(s) => {
                    proof {
                        lemma_join_push(labels, s@);
                    }
                    if have_label {
                        push_char(&mut name, '.');
                    }
                    push_str(&mut name, s.as_str());
                    proof {
                        labels = labels.push(s@);
                    }
                    have_label = true;
                },
                None => {
                    return None;
                },
            }
        }
        off = label_end;
    }
}

/// Skip over a name, returning the offset just past it.
fn skip_name(payload: &[u8], offset: usize) -> (r: Option<(usize, Option<String>)>)
    ensures
        match r {
            Some((e, n)) => spec_read_name(payload@, offset as int, false) == Some((e as int, opt_view(n))),
            None => spec_read_name(payload@, offset as int, false) is None,
        },
{
    read_name_internal(payload, offset, false)
}

/// Read a name, returning the offset just past it and the dotted name.
fn read_name(payload: &[u8], offset: usize) -> (r: Option<(usize, Option<String>)>)
    ensures
        match r {
            Some((e, n)) => spec_read_name(payload@, offset as int, true) == Some((e as int, opt_view(n))),
            None => spec_read_name(payload@, offset as int, true) is None,
        },
{
    read_name_internal(payload, offset, true)
}

/// A parsed resource record.
struct ParsedRecord {
    name: Option<String>,
    record_type: u16,
    next_offset: usize,
    srv_target: Option<String>,
    ptr_rdata: Option<String>,
}

/// The mathematical content of a parsed resource record.
pub struct RecordView {
    pub name: Option<Seq<char>>,
    pub record_type: int,
    pub next_offset: int,
    pub srv_target: Option<Seq<char>>,
    pub ptr_rdata: Option<Seq<char>>,
}

impl ParsedRecord {
    spec fn view(&self) -> RecordView {
        RecordView {
            name: opt_view(self.name),
            record_type: self.record_type as int,
            next_offset: self.next_offset as int,
            srv_target: opt_view(self.srv_target),
            ptr_rdata: opt_view(self.ptr_rdata),
        }
    }
}

/// The resource record starting at `off`: owner name, type, class, TTL,
/// data length and data. PTR data is a name; SRV data of at least seven
/// bytes carries a target name after priority, weight and port.
pub open spec fn spec_parse_record(p: Seq<u8>, off: int) -> Option<RecordView> {
    match spec_read_name(p, off, true) {
        None => None,
        Some((name_end, name)) => if name_end + 10 > p.len() {
            None
        } else {
            let rtype = be16(p[name_end], p[name_end + 1]);
            let rdlength = be16(p[name_end + 8], p[name_end + 9]);
            let rdata_start = name_end + 10;
            if rdata_start + rdlength > p.len() {
                None
            } else {
                let next = rdata_start + rdlength;
                if rtype == 12 {
                    match spec_read_name(p, rdata_start, true) {
                        None => None,
                        Some((_, n)) => Some(
                            RecordView { name, record_type: rtype, next_offset: next, srv_target: None, ptr_rdata: n },
                        ),
                    }
                } else if rtype == 33 && rdlength >= 7 {
                    match spec_read_name(p, rdata_start + 6, true) {
                        None => None,
                        Some((_, t)) => Some(
                            RecordView { name, record_type: rtype, next_offset: next, srv_target: t, ptr_rdata: None },
                        ),
                    }
                } else {
                    Some(RecordView { name, record_type: rtype, next_offset: next, srv_target: None, ptr_rdata: None })
                }
            }
        },
    }
}

/// Parse a single resource record starting at `offset`.
fn parse_record(payload: &[u8], offset: usize) -> (r: Option<ParsedRecord>)
    ensures
        match r {
            Some(rec) => spec_parse_record(payload@, offset as int) == Some(rec.view()),
            None => spec_parse_record(payload@, offset as int) is None,
        },
{
    let (name_end, name) = match read_name(payload, offset) {
        Some(x) => x,
        None => {
            return None;
        },
    };
    if name_end > payload.len() || payload.len() - name_end < 10 {
        return None;
    }
    let record_type: u16 = (payload[name_end] as u16) * 256 + payload[name_end + 1] as u16;
    let rdlength: usize = (payload[name_end + 8] as usize) * 256 + payload[name_end + 9] as usize;
    let rdata_start = name_end + 10;
    if rdlength > payload.len() - rdata_start {
        return None;
    }
    let next_offset = rdata_start + rdlength;
    if record_type == RECORD_TYPE_PTR {
        match read_name(payload, rdata_start) {
            Some((_, rdata_name)) => Some(
                ParsedRecord { name, record_type, next_offset, srv_target: None, ptr_rdata: rdata_name },
            ),
            None => None,
        }
    } else if record_type == RECORD_TYPE_SRV && rdlength >= 7 {
        match read_name(payload, rdata_start + 6) {
            Some((_, target)) => Some(
                ParsedRecord { name, record_type, next_offset, srv_target: target, ptr_rdata: None },
            ),
            None => None,
        }
    } else {
        Some(ParsedRecord { name, record_type, next_offset, srv_target: None, ptr_rdata: None })
    }
}

/// Skips `n` questions (a name followed by type and class) from `off`.
pub open spec fn skip_questions(p: Seq<u8>, off: int, n: nat) -> Option<int>
    decreases n,
{
    if n == 0 {
        Some(off)
    } else {
        match spec_read_name(p, off, false) {
            None => None,
            Some((e, _)) => if e + 4 > p.len() {
                None
            } else {
                skip_questions(p, e + 4, (n - 1) as nat)
            },
        }
    }
}

/// What one record contributes: the first SRV target becomes the
/// hostname; the first PTR record gives the instance and service type.
pub open spec fn absorb_record(info: MdnsView, r: RecordView) -> MdnsView {
    let info1 = if info.hostname is None && r.record_type == 33 && r.srv_target is Some {
        MdnsView { hostname: r.srv_target, instance: info.instance, service_type: info.service_type }
    } else {
        info
    };
    if info1.instance is None && r.record_type == 12 {
        MdnsView { hostname: info1.hostname, instance: r.ptr_rdata, service_type: r.name }
    } else {
        info1
    }
}

/// Walks `n` records from `off`. The flag is false when a record failed
/// to parse; the view is what was gathered up to that point.
pub open spec fn walk_records(p: Seq<u8>, off: int, n: nat, info: MdnsView) -> (bool, MdnsView)
    decreases n,
{
    if n == 0 {
        (true, info)
    } else {
        match spec_parse_record(p, off) {
            None => (false, info),
            Some(r) => walk_records(p, r.next_offset, (n - 1) as nat, absorb_record(info, r)),
        }
    }
}

/// What `parse_mdns` extracts: `None` for a payload shorter than the
/// 12-byte header or with a malformed question; when a record fails to
/// parse, what was gathered so far if it holds a hostname or instance;
/// otherwise what the answer, authority and additional records give,
/// unless they give nothing.
pub open spec fn spec_parse_mdns(p: Seq<u8>) -> Option<MdnsView> {
    if p.len() < 12 {
        None
    } else {
        let qd = be16(p[4], p[5]);
        let total = be16(p[6], p[7]) + be16(p[8], p[9]) + be16(p[10], p[11]);
        match skip_questions(p, 12, qd as nat) {
            None => None,
            Some(off) => {
                let (ok, info) = walk_records(p, off, total as nat, empty_mdns_view());
                if !ok {
                    if info.hostname is Some || info.instance is Some {
                        Some(info)
                    } else {
                        None
                    }
                } else if info.hostname is None && info.instance is None && info.service_type is None {
                    None
                } else {
                    Some(info)
                }
            },
        }
    }
}

/// Parse an mDNS packet payload and extract identifying information.
///
/// The payload starts at the DNS header (after the UDP header).
pub fn parse_mdns(payload: &[u8]) -> (r: Option<MdnsInfo>)
    ensures
        match r {
            Some(info) => spec_parse_mdns(payload@) == Some(info@),
            None => spec_parse_mdns(payload@) is None,
        },
{
    if payload.len() < 12 {
        return None;
    }
    let qdcount: u32 = (payload[4] as u32) * 256 + payload[5] as u32;
    let ancount: u32 = (payload[6] as u32) * 256 + payload[7] as u32;
    let nscount: u32 = (payload[8] as u32) * 256 + payload[9] as u32;
    let arcount: u32 = (payload[10] as u32) * 256 + payload[11] as u32;
    let mut info = MdnsInfo::default();
    let mut offset: usize = 12;
    let mut q: u32 = 0;
    while q < qdcount
        invariant
            q <= qdcount,
            qdcount == be16(payload@[4], payload@[5]),
            skip_questions(payload@, offset as int, (qdcount - q) as nat) == skip_questions(
                payload@,
                12,
                qdcount as nat,
            ),
        decreases qdcount - q,
    {
        let (name_end, _) = match skip_name(payload, offset) {
            Some(x) => x,
            None => {
                return None;
            },
        };
        if name_end > payload.len() || payload.len() - name_end < 4 {
            return None;
        }
        offset = name_end + 4;
        q = q + 1;
    }
    let total: u32 = ancount + nscount + arcount;
    let ghost rec_start = offset as int;
    let mut k: u32 = 0;
    while k < total
        invariant
            k <= total,
            total == be16(payload@[6], payload@[7]) + be16(payload@[8], payload@[9]) + be16(
                payload@[10],
                payload@[11],
            ),
            skip_questions(payload@, 12, be16(payload@[4], payload@[5]) as nat) == Some(rec_start),
            walk_records(payload@, offset as int, (total - k) as nat, info@) == walk_records(
                payload@,
                rec_start,
                total as nat,
                empty_mdns_view(),
            ),
        decreases total - k,
    {
        let record = match parse_record(payload, offset) {
            Some(r) => r,
            None => {
                if info.hostname.is_some() || info.instance.is_some() {
                    return Some(info);
                } else {
                    return None;
                }
            },
        };
        offset = record.next_offset;
        let ghost before = info@;
        if info.hostname.is_none() && record.record_type == RECORD_TYPE_SRV && record.srv_target.is_some() {
            info.hostname = record.srv_target;
        }
        if info.instance.is_none() && record.record_type == RECORD_TYPE_PTR {
            info.instance = record.ptr_rdata;
            info.service_type = record.name;
        }
        k = k + 1;
    }
    if info.hostname.is_none() && info.instance.is_none() && info.service_type.is_none() {
        None
    } else {
        Some(info)
    }
}

/// Whether a name, when present, holds at least one character.
pub open spec fn absent_or_nonempty(n: Option<Seq<char>>) -> bool {
    n matches Some(t) ==> t.len() > 0
}

proof fn lemma_join_nonempty(labels: Seq<Seq<char>>)
    requires
        labels.len() > 0,
        labels[0].len() > 0,
    ensures
        join_labels(labels).len() > 0,
{
}

proof fn lemma_name_walk_nonempty(
    p: Seq<u8>,
    off: int,
    orig: int,
    jumps: int,
    end: Option<int>,
    labels: Seq<Seq<char>>,
    collect: bool,
)
    requires
        labels.len() > 0 ==> labels[0].len() > 0,
    ensures
        name_walk(p, off, orig, jumps, end, labels, collect) matches Some((_, n)) ==> absent_or_nonempty(n),
    decreases 11 - jumps, p.len() - off,
{
    if off < 0 || off >= p.len() || jumps < 0 || jumps > 10 {
    } else {
        let len = p[off];
        if len >= 0xC0 {
            if off + 1 < p.len() {
                let ptr = (len - 0xC0) * 256 + p[off + 1];
                let end2 = match end {
                    Some(e) => Some(e),
                    None => Some(off + 2),
                };
                if !(jumps + 1 > 10 || ptr >= orig) {
                    lemma_name_walk_nonempty(p, ptr, orig, jumps + 1, end2, labels, collect);
                }
            }
        } else if len == 0 {
            if collect && labels.len() > 0 {
                lemma_join_nonempty(labels);
            }
        } else {
            let label_end = off + 1 + len;
            if label_end <= p.len() {
                if collect {
                    let bytes = p.subrange(off + 1, label_end);
                    if valid_utf8(bytes) {
                        assert(decode_utf8(bytes).len() > 0);
                        lemma_name_walk_nonempty(p, label_end, orig, jumps, end, labels.push(decode_utf8(bytes)), collect);
                    }
                } else {
                    lemma_name_walk_nonempty(p, label_end, orig, jumps, end, labels, collect);
                }
            }
        }
    }
}

proof fn lemma_record_names_nonempty(p: Seq<u8>, off: int)
    ensures
        spec_parse_record(p, off) matches Some(r) ==> absent_or_nonempty(r.name) && absent_or_nonempty(r.srv_target)
            && absent_or_nonempty(r.ptr_rdata),
{
    lemma_name_walk_nonempty(p, off, off, 0, None, Seq::empty(), true);
    match spec_read_name(p, off, true) {
        Some((name_end, _)) => {
            let rdata_start = name_end + 10;
            lemma_name_walk_nonempty(p, rdata_start, rdata_start, 0, None, Seq::empty(), true);
            lemma_name_walk_nonempty(p, rdata_start + 6, rdata_start + 6, 0, None, Seq::empty(), true);
        },
        None => {},
    }
}

proof fn lemma_walk_fields_nonempty(p: Seq<u8>, off: int, n: nat, info: MdnsView)
    requires
        absent_or_nonempty(info.hostname),
        absent_or_nonempty(info.instance),
        absent_or_nonempty(info.service_type),
    ensures
        absent_or_nonempty(walk_records(p, off, n, info).1.hostname),
        absent_or_nonempty(walk_records(p, off, n, info).1.instance),
        absent_or_nonempty(walk_records(p, off, n, info).1.service_type),
    decreases n,
{
    if n > 0 {
        match spec_parse_record(p, off) {
            None => {},
            Some(r) => {
                lemma_record_names_nonempty(p, off);
                lemma_walk_fields_nonempty(p, r.next_offset, (n - 1) as nat, absorb_record(info, r));
            },
        }
    }
}

/// What an mDNS payload tells is never empty: a parsed result holds at
/// least one field, and every field it holds is a non-empty name.
pub proof fn law_mdns_fields_nonempty(p: Seq<u8>)
    ensures
        spec_parse_mdns(p) matches Some(info) ==> {
            &&& (info.hostname is Some || info.instance is Some || info.service_type is Some)
            &&& absent_or_nonempty(info.hostname)
            &&& absent_or_nonempty(info.instance)
            &&& absent_or_nonempty(info.service_type)
        },
{
    if p.len() >= 12 {
        let qd = be16(p[4], p[5]);
        let total = be16(p[6], p[7]) + be16(p[8], p[9]) + be16(p[10], p[11]);
        match skip_questions(p, 12, qd as nat) {
            None => {},
            Some(off) => {
                lemma_walk_fields_nonempty(p, off, total as nat, empty_mdns_view());
            },
        }
    }
}

/// Whether the records of `p` stand one after another at the offsets
/// `offs`, each parsing and ending where the next begins.
pub open spec fn records_chain(p: Seq<u8>, offs: Seq<int>) -> bool {
    forall|i: int|
        0 <= i < offs.len() - 1 ==> (#[trigger] spec_parse_record(p, offs[i])) is Some && spec_parse_record(
            p,
            offs[i],
        ).unwrap().next_offset == offs[i + 1]
}

/// Whether a record is an SRV record with a target.
pub open spec fn srv_with_target(r: Option<RecordView>) -> bool {
    r is Some && r.unwrap().record_type == 33 && r.unwrap().srv_target is Some
}

proof fn lemma_walk_finds_srv(p: Seq<u8>, offs: Seq<int>, i: int, k: int, info: MdnsView, target: Seq<char>)
    requires
        records_chain(p, offs),
        0 <= i <= offs.len() - 1,
        0 <= k < offs.len() - 1,
        srv_with_target(spec_parse_record(p, offs[k])),
        spec_parse_record(p, offs[k]).unwrap().srv_target == Some(target),
        forall|j: int| 0 <= j < k ==> !srv_with_target(#[trigger] spec_parse_record(p, offs[j])),
        info.hostname == (if k < i {
            Some(target)
        } else {
            None::<Seq<char>>
        }),
    ensures
        walk_records(p, offs[i], (offs.len() - 1 - i) as nat, info).0,
        walk_records(p, offs[i], (offs.len() - 1 - i) as nat, info).1.hostname == Some(target),
    decreases offs.len() - 1 - i,
{
    if i < offs.len() - 1 {
        let r = spec_parse_record(p, offs[i]).unwrap();
        assert(spec_parse_record(p, offs[i]) is Some);
        let next = absorb_record(info, r);
        if i < k {
            assert(!srv_with_target(spec_parse_record(p, offs[i])));
        }
        lemma_walk_finds_srv(p, offs, i + 1, k, next, target);
    }
}

/// Every record of the answer, authority and additional sections is
/// read: when a payload without questions holds, from offset 12, as many
/// records one after another as the three section counts of its header
/// add up to, its hostname is the target of the first SRV record among
/// them, in whichever section that record stands.
pub proof fn law_mdns_reads_every_section(p: Seq<u8>, offs: Seq<int>, k: int, target: Seq<char>)
    requires
        p.len() >= 12,
        be16(p[4], p[5]) == 0,
        offs.len() == be16(p[6], p[7]) + be16(p[8], p[9]) + be16(p[10], p[11]) + 1,
        offs[0] == 12,
        records_chain(p, offs),
        0 <= k < offs.len() - 1,
        srv_with_target(spec_parse_record(p, offs[k])),
        spec_parse_record(p, offs[k]).unwrap().srv_target == Some(target),
        forall|j: int| 0 <= j < k ==> !srv_with_target(#[trigger] spec_parse_record(p, offs[j])),
    ensures
        spec_parse_mdns(p) is Some,
        spec_parse_mdns(p).unwrap().hostname == Some(target),
{
    assert(skip_questions(p, 12, 0) == Some(12int));
    lemma_walk_finds_srv(p, offs, 0, k, empty_mdns_view(), target);
}

/// Whether a record is a PTR record with an instance name.
pub open spec fn ptr_with_instance(r: Option<RecordView>) -> bool {
    r is Some && r.unwrap().record_type == 12 && r.unwrap().ptr_rdata is Some
}

proof fn lemma_walk_finds_ptr(p: Seq<u8>, offs: Seq<int>, i: int, k: int, info: MdnsView, rec: RecordView)
    requires
        records_chain(p, offs),
        0 <= i <= offs.len() - 1,
        0 <= k < offs.len() - 1,
        spec_parse_record(p, offs[k]) == Some(rec),
        ptr_with_instance(Some(rec)),
        forall|j: int| 0 <= j < k ==> !ptr_with_instance(#[trigger] spec_parse_record(p, offs[j])),
        k < i ==> info.instance == rec.ptr_rdata && info.service_type == rec.name,
        i <= k ==> info.instance is None,
    ensures
        walk_records(p, offs[i], (offs.len() - 1 - i) as nat, info).0,
        walk_records(p, offs[i], (offs.len() - 1 - i) as nat, info).1.instance == rec.ptr_rdata,
        walk_records(p, offs[i], (offs.len() - 1 - i) as nat, info).1.service_type == rec.name,
    decreases offs.len() - 1 - i,
{
    if i < offs.len() - 1 {
        let r = spec_parse_record(p, offs[i]).unwrap();
        assert(spec_parse_record(p, offs[i]) is Some);
        let next = absorb_record(info, r);
        if i < k {
            assert(!ptr_with_instance(spec_parse_record(p, offs[i])));
        }
        lemma_walk_finds_ptr(p, offs, i + 1, k, next, rec);
    }
}

/// Every record of the three sections is read for the service too: the
/// instance and service type are those of the first PTR record with an
/// instance name, in whichever section it stands.
pub proof fn law_mdns_service_from_every_section(p: Seq<u8>, offs: Seq<int>, k: int, rec: RecordView)
    requires
        p.len() >= 12,
        be16(p[4], p[5]) == 0,
        offs.len() == be16(p[6], p[7]) + be16(p[8], p[9]) + be16(p[10], p[11]) + 1,
        offs[0] == 12,
        records_chain(p, offs),
        0 <= k < offs.len() - 1,
        spec_parse_record(p, offs[k]) == Some(rec),
        ptr_with_instance(Some(rec)),
        forall|j: int| 0 <= j < k ==> !ptr_with_instance(#[trigger] spec_parse_record(p, offs[j])),
    ensures
        spec_parse_mdns(p) is Some,
        spec_parse_mdns(p).unwrap().instance == rec.ptr_rdata,
        spec_parse_mdns(p).unwrap().service_type == rec.name,
{
    assert(skip_questions(p, 12, 0) == Some(12int));
    lemma_walk_finds_ptr(p, offs, 0, k, empty_mdns_view(), rec);
}

} // verus!
