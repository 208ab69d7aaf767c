//! How device and alert records are written to and read from SQLite
//! rows: the JSON lists of protocols and counters, and the SQL text of
//! the filtered queries.

use vstd::prelude::*;

use crate::alert::{severity_text, AlertFilter};
use crate::protocol::{lemma_protocol_text_roundtrip, protocol_text, spec_protocol_from_text, Protocol};
use crate::text::{copy_str, decimal, push_decimal, push_str};
use crate::types::{lemma_stats_at, mac_text, stats_count, stats_has, stats_map, sorted_stats, MacAddress, ProtocolSet, ProtocolStats};

verus! {

/// What `serde_json` makes of text read as a list of strings.
pub uninterp spec fn json_strings(text: Seq<char>) -> Option<Seq<Seq<char>>>;

/// What `serde_json` makes of text read as a list of (string, number)
/// pairs.
pub uninterp spec fn json_pairs(text: Seq<char>) -> Option<Seq<(Seq<char>, u64)>>;

/// The JSON text `serde_json` writes for a list of strings.
pub uninterp spec fn json_of_strings(items: Seq<Seq<char>>) -> Seq<char>;

/// The JSON text `serde_json` writes for a list of (string, number)
/// pairs.
pub uninterp spec fn json_of_pairs(items: Seq<(Seq<char>, u64)>) -> Seq<char>;

/// The plain form of a list of strings.
pub open spec fn strings_view(v: Seq<String>) -> Seq<Seq<char>> {
    v.map_values(|s: String| s@)
}

/// The plain form of a list of (string, number) pairs.
pub open spec fn pairs_view(v: Seq<(String, u64)>) -> Seq<(Seq<char>, u64)> {
    v.map_values(|p: (String, u64)| (p.0@, p.1))
}

/// Reads text as a JSON list of strings with `serde_json::from_str`.
#[verifier::external_body]
fn json_read_strings(text: &str) -> (r: Option<Vec<String>>)
    ensures
        match json_strings(text@) {
            Some(items) => r matches Some(v) && strings_view(v@) == items,
            None => r is None,
        },
{
    serde_json::from_str::<Vec<String>>(text).ok()
}

/// Reads text as a JSON list of (string, number) pairs with
/// `serde_json::from_str`.
#[verifier::external_body]
fn json_read_pairs(text: &str) -> (r: Option<Vec<(String, u64)>>)
    ensures
        match json_pairs(text@) {
            Some(items) => r matches Some(v) && pairs_view(v@) == items,
            None => r is None,
        },
{
    serde_json::from_str::<Vec<(String, u64)>>(text).ok()
}

/// Writes a list of strings as JSON with `serde_json::to_string`; read
/// back as a list of strings, the text gives the same list.
#[verifier::external_body]
fn json_write_strings(items: &Vec<String>) -> (r: String)
    ensures
        r@ == json_of_strings(strings_view(items@)),
        json_strings(r@) == Some(strings_view(items@)),
{
    serde_json::to_string(items).unwrap_or_else(|_| "[]".to_string())
}

/// Writes a list of (string, number) pairs as JSON with
/// `serde_json::to_string`; read back as such a list, the text gives the
/// same list.
#[verifier::external_body]
fn json_write_pairs(items: &Vec<(String, u64)>) -> (r: String)
    ensures
        r@ == json_of_pairs(pairs_view(items@)),
        json_pairs(r@) == Some(pairs_view(items@)),
{
    serde_json::to_string(items).unwrap_or_else(|_| "{}".to_string())
}

/// The names of a set of protocols, in order.
pub fn protocol_names(set: &ProtocolSet) -> (r: Vec<String>)
    ensures
        strings_view(r@) == set@.map_values(|p: Protocol| protocol_text(p)),
{
    let mut out: Vec<String> = Vec::new();
    let n = set.len();
    let mut i: usize = 0;
    while i < n
        invariant
            i <= n,
            n == set@.len(),
            out@.len() == i,
            forall|k: int| 0 <= k < i ==> (#[trigger] out@[k])@ == protocol_text(set@[k]),
        decreases n - i,
    {
        out.push(set.get(i).to_string());
        i = i + 1;
    }
    proof {
        assert(strings_view(out@) =~= set@.map_values(|p: Protocol| protocol_text(p)));
    }
    out
}

/// The protocols that a list of names denotes, names that denote none
/// left out.
pub open spec fn named_protocols(names: Seq<Seq<char>>) -> Set<Protocol>
    decreases names.len(),
{
    if names.len() == 0 {
        Set::empty()
    } else {
        match spec_protocol_from_text(names.last()) {
            Some(p) => named_protocols(names.drop_last()).insert(p),
            None => named_protocols(names.drop_last()),
        }
    }
}

/// The set of protocols a list of names denotes.
pub fn protocols_from_names(names: &Vec<String>) -> (r: ProtocolSet)
    ensures
        r@.to_set() == named_protocols(strings_view(names@)),
{
    let mut set = ProtocolSet::new();
    let n = names.len();
    let mut i: usize = 0;
    proof {
        assert(set@.to_set() =~= Set::<Protocol>::empty());
    }
    while i < n
        invariant
            i <= n,
            n == names@.len(),
            set@.to_set() == named_protocols(strings_view(names@.subrange(0, i as int))),
        decreases n - i,
    {
        proof {
            assert(strings_view(names@.subrange(0, i + 1)).drop_last() == strings_view(names@.subrange(0, i as int)));
            assert(strings_view(names@.subrange(0, i + 1)).last() == names@[i as int]@);
        }
        match Protocol::from_str(names[i].as_str()) {
            Ok(p) => set.insert(p),
            Err(_) => {},
        }
        i = i + 1;
    }
    proof {
        assert(names@.subrange(0, n as int) == names@);
    }
    set
}

/// The protocol list of a device as stored: a JSON list of names.
pub fn protocols_to_json(set: &ProtocolSet) -> (r: String)
    ensures
        r@ == json_of_strings(set@.map_values(|p: Protocol| protocol_text(p))),
        json_strings(r@) == Some(set@.map_values(|p: Protocol| protocol_text(p))),
{
    json_write_strings(&protocol_names(set))
}

/// Reads a stored protocol list: the protocols its names denote; text
/// that is no JSON list of strings reads as no protocols.
pub fn protocols_from_json(text: &str) -> (r: ProtocolSet)
    ensures
        r@.to_set() == match json_strings(text@) {
            Some(names) => named_protocols(names),
            None => Set::empty(),
        },
{
    match json_read_strings(text) {
        Some(names) => protocols_from_names(&names),
        None => {
            let s = ProtocolSet::new();
            assert(s@.to_set() =~= Set::<Protocol>::empty());
            s
        },
    }
}

/// The counters that a list of (name, count) pairs denotes, later pairs
/// winning, pairs whose name denotes no protocol left out.
pub open spec fn named_counts(pairs: Seq<(Seq<char>, u64)>) -> Map<Protocol, u64>
    decreases pairs.len(),
{
    if pairs.len() == 0 {
        Map::empty()
    } else {
        match spec_protocol_from_text(pairs.last().0) {
            Some(p) => named_counts(pairs.drop_last()).insert(p, pairs.last().1),
            None => named_counts(pairs.drop_last()),
        }
    }
}

/// The counters a list of (name, count) pairs denotes.
pub fn stats_from_pairs(pairs: &Vec<(String, u64)>) -> (r: ProtocolStats)
    ensures
        r@ == named_counts(pairs_view(pairs@)),
{
    let mut stats = ProtocolStats::new();
    let n = pairs.len();
    let mut i: usize = 0;
    while i < n
        invariant
            i <= n,
            n == pairs@.len(),
            stats@ == named_counts(pairs_view(pairs@.subrange(0, i as int))),
        decreases n - i,
    {
        proof {
            assert(pairs_view(pairs@.subrange(0, i + 1)).drop_last() == pairs_view(pairs@.subrange(0, i as int)));
            assert(pairs_view(pairs@.subrange(0, i + 1)).last() == (pairs@[i as int].0@, pairs@[i as int].1));
        }
        match Protocol::from_str(pairs[i].0.as_str()) {
            Ok(p) => stats.set(p, pairs[i].1),
            Err(_) => {},
        }
        i = i + 1;
    }
    proof {
        assert(pairs@.subrange(0, n as int) == pairs@);
    }
    stats
}

/// The counters as (name, count) pairs in protocol order.
pub fn stats_pairs(stats: &ProtocolStats) -> (r: Vec<(String, u64)>)
    ensures
        exists|entries: Seq<(Protocol, u64)>| #[trigger] stats_map(entries) == stats@ && sorted_stats(entries)
            && pairs_view(r@) == entries.map_values(|e: (Protocol, u64)| (protocol_text(e.0), e.1)),
{
    let entries = stats.entries();
    let mut out: Vec<(String, u64)> = Vec::new();
    let n = entries.len();
    let mut i: usize = 0;
    while i < n
        invariant
            i <= n,
            n == entries@.len(),
            out@.len() == i,
            forall|k: int| 0 <= k < i ==> (#[trigger] out@[k]).0@ == protocol_text(entries@[k].0) && out@[k].1
                == entries@[k].1,
        decreases n - i,
    {
        out.push((entries[i].0.to_string(), entries[i].1));
        i = i + 1;
    }
    proof {
        assert(pairs_view(out@) =~= entries@.map_values(|e: (Protocol, u64)| (protocol_text(e.0), e.1)));
    }
    out
}

/// The counters of a device as stored: a JSON list of (name, count)
/// pairs in protocol order.
pub fn protocol_stats_to_json(stats: &ProtocolStats) -> (r: String)
    ensures
        exists|entries: Seq<(Protocol, u64)>| #[trigger] stats_map(entries) == stats@ && sorted_stats(entries)
            && r@ == json_of_pairs(entries.map_values(|e: (Protocol, u64)| (protocol_text(e.0), e.1)))
            && json_pairs(r@) == Some(entries.map_values(|e: (Protocol, u64)| (protocol_text(e.0), e.1))),
{
    let pairs = stats_pairs(stats);
    json_write_pairs(&pairs)
}

/// Reads stored counters; text that is no JSON list of pairs reads as
/// no counters.
pub fn protocol_stats_from_json(text: &str) -> (r: ProtocolStats)
    ensures
        r@ == match json_pairs(text@) {
            Some(pairs) => named_counts(pairs),
            None => Map::empty(),
        },
{
    match json_read_pairs(text) {
        Some(pairs) => stats_from_pairs(&pairs),
        None => ProtocolStats::new(),
    }
}

/// The names of a list of protocols denote exactly its protocols.
proof fn lemma_names_denote(s: Seq<Protocol>)
    ensures
        named_protocols(s.map_values(|p: Protocol| protocol_text(p))) == s.to_set(),
    decreases s.len(),
{
    if s.len() == 0 {
        assert(s.to_set() =~= Set::<Protocol>::empty());
    } else {
        let t = s.drop_last();
        lemma_names_denote(t);
        assert(s.map_values(|p: Protocol| protocol_text(p)).drop_last() =~= t.map_values(|p: Protocol| protocol_text(p)));
        lemma_protocol_text_roundtrip(s.last());
        assert forall|p: Protocol| #[trigger] s.contains(p) <==> t.contains(p) || p == s.last() by {
            if s.contains(p) {
                let i = choose|i: int| 0 <= i < s.len() && s[i] == p;
                if i < s.len() - 1 {
                    assert(t[i] == p);
                }
            }
            if t.contains(p) {
                let i = choose|i: int| 0 <= i < t.len() && t[i] == p;
                assert(s[i] == p);
            }
            if p == s.last() {
                assert(s[s.len() - 1] == p);
            }
        }
        assert(s.to_set() =~= t.to_set().insert(s.last()));
    }
}

/// The (name, count) pairs of sorted entries denote exactly their
/// counters.
proof fn lemma_pairs_denote(s: Seq<(Protocol, u64)>)
    requires
        sorted_stats(s),
    ensures
        named_counts(s.map_values(|e: (Protocol, u64)| (protocol_text(e.0), e.1))) == stats_map(s),
    decreases s.len(),
{
    if s.len() == 0 {
        assert(stats_map(s) =~= Map::<Protocol, u64>::empty());
    } else {
        let t = s.drop_last();
        let last = s.last();
        assert(sorted_stats(t));
        lemma_pairs_denote(t);
        assert(s.map_values(|e: (Protocol, u64)| (protocol_text(e.0), e.1)).drop_last() =~= t.map_values(
            |e: (Protocol, u64)| (protocol_text(e.0), e.1),
        ));
        lemma_protocol_text_roundtrip(last.0);
        lemma_stats_at(s, s.len() - 1);
        assert forall|p: Protocol| stats_has(s, p) <==> stats_has(t, p) || p == last.0 by {
            if stats_has(s, p) {
                let i = choose|i: int| 0 <= i < s.len() && s[i].0 == p;
                if i < s.len() - 1 {
                    assert(t[i].0 == p);
                }
            }
            if stats_has(t, p) {
                let i = choose|i: int| 0 <= i < t.len() && t[i].0 == p;
                assert(s[i].0 == p);
            }
        }
        assert forall|p: Protocol| stats_has(t, p) && p != last.0 implies stats_count(s, p) == stats_count(t, p) by {
            let i = choose|i: int| 0 <= i < t.len() && t[i].0 == p;
            lemma_stats_at(t, i);
            lemma_stats_at(s, i);
        }
        assert(stats_map(s) =~= stats_map(t).insert(last.0, last.1));
    }
}

/// What is stored of a set of protocols reads back as the same
/// protocols.
pub proof fn law_protocol_list_read_back(set: ProtocolSet, text: Seq<char>)
    requires
        json_strings(text) == Some(set@.map_values(|p: Protocol| protocol_text(p))),
    ensures
        match json_strings(text) {
            Some(names) => named_protocols(names),
            None => Set::empty(),
        } == set@.to_set(),
{
    lemma_names_denote(set@);
}

/// What is stored of a device's counters reads back as the same
/// counters.
pub proof fn law_protocol_stats_read_back(stats: ProtocolStats, entries: Seq<(Protocol, u64)>, text: Seq<char>)
    requires
        stats_map(entries) == stats@,
        sorted_stats(entries),
        json_pairs(text) == Some(entries.map_values(|e: (Protocol, u64)| (protocol_text(e.0), e.1))),
    ensures
        match json_pairs(text) {
            Some(pairs) => named_counts(pairs),
            None => Map::empty(),
        } == stats@,
{
    lemma_pairs_denote(entries);
}

// ---------------------------------------------------------------- queries

/// A value bound to a query parameter.
#[derive(Debug, Clone, PartialEq, Eq)]
pub enum SqlParam {
    Text(String),
    Int(i64),
}

/// The plain form of a query parameter.
pub enum SqlParamView {
    Text(Seq<char>),
    Int(i64),
}

impl View for SqlParam {
    type V = SqlParamView;

    open spec fn view(&self) -> SqlParamView {
        match self {
            SqlParam::Text(s) => SqlParamView::Text(s@),
            SqlParam::Int(i) => SqlParamView::Int(*i),
        }
    }
}

/// The conditions of an alert filter as SQL, with the parameters they
/// bind, numbered from 1 in the order severity, acknowledged, rule name.
pub open spec fn filter_conditions(f: AlertFilter) -> Seq<(Seq<char>, SqlParamView)> {
    let a: Seq<(Seq<char>, SqlParamView)> = match f.severity {
        Some(s) => seq![("severity"@, SqlParamView::Text(severity_text(s)))],
        None => Seq::empty(),
    };
    let b: Seq<(Seq<char>, SqlParamView)> = match f.acknowledged {
        Some(k) => seq![("acknowledged"@, SqlParamView::Int(if k { 1 } else { 0 }))],
        None => Seq::empty(),
    };
    let c: Seq<(Seq<char>, SqlParamView)> = match f.rule_name {
        Some(n) => seq![("rule_name"@, SqlParamView::Text(n@))],
        None => Seq::empty(),
    };
    a + b + c
}

/// `column = ?n` for the condition at index `i` (numbered from 1).
pub open spec fn condition_text(column: Seq<char>, i: int) -> Seq<char> {
    column + " = ?"@ + decimal((i + 1) as nat)
}

/// The conditions joined with ` AND `.
pub open spec fn joined_conditions(cs: Seq<(Seq<char>, SqlParamView)>) -> Seq<char>
    decreases cs.len(),
{
    if cs.len() == 0 {
        Seq::empty()
    } else if cs.len() == 1 {
        condition_text(cs[0].0, 0)
    } else {
        joined_conditions(cs.drop_last()) + " AND "@ + condition_text(cs.last().0, cs.len() - 1)
    }
}

/// The `WHERE` clause of a filtered alert query: empty without
/// conditions, else ` WHERE ` and the conditions.
pub open spec fn where_clause(f: AlertFilter) -> Seq<char> {
    if filter_conditions(f).len() == 0 {
        Seq::empty()
    } else {
        " WHERE "@ + joined_conditions(filter_conditions(f))
    }
}

fn push_condition(sql: &mut String, params: &mut Vec<SqlParam>, column: &str, value: SqlParam, conds: Ghost<Seq<(Seq<char>, SqlParamView)>>)
    requires
        old(params)@.len() < 3,
        old(params)@.map_values(|p: SqlParam| p@) == conds@.map_values(|c: (Seq<char>, SqlParamView)| c.1),
        old(sql)@ == joined_conditions(conds@),
    ensures
        final(params)@.map_values(|p: SqlParam| p@) == conds@.push((column@, value@)).map_values(
            |c: (Seq<char>, SqlParamView)| c.1,
        ),
        final(sql)@ == joined_conditions(conds@.push((column@, value@))),
        final(params)@.len() == old(params)@.len() + 1,
{
    let n = params.len();
    proof {
        let a = old(params)@.map_values(|p: SqlParam| p@);
        let b = conds@.map_values(|c: (Seq<char>, SqlParamView)| c.1);
        assert(a.len() == old(params)@.len());
        assert(b.len() == conds@.len());
        assert(conds@.len() == n);
    }
    if n > 0 {
        push_str(sql, " AND ");
    }
    push_str(sql, column);
    push_str(sql, " = ?");
    push_decimal(sql, (n as u64) + 1);
    let ghost vv = value@;
    params.push(value);
    proof {
        let cs = conds@.push((column@, vv));
        assert(cs.drop_last() =~= conds@);
        assert(sql@ =~= joined_conditions(cs));
        let a = old(params)@.map_values(|p: SqlParam| p@);
        let b = conds@.map_values(|c: (Seq<char>, SqlParamView)| c.1);
        assert forall|k: int| 0 <= k < params@.len() implies #[trigger] params@[k]@ == cs[k].1 by {
            if k < n {
                assert(params@[k] == old(params)@[k]);
                assert(a[k] == b[k]);
            }
        }
        assert(params@.map_values(|p: SqlParam| p@) =~= cs.map_values(|c: (Seq<char>, SqlParamView)| c.1));
    }
}

/// The `WHERE` clause and parameters of a filtered alert query (see
/// [`where_clause`]).
pub fn build_filter(filter: &AlertFilter) -> (r: (String, Vec<SqlParam>))
    ensures
        r.0@ == where_clause(*filter),
        r.1@.map_values(|p: SqlParam| p@) == filter_conditions(*filter).map_values(|c: (Seq<char>, SqlParamView)| c.1),
{
    let mut sql = String::new();
    let mut params: Vec<SqlParam> = Vec::new();
    let ghost mut conds: Seq<(Seq<char>, SqlParamView)> = Seq::empty();
    proof {
        assert(params@.map_values(|p: SqlParam| p@) =~= conds.map_values(|c: (Seq<char>, SqlParamView)| c.1));
    }
    if let Some(s) = filter.severity {
        let v = SqlParam::Text(s.to_string());
        let ghost vv = v@;
        push_condition(&mut sql, &mut params, "severity", v, Ghost(conds));
        proof {
            conds = conds.push(("severity"@, vv));
        }
    }
    if let Some(k) = filter.acknowledged {
        let v = SqlParam::Int(if k { 1 } else { 0 });
        let ghost vv = v@;
        push_condition(&mut sql, &mut params, "acknowledged", v, Ghost(conds));
        proof {
            conds = conds.push(("acknowledged"@, vv));
        }
    }
    if let Some(n) = &filter.rule_name {
        let v = SqlParam::Text(copy_str(n.as_str()));
        let ghost vv = v@;
        push_condition(&mut sql, &mut params, "rule_name", v, Ghost(conds));
        proof {
            conds = conds.push(("rule_name"@, vv));
        }
    }
    proof {
        assert(conds =~= filter_conditions(*filter));
    }
    if params.len() == 0 {
        proof {
            assert(conds.len() == 0);
            assert(sql@ =~= Seq::<char>::empty());
        }
        (sql, params)
    } else {
        let mut clause = copy_str(" WHERE ");
        push_str(&mut clause, sql.as_str());
        (clause, params)
    }
}

/// The SQL of a history query for device `mac`, optionally from and to
/// a date and limited in number, with its parameters (the MAC address,
/// then the dates given).
pub open spec fn history_sql(from: bool, to: bool, limit: Option<usize>) -> Seq<char> {
    let from_index: nat = 2;
    let to_index: nat = if from { 3 } else { 2 };
    "SELECT mac, snapshot_date, snapshot_timestamp, ips, hostname, vendor,\n                    dhcp_vendor_class, packet_count, bytes_sent, bytes_received,\n                    protocols, protocol_stats, first_seen, last_seen\n             FROM device_history WHERE mac = ?1"@
        + (if from {
        " AND snapshot_date >= ?"@ + decimal(from_index)
    } else {
        Seq::empty()
    }) + (if to {
        " AND snapshot_date <= ?"@ + decimal(to_index)
    } else {
        Seq::empty()
    }) + " ORDER BY snapshot_date ASC"@ + match limit {
        Some(l) => " LIMIT "@ + decimal(l as nat),
        None => Seq::empty(),
    }
}

/// The SQL and parameters of a history query (see [`history_sql`]).
pub fn history_query(mac: &MacAddress, from: Option<&str>, to: Option<&str>, limit: Option<usize>) -> (r: (String, Vec<String>))
    ensures
        r.0@ == history_sql(from is Some, to is Some, limit),
        r.1@.len() == 1 + (if from is Some { 1int } else { 0 }) + (if to is Some { 1int } else { 0 }),
        r.1@[0]@ == mac_text(mac@),
        from matches Some(f) ==> r.1@[1]@ == f@,
        to matches Some(t) ==> r.1@[r.1@.len() - 1]@ == t@,
{
    let mut sql = copy_str(
        "SELECT mac, snapshot_date, snapshot_timestamp, ips, hostname, vendor,\n                    dhcp_vendor_class, packet_count, bytes_sent, bytes_received,\n                    protocols, protocol_stats, first_seen, last_seen\n             FROM device_history WHERE mac = ?1",
    );
    let mut params: Vec<String> = Vec::new();
    params.push(mac.to_string());
    let ghost base = sql@;
    let mut index: u64 = 2;
    if let Some(f) = from {
        push_str(&mut sql, " AND snapshot_date >= ?");
        push_decimal(&mut sql, index);
        params.push(copy_str(f));
        index = 3;
    }
    let ghost after_from = sql@;
    if let Some(t) = to {
        push_str(&mut sql, " AND snapshot_date <= ?");
        push_decimal(&mut sql, index);
        params.push(copy_str(t));
    }
    let ghost after_to = sql@;
    push_str(&mut sql, " ORDER BY snapshot_date ASC");
    if let Some(l) = limit {
        push_str(&mut sql, " LIMIT ");
        push_decimal(&mut sql, l as u64);
    }
    proof {
        assert(sql@ =~= history_sql(from is Some, to is Some, limit));
    }
    (sql, params)
}

} // verus!
