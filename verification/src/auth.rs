//! API authentication: bearer tokens checked against SHA-256 hashes of a
//! read key and an optional admin key, the permission each request
//! needs, and per-address rate limiting of failed attempts.

use vstd::prelude::*;
use vstd::utf8::encode_utf8;

use crate::crypto::{ct_eq, hex_decodable, hex_decode, hex_value, sha256, sha256_digest};
use crate::text::{copy_str, is_prefix, starts_with, str_eq};
use crate::types::IpAddr;

use dashmap::DashMap;

verus! {

/// What a key allows.
#[derive(Debug, Clone, Copy, PartialEq, Eq, Structural)]
pub enum Permission {
    /// Read-only endpoints.
    Read,
    /// Every endpoint, including those that change state.
    Admin,
}

/// Why a request is refused.
#[derive(Debug, Clone, Copy, PartialEq, Eq, Structural)]
pub enum AuthError {
    MissingHeader,
    MalformedHeader,
    InvalidKey,
    InsufficientPermission,
    NoKeyConfigured,
    RateLimited,
}

impl AuthError {
    /// The HTTP status of the refusal: 401 for a missing, malformed or
    /// wrong key, 403 for too little permission, 429 when rate-limited,
    /// 500 when no key is configured.
    pub fn status_code(&self) -> (r: u16)
        ensures
            r == match *self {
                AuthError::MissingHeader | AuthError::MalformedHeader | AuthError::InvalidKey => 401u16,
                AuthError::InsufficientPermission => 403u16,
                AuthError::RateLimited => 429u16,
                AuthError::NoKeyConfigured => 500u16,
            },
    {
        match self {
            AuthError::MissingHeader | AuthError::MalformedHeader | AuthError::InvalidKey => 401,
            AuthError::InsufficientPermission => 403,
            AuthError::RateLimited => 429,
            AuthError::NoKeyConfigured => 500,
        }
    }

    /// The body of the refusal.
    pub fn response_body(&self) -> (r: String)
        ensures
            r@ == match *self {
                AuthError::RateLimited => "rate limit exceeded — too many failed attempts"@,
                AuthError::InsufficientPermission => "insufficient permission — admin key required"@,
                _ => "unauthorized"@,
            },
    {
        match self {
            AuthError::RateLimited => copy_str("rate limit exceeded — too many failed attempts"),
            AuthError::InsufficientPermission => copy_str("insufficient permission — admin key required"),
            _ => copy_str("unauthorized"),
        }
    }
}

/// The `[api.auth]` section of the configuration.
#[derive(Debug, Clone)]
pub struct ApiAuthConfig {
    /// SHA-256 of the read key, in hexadecimal.
    pub read_key_hash: String,
    /// SHA-256 of the admin key, in hexadecimal; without one the read
    /// key has every permission.
    pub admin_key_hash: Option<String>,
    /// Failed attempts from one address that block it; `0` disables
    /// rate limiting.
    pub max_failures: u32,
    /// The window in which failures count, in seconds.
    pub window_seconds: u64,
    /// How long a blocked address stays blocked, in seconds.
    pub block_seconds: u64,
}

/// The permission a request with this HTTP method needs: admin for
/// `POST`, `DELETE`, `PUT` and `PATCH`, read for any other.
pub open spec fn spec_required_permission(method: Seq<char>) -> Permission {
    if method == "POST"@ || method == "DELETE"@ || method == "PUT"@ || method == "PATCH"@ {
        Permission::Admin
    } else {
        Permission::Read
    }
}

/// The permission a request with this HTTP method needs.
pub fn required_permission(method: &str) -> (r: Permission)
    ensures
        r == spec_required_permission(method@),
{
    if str_eq(method, "POST") || str_eq(method, "DELETE") || str_eq(method, "PUT") || str_eq(method, "PATCH") {
        Permission::Admin
    } else {
        Permission::Read
    }
}

/// The token of an `Authorization` header: the text after `Bearer ` (or
/// `bearer `), which must not be empty.
pub open spec fn spec_bearer_token(header: Option<Seq<char>>) -> Result<Seq<char>, AuthError> {
    match header {
        None => Err(AuthError::MissingHeader),
        Some(h) => {
            let token = if is_prefix("Bearer "@, h) || is_prefix("bearer "@, h) {
                Some(h.subrange(7, h.len() as int))
            } else {
                None
            };
            match token {
                None => Err(AuthError::MalformedHeader),
                Some(t) => if t.len() == 0 {
                    Err(AuthError::MalformedHeader)
                } else {
                    Ok(t)
                },
            }
        },
    }
}

/// The plain form of an optional string slice.
pub open spec fn opt_str(o: Option<&str>) -> Option<Seq<char>> {
    match o {
        Some(s) => Some(s@),
        None => None,
    }
}

/// Extracts the bearer token of an `Authorization` header (see
/// [`spec_bearer_token`]).
pub fn extract_bearer_token(auth_header: Option<&str>) -> (r: Result<String, AuthError>)
    ensures
        match spec_bearer_token(opt_str(auth_header)) {
            Ok(t) => r matches Ok(s) && s@ == t,
            Err(e) => r == Err::<String, AuthError>(e),
        },
{
    let header = match auth_header {
        Some(h) => h,
        None => return Err(AuthError::MissingHeader),
    };
    proof {
        reveal_strlit("Bearer ");
        reveal_strlit("bearer ");
    }
    if starts_with(header, "Bearer ") || starts_with(header, "bearer ") {
        let n = header.unicode_len();
        if n == 7 {
            return Err(AuthError::MalformedHeader);
        }
        let token = header.substring_char(7, n);
        Ok(copy_str(token))
    } else {
        Err(AuthError::MalformedHeader)
    }
}

// ---------------------------------------------------------------- rate limiting

/// Failed attempts from one address: the times of recent failures and,
/// while blocked, when the block ends (milliseconds).
#[derive(Debug, Clone)]
pub struct FailureEntry {
    pub timestamps: Vec<u64>,
    pub blocked_until: Option<u64>,
}

/// The plain form of a [`FailureEntry`].
pub struct FailureView {
    pub timestamps: Seq<u64>,
    pub blocked_until: Option<u64>,
}

impl View for FailureEntry {
    type V = FailureView;

    open spec fn view(&self) -> FailureView {
        FailureView { timestamps: self.timestamps@, blocked_until: self.blocked_until }
    }
}

/// Milliseconds from `earlier` to `now`, zero if the clock went back.
pub open spec fn elapsed(now: u64, earlier: u64) -> u64 {
    if now >= earlier {
        (now - earlier) as u64
    } else {
        0
    }
}

/// The failure times of `ts` that are still inside the window at `now`.
pub open spec fn in_window(ts: Seq<u64>, now: u64, window_seconds: u64) -> Seq<u64>
    decreases ts.len(),
{
    if ts.len() == 0 {
        ts
    } else {
        let rest = in_window(ts.drop_last(), now, window_seconds);
        if elapsed(now, ts.last()) / 1000 < window_seconds {
            rest.push(ts.last())
        } else {
            rest
        }
    }
}

/// The failure record of an address after one more failure at `now`:
/// unchanged while blocked; otherwise the failures inside the window
/// plus this one, and once there are `max_failures` of them, no failures
/// and a block of `block_seconds` from `now` (saturating).
pub open spec fn after_failure(e: FailureView, now: u64, max_failures: u32, window_seconds: u64, block_seconds: u64) -> FailureView {
    if e.blocked_until matches Some(u) && now < u {
        e
    } else {
        let kept = in_window(e.timestamps, now, window_seconds).push(now);
        if kept.len() >= max_failures {
            FailureView {
                timestamps: Seq::empty(),
                blocked_until: Some(spec_block_end(now, block_seconds)),
            }
        } else {
            FailureView { timestamps: kept, blocked_until: None }
        }
    }
}

/// When a block of `block_seconds` starting at `now` ends, in
/// milliseconds, saturating at `u64::MAX`.
pub open spec fn spec_block_end(now: u64, block_seconds: u64) -> u64 {
    if now + block_seconds * 1000 > u64::MAX {
        u64::MAX
    } else {
        (now + block_seconds * 1000) as u64
    }
}

fn block_end(now: u64, block_seconds: u64) -> (r: u64)
    ensures
        r == spec_block_end(now, block_seconds),
{
    if block_seconds > (u64::MAX - now) / 1000 {
        assert(now + block_seconds * 1000 > u64::MAX) by (nonlinear_arith)
            requires
                block_seconds > (u64::MAX - now) / 1000,
        ;
        u64::MAX
    } else {
        assert(now + block_seconds * 1000 <= u64::MAX) by (nonlinear_arith)
            requires
                block_seconds <= (u64::MAX - now) / 1000,
        ;
        now + block_seconds * 1000
    }
}

/// The empty failure record.
pub open spec fn no_failures() -> FailureView {
    FailureView { timestamps: Seq::empty(), blocked_until: None }
}

/// The key an address is kept under: its family (4 or 6) and number.
pub open spec fn ip_key(ip: IpAddr) -> (u8, u128) {
    match ip {
        IpAddr::V4(n) => (4u8, n as u128),
        IpAddr::V6(n) => (6u8, n),
    }
}

fn key_of(ip: &IpAddr) -> (r: (u8, u128))
    ensures
        r == ip_key(*ip),
{
    match ip {
        IpAddr::V4(n) => (4u8, *n as u128),
        IpAddr::V6(n) => (6u8, *n),
    }
}

proof fn lemma_ip_key_injective(a: IpAddr, b: IpAddr)
    requires
        ip_key(a) == ip_key(b),
    ensures
        a == b,
{
}

/// The failure entries by address key that a rate limiter keeps.
pub type FailureMap = DashMap<(u8, u128), FailureEntry>;

/// The failure records a failure map holds, by key.
pub uninterp spec fn failure_map_contents(m: FailureMap) -> Map<(u8, u128), FailureView>;

/// No failures recorded.
pub open spec fn no_failure_records() -> Map<(u8, u128), FailureView> {
    Map::empty()
}

/// An empty map (`DashMap::new`).
#[verifier::external_body]
fn failure_map_new() -> (r: FailureMap)
    ensures
        failure_map_contents(r) == no_failure_records(),
{
    DashMap::new()
}

/// Stores `entry` under `key`, replacing any entry there
/// (`DashMap::insert`).
#[verifier::external_body]
fn failure_map_insert(m: &mut FailureMap, key: (u8, u128), entry: FailureEntry)
    ensures
        failure_map_contents(*final(m)) == failure_map_contents(*old(m)).insert(key, entry@),
{
    m.insert(key, entry);
}

/// A copy of the entry under `key` (`DashMap::get`, then the entry's
/// derived clone).
#[verifier::external_body]
fn failure_map_get(m: &FailureMap, key: (u8, u128)) -> (r: Option<FailureEntry>)
    ensures
        match r {
            Some(e) => failure_map_contents(*m).dom().contains(key) && e@ == failure_map_contents(*m)[key],
            None => !failure_map_contents(*m).dom().contains(key),
        },
{
    match m.get(&key) {
        Some(entry) => Some(entry.value().clone()),
        None => None,
    }
}

/// The failure records by address that a map of entries by key holds.
pub open spec fn records_of(c: Map<(u8, u128), FailureView>) -> Map<IpAddr, FailureView> {
    Map::new(|ip: IpAddr| c.dom().contains(ip_key(ip)), |ip: IpAddr| c[ip_key(ip)])
}

/// Per-address rate limiting of failed authentication attempts, the
/// failures kept in a `DashMap` by address.
#[derive(Debug)]
pub struct RateLimiter {
    max_failures: u32,
    window_seconds: u64,
    block_seconds: u64,
    failures: FailureMap,
    clock: std::time::Instant,
}

/// Whether an address is blocked at `now`.
pub open spec fn spec_is_blocked(max_failures: u32, records: Map<IpAddr, FailureView>, ip: IpAddr, now: u64) -> bool {
    max_failures != 0 && records.dom().contains(ip) && (records[ip].blocked_until matches Some(u) && now < u)
}

/// The records after a failure from `ip` at `now` (none kept when rate
/// limiting is off).
pub open spec fn records_after_failure(
    max_failures: u32,
    window_seconds: u64,
    block_seconds: u64,
    records: Map<IpAddr, FailureView>,
    ip: IpAddr,
    now: u64,
) -> Map<IpAddr, FailureView> {
    if max_failures == 0 {
        records
    } else {
        let e = if records.dom().contains(ip) {
            records[ip]
        } else {
            no_failures()
        };
        records.insert(ip, after_failure(e, now, max_failures, window_seconds, block_seconds))
    }
}

#[verifier::external_type_specification]
#[verifier::external_body]
pub struct ExInstant(std::time::Instant);

/// The current instant of the monotonic clock (`Instant::now`).
#[verifier::external_body]
fn instant_now() -> std::time::Instant {
    std::time::Instant::now()
}

/// Milliseconds elapsed on the monotonic clock since `start`
/// (`Instant::elapsed`, then `Duration::as_millis`), or `u64::MAX` when
/// that many do not fit.
#[verifier::external_body]
fn millis_since(start: &std::time::Instant) -> u64 {
    u64::try_from(start.elapsed().as_millis()).unwrap_or(u64::MAX)
}

impl RateLimiter {
    /// The failure records by address.
    pub closed spec fn records(&self) -> Map<IpAddr, FailureView> {
        records_of(failure_map_contents(self.failures))
    }

    /// The configured limit.
    pub closed spec fn limit(&self) -> (u32, u64, u64) {
        (self.max_failures, self.window_seconds, self.block_seconds)
    }

    /// A limiter with no failures recorded.
    pub fn new(max_failures: u32, window_seconds: u64, block_seconds: u64) -> (r: RateLimiter)
        ensures
            r.limit() == (max_failures, window_seconds, block_seconds),
            r.records() == Map::<IpAddr, FailureView>::empty(),
    {
        let r = RateLimiter { max_failures, window_seconds, block_seconds, failures: failure_map_new(), clock: instant_now() };
        assert(r.records() =~= Map::<IpAddr, FailureView>::empty());
        r
    }

    /// Whether `ip` is blocked at `now` (milliseconds).
    pub fn is_blocked_at(&self, ip: &IpAddr, now: u64) -> (r: bool)
        ensures
            r == spec_is_blocked(self.limit().0, self.records(), *ip, now),
    {
        if self.max_failures == 0 {
            return false;
        }
        match failure_map_get(&self.failures, key_of(ip)) {
            Some(e) => match e.blocked_until {
                Some(until) => now < until,
                None => false,
            },
            None => false,
        }
    }

    /// Whether `ip` is blocked now, by the monotonic clock (milliseconds
    /// since the limiter was made).
    pub fn is_blocked(&self, ip: &IpAddr) -> (r: bool)
        ensures
            exists|now: u64| r == spec_is_blocked(self.limit().0, self.records(), *ip, now),
    {
        let now = millis_since(&self.clock);
        let r = self.is_blocked_at(ip, now);
        assert(r == spec_is_blocked(self.limit().0, self.records(), *ip, now));
        r
    }

    /// Records a failed attempt from `ip` at `now` (milliseconds).
    pub fn record_failure_at(&mut self, ip: &IpAddr, now: u64)
        ensures
            final(self).limit() == old(self).limit(),
            final(self).records() == records_after_failure(
                old(self).limit().0,
                old(self).limit().1,
                old(self).limit().2,
                old(self).records(),
                *ip,
                now,
            ),
    {
        if self.max_failures == 0 {
            return;
        }
        let key = key_of(ip);
        let entry = match failure_map_get(&self.failures, key) {
            Some(e) => e,
            None => FailureEntry { timestamps: Vec::new(), blocked_until: None },
        };
        let updated = self.next_entry(entry, now);
        let ghost before = failure_map_contents(self.failures);
        let mut failures = failure_map_new();
        std::mem::swap(&mut failures, &mut self.failures);
        failure_map_insert(&mut failures, key, updated);
        self.failures = failures;
        proof {
            let target = records_after_failure(
                self.max_failures,
                self.window_seconds,
                self.block_seconds,
                records_of(before),
                *ip,
                now,
            );
            assert forall|k: IpAddr| #[trigger] self.records().dom().contains(k) == target.dom().contains(k) && (
            self.records().dom().contains(k) ==> self.records()[k] == target[k]) by {
                if ip_key(k) == key {
                    lemma_ip_key_injective(k, *ip);
                }
            }
            assert(self.records() =~= target);
        }
    }

    /// Records a failed attempt from `ip` now, by the monotonic clock
    /// (milliseconds since the limiter was made).
    pub fn record_failure(&mut self, ip: &IpAddr)
        ensures
            final(self).limit() == old(self).limit(),
            exists|now: u64| final(self).records() == records_after_failure(
                old(self).limit().0,
                old(self).limit().1,
                old(self).limit().2,
                old(self).records(),
                *ip,
                now,
            ),
    {
        let now = millis_since(&self.clock);
        self.record_failure_at(ip, now);
        assert(self.records() == records_after_failure(
            old(self).limit().0,
            old(self).limit().1,
            old(self).limit().2,
            old(self).records(),
            *ip,
            now,
        ));
    }

    fn next_entry(&self, entry: FailureEntry, now: u64) -> (r: FailureEntry)
        requires
            self.max_failures != 0,
        ensures
            r@ == after_failure(entry@, now, self.max_failures, self.window_seconds, self.block_seconds),
    {
        if let Some(until) = entry.blocked_until {
            if now < until {
                return entry;
            }
        }
        let mut kept: Vec<u64> = Vec::new();
        let mut i: usize = 0;
        while i < entry.timestamps.len()
            invariant
                i <= entry.timestamps@.len(),
                kept@ == in_window(entry.timestamps@.subrange(0, i as int), now, self.window_seconds),
            decreases entry.timestamps@.len() - i,
        {
            let t = entry.timestamps[i];
            let e: u64 = if now >= t {
                now - t
            } else {
                0
            };
            proof {
                assert(entry.timestamps@.subrange(0, i + 1).drop_last() == entry.timestamps@.subrange(0, i as int));
            }
            if e / 1000 < self.window_seconds {
                kept.push(t);
            }
            i = i + 1;
        }
        proof {
            assert(entry.timestamps@.subrange(0, i as int) == entry.timestamps@);
        }
        kept.push(now);
        if kept.len() as u64 >= self.max_failures as u64 {
            FailureEntry {
                timestamps: Vec::new(),
                blocked_until: Some(block_end(now, self.block_seconds)),
            }
        } else {
            FailureEntry { timestamps: kept, blocked_until: None }
        }
    }
}

/// A failure that brings the failures of an address inside the window
/// to `max_failures` blocks the address for `block_seconds`; a failure
/// short of that is counted; failures never affect other addresses.
pub proof fn law_failures_block(
    max_failures: u32,
    window_seconds: u64,
    block_seconds: u64,
    records: Map<IpAddr, FailureView>,
    ip: IpAddr,
    other: IpAddr,
    now: u64,
)
    requires
        max_failures > 0,
        block_seconds > 0,
        now < u64::MAX,
        !spec_is_blocked(max_failures, records, ip, now),
    ensures
        ({
            let e = if records.dom().contains(ip) {
                records[ip]
            } else {
                no_failures()
            };
            let after = records_after_failure(max_failures, window_seconds, block_seconds, records, ip, now);
            &&& in_window(e.timestamps, now, window_seconds).len() + 1 >= max_failures ==> spec_is_blocked(
                max_failures,
                after,
                ip,
                now,
            )
            &&& in_window(e.timestamps, now, window_seconds).len() + 1 < max_failures ==> !spec_is_blocked(
                max_failures,
                after,
                ip,
                now,
            ) && after[ip].timestamps == in_window(e.timestamps, now, window_seconds).push(now)
            &&& other != ip ==> spec_is_blocked(max_failures, after, other, now) == spec_is_blocked(
                max_failures,
                records,
                other,
                now,
            )
        }),
{
}

/// The failure records after failures from `ip` at each of `times`, in
/// order.
pub open spec fn after_failures(
    max_failures: u32,
    window_seconds: u64,
    block_seconds: u64,
    records: Map<IpAddr, FailureView>,
    ip: IpAddr,
    times: Seq<u64>,
) -> Map<IpAddr, FailureView>
    decreases times.len(),
{
    if times.len() == 0 {
        records
    } else {
        records_after_failure(
            max_failures,
            window_seconds,
            block_seconds,
            after_failures(max_failures, window_seconds, block_seconds, records, ip, times.drop_last()),
            ip,
            times.last(),
        )
    }
}

/// Whether `times` never go back and all lie inside one window.
pub open spec fn within_one_window(times: Seq<u64>, window_seconds: u64) -> bool {
    &&& times.len() > 0
    &&& forall|i: int, j: int| 0 <= i <= j < times.len() ==> times[i] <= times[j]
    &&& (times.last() - times[0]) / 1000 < window_seconds
}

proof fn lemma_all_in_window(ts: Seq<u64>, now: u64, window_seconds: u64, first: u64)
    requires
        forall|i: int| 0 <= i < ts.len() ==> first <= #[trigger] ts[i] <= now,
        (now - first) / 1000 < window_seconds,
    ensures
        in_window(ts, now, window_seconds) == ts,
    decreases ts.len(),
{
    if ts.len() > 0 {
        lemma_all_in_window(ts.drop_last(), now, window_seconds, first);
        let d = (now - ts.last()) as int;
        let e = (now - first) as int;
        assert(d / 1000 <= e / 1000) by (nonlinear_arith)
            requires
                0 <= d <= e,
        ;
        assert(ts.drop_last().push(ts.last()) =~= ts);
    }
}

proof fn lemma_failures_before_block(
    max_failures: u32,
    window_seconds: u64,
    block_seconds: u64,
    records: Map<IpAddr, FailureView>,
    ip: IpAddr,
    times: Seq<u64>,
    k: int,
)
    requires
        max_failures > 0,
        times.len() == max_failures,
        within_one_window(times, window_seconds),
        !records.dom().contains(ip),
        0 <= k < max_failures,
    ensures
        k == 0 ==> after_failures(max_failures, window_seconds, block_seconds, records, ip, times.subrange(0, k)) == records,
        k > 0 ==> after_failures(max_failures, window_seconds, block_seconds, records, ip, times.subrange(0, k))
            == records.insert(ip, FailureView { timestamps: times.subrange(0, k), blocked_until: None }),
    decreases k,
{
    if k > 0 {
        let prev = times.subrange(0, k - 1);
        assert(times.subrange(0, k).drop_last() =~= prev);
        lemma_failures_before_block(max_failures, window_seconds, block_seconds, records, ip, times, k - 1);
        let before = after_failures(max_failures, window_seconds, block_seconds, records, ip, prev);
        let e = if before.dom().contains(ip) {
            before[ip]
        } else {
            no_failures()
        };
        assert(e.timestamps =~= prev);
        assert(e.blocked_until is None);
        let now = times[k - 1];
        lemma_all_in_window(prev, now, window_seconds, times[0]);
        assert(in_window(e.timestamps, now, window_seconds).push(now) =~= times.subrange(0, k));
        assert(records.insert(ip, FailureView { timestamps: prev, blocked_until: None }).insert(
            ip,
            FailureView { timestamps: times.subrange(0, k), blocked_until: None },
        ) =~= records.insert(ip, FailureView { timestamps: times.subrange(0, k), blocked_until: None }));
    }
}

/// `max_failures` failures from an address that is not yet on record,
/// all inside one window, block it for the whole block period after the
/// last: every request from it in that period is refused as
/// rate-limited, whatever key it carries; the records of every other
/// address, and so its requests, are unaffected.
pub proof fn law_failures_sequence_block(
    hashes: (Option<Seq<u8>>, Option<Seq<u8>>),
    max_failures: u32,
    window_seconds: u64,
    block_seconds: u64,
    records: Map<IpAddr, FailureView>,
    ip: IpAddr,
    other: IpAddr,
    times: Seq<u64>,
    t: u64,
    method: Seq<char>,
    header: Option<Seq<char>>,
)
    requires
        max_failures > 0,
        hashes.0 is Some,
        !records.dom().contains(ip),
        times.len() == max_failures,
        within_one_window(times, window_seconds),
        times.last() <= t < spec_block_end(times.last(), block_seconds),
    ensures
        ({
            let after = after_failures(max_failures, window_seconds, block_seconds, records, ip, times);
            &&& spec_is_blocked(max_failures, after, ip, t)
            &&& spec_check(hashes, max_failures, after, method, header, Some(ip), t) == Err::<Permission, AuthError>(
                AuthError::RateLimited,
            )
            &&& other != ip ==> after.dom().contains(other) == records.dom().contains(other) && (records.dom().contains(
                other,
            ) ==> after[other] == records[other])
            &&& other != ip ==> spec_check(hashes, max_failures, after, method, header, Some(other), t) == spec_check(
                hashes,
                max_failures,
                records,
                method,
                header,
                Some(other),
                t,
            )
        }),
{
    let n = max_failures as int;
    lemma_failures_before_block(max_failures, window_seconds, block_seconds, records, ip, times, n - 1);
    assert(times.subrange(0, n - 1) =~= times.drop_last());
    let prev = times.drop_last();
    let before = after_failures(max_failures, window_seconds, block_seconds, records, ip, prev);
    let e = if before.dom().contains(ip) {
        before[ip]
    } else {
        no_failures()
    };
    assert(e.timestamps =~= prev);
    let now = times.last();
    lemma_all_in_window(prev, now, window_seconds, times[0]);
    assert(in_window(e.timestamps, now, window_seconds).push(now) =~= times);
    let after = after_failures(max_failures, window_seconds, block_seconds, records, ip, times);
    assert(after[ip].blocked_until == Some(spec_block_end(now, block_seconds)));
    if other != ip {
        assert(spec_is_blocked(max_failures, after, other, t) == spec_is_blocked(max_failures, records, other, t));
    }
}

/// With rate limiting off (`max_failures == 0`) no address is ever
/// blocked and failures are not recorded.
pub proof fn law_rate_limiting_off(window_seconds: u64, block_seconds: u64, records: Map<IpAddr, FailureView>, ip: IpAddr, now: u64)
    ensures
        !spec_is_blocked(0, records, ip, now),
        records_after_failure(0, window_seconds, block_seconds, records, ip, now) == records,
{
}

// ---------------------------------------------------------------- keys

/// The 32-byte key hash that hexadecimal text denotes, if it denotes one.
pub open spec fn key_hash_from_hex(text: Seq<u8>) -> Option<Seq<u8>> {
    if hex_decodable(text) && hex_value(text).len() == 32 {
        Some(hex_value(text))
    } else {
        None
    }
}

/// The plain form of an optional 32-byte hash.
pub open spec fn opt_hash(o: Option<[u8; 32]>) -> Option<Seq<u8>> {
    match o {
        Some(a) => Some(a@),
        None => None,
    }
}

/// The permission a token's digest grants, given the configured hashes:
/// without a read hash, `NoKeyConfigured`; the read key grants read (or
/// everything when there is no admin key); the admin key grants
/// everything; anything else is `InvalidKey`.
pub open spec fn spec_verify(read: Option<Seq<u8>>, admin: Option<Seq<u8>>, digest: Seq<u8>) -> Result<Permission, AuthError> {
    match read {
        None => Err(AuthError::NoKeyConfigured),
        Some(rh) => if digest == rh {
            Ok(
                if admin is None {
                    Permission::Admin
                } else {
                    Permission::Read
                },
            )
        } else if admin matches Some(ah) && digest == ah {
            Ok(Permission::Admin)
        } else {
            Err(AuthError::InvalidKey)
        },
    }
}

/// The authentication state of the API.
#[derive(Debug)]
pub struct AuthState {
    /// The read key's SHA-256 digest.
    pub read_key_hash: Option<[u8; 32]>,
    /// The admin key's SHA-256 digest.
    pub admin_key_hash: Option<[u8; 32]>,
    pub rate_limiter: RateLimiter,
}

fn decode_key_hash(text: &str) -> (r: Option<[u8; 32]>)
    ensures
        opt_hash(r) == key_hash_from_hex(encode_utf8(text@)),
{
    match hex_decode(text.as_bytes()) {
        Some(v) => {
            if v.len() != 32 {
                return None;
            }
            let mut a = [0u8; 32];
            let mut i: usize = 0;
            while i < 32
                invariant
                    i <= 32,
                    v@.len() == 32,
                    forall|j: int| 0 <= j < i ==> a@[j] == v@[j],
                decreases 32 - i,
            {
                a[i] = v[i];
                i = i + 1;
            }
            assert(a@ =~= v@);
            Some(a)
        },
        None => None,
    }
}

/// Whether the digest a token hashes to matches a configured hash.
fn hash_matches(digest: &[u8; 32], hash: &[u8; 32]) -> (r: bool)
    ensures
        r == (digest@ == hash@),
{
    ct_eq(digest.as_slice(), hash.as_slice())
}

impl AuthState {
    /// The configured read and admin key hashes.
    pub open spec fn hashes(&self) -> (Option<Seq<u8>>, Option<Seq<u8>>) {
        (opt_hash(self.read_key_hash), opt_hash(self.admin_key_hash))
    }

    /// The state for a configuration: each key hash decoded from
    /// hexadecimal (absent when it is not 32 bytes of hexadecimal), and
    /// the configured rate limit; without a configuration, no keys and
    /// no rate limiting.
    pub fn new(auth_config: Option<&ApiAuthConfig>) -> (r: AuthState)
        ensures
            match auth_config {
                Some(cfg) => {
                    &&& r.hashes().0 == key_hash_from_hex(encode_utf8(cfg.read_key_hash@))
                    &&& r.hashes().1 == match cfg.admin_key_hash {
                        Some(h) => key_hash_from_hex(encode_utf8(h@)),
                        None => None,
                    }
                    &&& r.rate_limiter.limit() == (cfg.max_failures, cfg.window_seconds, cfg.block_seconds)
                },
                None => r.hashes() == (None::<Seq<u8>>, None::<Seq<u8>>) && r.rate_limiter.limit() == (0u32, 0u64, 0u64),
            },
            r.rate_limiter.records() == Map::<IpAddr, FailureView>::empty(),
    {
        match auth_config {
            Some(cfg) => {
                let read_key_hash = decode_key_hash(cfg.read_key_hash.as_str());
                let admin_key_hash = match &cfg.admin_key_hash {
                    Some(h) => decode_key_hash(h.as_str()),
                    None => None,
                };
                AuthState {
                    read_key_hash,
                    admin_key_hash,
                    rate_limiter: RateLimiter::new(cfg.max_failures, cfg.window_seconds, cfg.block_seconds),
                }
            },
            None => AuthState { read_key_hash: None, admin_key_hash: None, rate_limiter: RateLimiter::new(0, 0, 0) },
        }
    }

    /// Whether authentication is on (a read key hash is configured).
    pub fn is_enabled(&self) -> (r: bool)
        ensures
            r == self.hashes().0 is Some,
    {
        self.read_key_hash.is_some()
    }

    /// The permission `token` grants (see [`spec_verify`]), comparing its
    /// SHA-256 digest with the configured hashes in constant time.
    pub fn verify_token(&self, token: &str) -> (r: Result<Permission, AuthError>)
        ensures
            r == spec_verify(self.hashes().0, self.hashes().1, sha256(encode_utf8(token@))),
    {
        let digest = sha256_digest(token.as_bytes());
        let read_hash = match &self.read_key_hash {
            Some(h) => h,
            None => return Err(AuthError::NoKeyConfigured),
        };
        if hash_matches(&digest, read_hash) {
            return Ok(
                if self.admin_key_hash.is_none() {
                    Permission::Admin
                } else {
                    Permission::Read
                },
            );
        }
        if let Some(admin_hash) = &self.admin_key_hash {
            if hash_matches(&digest, admin_hash) {
                return Ok(Permission::Admin);
            }
        }
        Err(AuthError::InvalidKey)
    }

    /// Decides a request at `now` (milliseconds): every request passes
    /// (as admin) when authentication is off; a blocked client address is
    /// `RateLimited`; then the header must carry a bearer token, the
    /// token must be a configured key (a wrong one counts as a failure of
    /// the client address), and a read key cannot make admin requests.
    pub fn check_at(&mut self, method: &str, path: &str, auth_header: Option<&str>, client_ip: Option<IpAddr>, now: u64) -> (r: Result<Permission, AuthError>)
        ensures
            final(self).hashes() == old(self).hashes(),
            final(self).rate_limiter.limit() == old(self).rate_limiter.limit(),
            r == spec_check(
                old(self).hashes(),
                old(self).rate_limiter.limit().0,
                old(self).rate_limiter.records(),
                method@,
                opt_str(auth_header),
                client_ip,
                now,
            ),
            final(self).rate_limiter.records() == match client_ip {
                Some(ip) => if spec_check_fails_key(
                    old(self).hashes(),
                    old(self).rate_limiter.limit().0,
                    old(self).rate_limiter.records(),
                    opt_str(auth_header),
                    ip,
                    now,
                ) {
                    records_after_failure(
                        old(self).rate_limiter.limit().0,
                        old(self).rate_limiter.limit().1,
                        old(self).rate_limiter.limit().2,
                        old(self).rate_limiter.records(),
                        ip,
                        now,
                    )
                } else {
                    old(self).rate_limiter.records()
                },
                None => old(self).rate_limiter.records(),
            },
    {
        let _ = path;
        if !self.is_enabled() {
            return Ok(Permission::Admin);
        }
        if let Some(ip) = &client_ip {
            if self.rate_limiter.is_blocked_at(ip, now) {
                return Err(AuthError::RateLimited);
            }
        }
        let required = required_permission(method);
        let token = match extract_bearer_token(auth_header) {
            Ok(t) => t,
            Err(e) => return Err(e),
        };
        let granted = match self.verify_token(token.as_str()) {
            Ok(p) => p,
            Err(e) => {
                if let Some(ip) = &client_ip {
                    self.rate_limiter.record_failure_at(ip, now);
                }
                return Err(e);
            },
        };
        if required == Permission::Admin && granted == Permission::Read {
            return Err(AuthError::InsufficientPermission);
        }
        Ok(granted)
    }

    /// Decides a request now, by the rate limiter's monotonic clock: the decision of
    /// [`AuthState::check_at`] at the instant read.
    pub fn check(&mut self, method: &str, path: &str, auth_header: Option<&str>, client_ip: Option<IpAddr>) -> (r: Result<Permission, AuthError>)
        ensures
            final(self).hashes() == old(self).hashes(),
            final(self).rate_limiter.limit() == old(self).rate_limiter.limit(),
            exists|now: u64|
                {
                    &&& r == spec_check(
                        old(self).hashes(),
                        old(self).rate_limiter.limit().0,
                        old(self).rate_limiter.records(),
                        method@,
                        opt_str(auth_header),
                        client_ip,
                        now,
                    )
                    &&& final(self).rate_limiter.records() == match client_ip {
                        Some(ip) => if spec_check_fails_key(
                            old(self).hashes(),
                            old(self).rate_limiter.limit().0,
                            old(self).rate_limiter.records(),
                            opt_str(auth_header),
                            ip,
                            now,
                        ) {
                            records_after_failure(
                                old(self).rate_limiter.limit().0,
                                old(self).rate_limiter.limit().1,
                                old(self).rate_limiter.limit().2,
                                old(self).rate_limiter.records(),
                                ip,
                                now,
                            )
                        } else {
                            old(self).rate_limiter.records()
                        },
                        None => old(self).rate_limiter.records(),
                    }
                },
    {
        let now = millis_since(&self.rate_limiter.clock);
        self.check_at(method, path, auth_header, client_ip, now)
    }
}

/// The decision on a request (see [`AuthState::check_at`]).
pub open spec fn spec_check(
    hashes: (Option<Seq<u8>>, Option<Seq<u8>>),
    max_failures: u32,
    records: Map<IpAddr, FailureView>,
    method: Seq<char>,
    header: Option<Seq<char>>,
    client_ip: Option<IpAddr>,
    now: u64,
) -> Result<Permission, AuthError> {
    if hashes.0 is None {
        Ok(Permission::Admin)
    } else if client_ip matches Some(ip) && spec_is_blocked(max_failures, records, ip, now) {
        Err(AuthError::RateLimited)
    } else {
        match spec_bearer_token(header) {
            Err(e) => Err(e),
            Ok(t) => match spec_verify(hashes.0, hashes.1, sha256(encode_utf8(t))) {
                Err(e) => Err(e),
                Ok(p) => if spec_required_permission(method) == Permission::Admin && p == Permission::Read {
                    Err(AuthError::InsufficientPermission)
                } else {
                    Ok(p)
                },
            },
        }
    }
}

/// Whether a request from `ip` fails on its key (and so counts as a
/// failure of that address).
pub open spec fn spec_check_fails_key(
    hashes: (Option<Seq<u8>>, Option<Seq<u8>>),
    max_failures: u32,
    records: Map<IpAddr, FailureView>,
    header: Option<Seq<char>>,
    ip: IpAddr,
    now: u64,
) -> bool {
    hashes.0 is Some && !spec_is_blocked(max_failures, records, ip, now) && match spec_bearer_token(header) {
        Err(_) => false,
        Ok(t) => spec_verify(hashes.0, hashes.1, sha256(encode_utf8(t))) is Err,
    }
}

/// With an admin key configured, the read key never passes an admin
/// request, while the admin key passes every request its key check
/// reaches.
pub proof fn law_permissions(read: Seq<u8>, admin: Seq<u8>, digest: Seq<u8>, method: Seq<char>)
    requires
        read != admin,
    ensures
        digest == read ==> spec_verify(Some(read), Some(admin), digest) == Ok::<Permission, AuthError>(Permission::Read),
        digest == admin ==> spec_verify(Some(read), Some(admin), digest) == Ok::<Permission, AuthError>(Permission::Admin),
        digest != read && digest != admin ==> spec_verify(Some(read), Some(admin), digest) == Err::<Permission, AuthError>(
            AuthError::InvalidKey,
        ),
        spec_verify(Some(read), None, read) == Ok::<Permission, AuthError>(Permission::Admin),
{
}

} // verus!
