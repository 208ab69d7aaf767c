//! The rule engine: rule conditions, per-device cooldowns, the
//! evaluation of a rule against a discovery event, alert messages, and
//! the conversion of configured rules.

use vstd::prelude::*;

use crate::alert::{Alert, AlertEventType, AlertView, EventTypeView, Severity, spec_severity_from_text, invalid_severity_text};
use crate::alert_store::{holds_acknowledged, next_after, law_acknowledged_after_acknowledge, lemma_insert_unacknowledged, AlertStore};
use crate::error::StorageError;
use crate::text::{contains_seq, lower_char, occurs_at, contains_str, copy_str, is_prefix, lower, push_str, starts_with, str_eq, to_ascii_lowercase};
use crate::types::{mac_text, Device, DeviceView, MacAddress};

verus! {

/// What the discovery pipeline reports about a device.
#[derive(Debug)]
pub enum DiscoveryEvent {
    /// A MAC address seen for the first time.
    DeviceDiscovered(Device),
    /// A known device changed (for example, a new protocol).
    DeviceUpdated(Device),
    /// A known device has gone silent.
    DeviceOffline(Device),
}

impl DiscoveryEvent {
    /// The device the event is about.
    pub fn device(&self) -> (r: &Device)
        ensures
            r == event_device(*self),
    {
        match self {
            DiscoveryEvent::DeviceDiscovered(d) => d,
            DiscoveryEvent::DeviceUpdated(d) => d,
            DiscoveryEvent::DeviceOffline(d) => d,
        }
    }
}

/// The device an event is about.
pub open spec fn event_device(e: DiscoveryEvent) -> Device {
    match e {
        DiscoveryEvent::DeviceDiscovered(d) => d,
        DiscoveryEvent::DeviceUpdated(d) => d,
        DiscoveryEvent::DeviceOffline(d) => d,
    }
}

/// The alert event type of a discovery event.
pub open spec fn event_kind(e: DiscoveryEvent) -> EventTypeView {
    match e {
        DiscoveryEvent::DeviceDiscovered(_) => EventTypeView::NewDevice,
        DiscoveryEvent::DeviceUpdated(_) => EventTypeView::ProtocolChange,
        DiscoveryEvent::DeviceOffline(_) => EventTypeView::DeviceOffline,
    }
}

/// The predicate that makes a rule fire.
#[derive(Debug, Clone)]
pub enum RuleCondition {
    /// Every new device.
    NewDevice,
    /// A new device whose vendor contains the text, ignoring ASCII case.
    NewDeviceByVendor(String),
    /// A new device whose MAC address (colon-separated) starts with the
    /// text, ignoring ASCII case.
    NewDeviceByMacPrefix(String),
    /// A known device silent for at least `after_seconds`.
    DeviceOffline { after_seconds: u64 },
    /// A device that began using a new protocol.
    ProtocolChange,
}

/// Whether a MAC address, written colon-separated, starts with `prefix`,
/// ignoring ASCII case.
pub open spec fn spec_mac_matches_prefix(mac: Seq<u8>, prefix: Seq<char>) -> bool {
    is_prefix(lower(prefix), lower(mac_text(mac)))
}

/// Whether a condition holds for an event.
pub open spec fn condition_matches(c: RuleCondition, e: DiscoveryEvent) -> bool {
    match c {
        RuleCondition::NewDevice => e is DeviceDiscovered,
        RuleCondition::NewDeviceByVendor(f) => e is DeviceDiscovered && match event_device(e).vendor {
            Some(v) => contains_seq(lower(v@), lower(f@)),
            None => false,
        },
        RuleCondition::NewDeviceByMacPrefix(p) => e is DeviceDiscovered && spec_mac_matches_prefix(
            event_device(e).mac@,
            p@,
        ),
        RuleCondition::DeviceOffline { .. } => e is DeviceOffline,
        RuleCondition::ProtocolChange => e is DeviceUpdated,
    }
}

/// Whether `f` occurs in `v` at position `i`, ignoring ASCII case.
pub open spec fn occurs_ignoring_case(v: Seq<char>, f: Seq<char>, i: int) -> bool {
    &&& 0 <= i
    &&& i + f.len() <= v.len()
    &&& forall|j: int| 0 <= j < f.len() ==> #[trigger] lower_char(v[i + j]) == lower_char(f[j])
}

/// A vendor rule matches a newly discovered device exactly when its
/// filter, ignoring ASCII case, occurs at some position of the device's
/// vendor: anywhere, not only at the start.
pub proof fn law_vendor_filter_anywhere(f: String, d: Device)
    ensures
        condition_matches(RuleCondition::NewDeviceByVendor(f), DiscoveryEvent::DeviceDiscovered(d)) <==> (d.vendor is Some
            && exists|i: int| #[trigger] occurs_ignoring_case(d.vendor.unwrap()@, f@, i)),
{
    if let Some(v) = d.vendor {
        let lv = lower(v@);
        let lf = lower(f@);
        if contains_seq(lv, lf) {
            let i = choose|i: int| occurs_at(lf, lv, i);
            assert forall|j: int| 0 <= j < f@.len() implies #[trigger] lower_char(v@[i + j]) == lower_char(f@[j]) by {
                assert(lv.subrange(i, i + lf.len())[j] == lf[j]);
            }
            assert(occurs_ignoring_case(v@, f@, i));
        }
        if exists|i: int| #[trigger] occurs_ignoring_case(v@, f@, i) {
            let i = choose|i: int| #[trigger] occurs_ignoring_case(v@, f@, i);
            assert(lv.subrange(i, i + lf.len()) =~= lf) by {
                assert forall|j: int| 0 <= j < lf.len() implies lv.subrange(i, i + lf.len())[j] == lf[j] by {
                    assert(lower_char(v@[i + j]) == lower_char(f@[j]));
                }
            }
            assert(occurs_at(lf, lv, i));
        }
    }
}

/// Text put in front of a vendor that a vendor rule matches keeps it
/// matching.
pub proof fn law_vendor_match_survives_prefix(f: String, d: Device, e: Device, x: Seq<char>)
    requires
        d.vendor is Some,
        e.vendor is Some,
        e.vendor.unwrap()@ == x + d.vendor.unwrap()@,
    ensures
        condition_matches(RuleCondition::NewDeviceByVendor(f), DiscoveryEvent::DeviceDiscovered(d)) ==> condition_matches(
            RuleCondition::NewDeviceByVendor(f),
            DiscoveryEvent::DeviceDiscovered(e),
        ),
{
    let v = d.vendor.unwrap()@;
    let w = e.vendor.unwrap()@;
    let lf = lower(f@);
    if contains_seq(lower(v), lf) {
        let i = choose|i: int| occurs_at(lf, lower(v), i);
        let k = i + x.len();
        assert(lower(w).subrange(k, k + lf.len()) =~= lower(v).subrange(i, i + lf.len())) by {
            assert forall|j: int| 0 <= j < lf.len() implies #[trigger] lower(w).subrange(k, k + lf.len())[j] == lower(v).subrange(
                i,
                i + lf.len(),
            )[j] by {
                assert(w[k + j] == v[i + j]);
            }
        }
        assert(occurs_at(lf, lower(w), k));
    }
}

/// Whether the colon-separated form of `mac` starts with `prefix`,
/// ignoring ASCII case.
pub fn mac_matches_prefix(mac: &MacAddress, prefix: &str) -> (r: bool)
    ensures
        r == spec_mac_matches_prefix(mac@, prefix@),
{
    let text = to_ascii_lowercase(mac.to_string().as_str());
    let p = to_ascii_lowercase(prefix);
    starts_with(text.as_str(), p.as_str())
}

// ---------------------------------------------------------------- cooldown

/// The last time (in milliseconds of a monotonic clock) a rule fired,
/// per device.
#[derive(Debug)]
pub struct CooldownTracker {
    entries: Vec<(MacAddress, u64)>,
}

/// No device twice.
pub open spec fn distinct_macs(s: Seq<(MacAddress, u64)>) -> bool {
    forall|i: int, j: int| 0 <= i < j < s.len() ==> s[i].0@ != s[j].0@
}

/// Whether some entry is for `mac`.
pub open spec fn tracks(s: Seq<(MacAddress, u64)>, mac: Seq<u8>) -> bool {
    exists|i: int| 0 <= i < s.len() && s[i].0@ == mac
}

/// The time recorded for `mac`.
pub open spec fn tracked_time(s: Seq<(MacAddress, u64)>, mac: Seq<u8>) -> u64 {
    s[choose|i: int| 0 <= i < s.len() && s[i].0@ == mac].1
}

/// The map from device to time that a list of entries describes.
pub open spec fn tracked_map(s: Seq<(MacAddress, u64)>) -> Map<Seq<u8>, u64> {
    Map::new(|m: Seq<u8>| tracks(s, m), |m: Seq<u8>| tracked_time(s, m))
}

proof fn lemma_tracked_at(s: Seq<(MacAddress, u64)>, k: int)
    requires
        distinct_macs(s),
        0 <= k < s.len(),
    ensures
        tracks(s, s[k].0@),
        tracked_time(s, s[k].0@) == s[k].1,
{
    let m = s[k].0@;
    assert(0 <= k < s.len() && s[k].0@ == m);
    let i = choose|i: int| 0 <= i < s.len() && s[i].0@ == m;
    if i != k {
        if i < k {
            assert(s[i].0@ != s[k].0@);
        } else {
            assert(s[k].0@ != s[i].0@);
        }
    }
}

impl View for CooldownTracker {
    type V = Map<Seq<u8>, u64>;

    closed spec fn view(&self) -> Map<Seq<u8>, u64> {
        tracked_map(self.entries@)
    }
}

impl CooldownTracker {
    #[verifier::type_invariant]
    spec fn wf(&self) -> bool {
        distinct_macs(self.entries@)
    }

    /// Nothing recorded.
    pub fn new() -> (r: CooldownTracker)
        ensures
            r@ == Map::<Seq<u8>, u64>::empty(),
    {
        let r = CooldownTracker { entries: Vec::new() };
        assert(r@ =~= Map::<Seq<u8>, u64>::empty());
        r
    }

    /// The time recorded for `mac`, if any.
    pub fn get(&self, mac: &MacAddress) -> (r: Option<u64>)
        ensures
            r == (if self@.dom().contains(mac@) {
                Some(self@[mac@])
            } else {
                None
            }),
    {
        proof {
            use_type_invariant(self);
        }
        let mut i: usize = 0;
        while i < self.entries.len()
            invariant
                i <= self.entries@.len(),
                distinct_macs(self.entries@),
                forall|j: int| 0 <= j < i ==> self.entries@[j].0@ != mac@,
            decreases self.entries@.len() - i,
        {
            if self.entries[i].0.same(mac) {
                proof {
                    lemma_tracked_at(self.entries@, i as int);
                }
                return Some(self.entries[i].1);
            }
            i = i + 1;
        }
        None
    }

    /// Records `time` for `mac`.
    pub fn set(&mut self, mac: MacAddress, time: u64)
        ensures
            final(self)@ == old(self)@.insert(mac@, time),
    {
        proof {
            use_type_invariant(&*self);
        }
        let ghost old_entries = self.entries@;
        let mut i: usize = 0;
        while i < self.entries.len()
            invariant
                i <= self.entries@.len(),
                self.entries@ == old_entries,
                forall|j: int| 0 <= j < i ==> self.entries@[j].0@ != mac@,
            ensures
                i <= self.entries@.len(),
                self.entries@ == old_entries,
                forall|j: int| 0 <= j < i ==> self.entries@[j].0@ != mac@,
                i < self.entries@.len() ==> self.entries@[i as int].0@ == mac@,
            decreases self.entries@.len() - i,
        {
            if self.entries[i].0.same(&mac) {
                break;
            }
            i = i + 1;
        }
        let mut entries: Vec<(MacAddress, u64)> = Vec::new();
        std::mem::swap(&mut entries, &mut self.entries);
        if i < entries.len() {
            entries.set(i, (mac, time));
        } else {
            entries.push((mac, time));
        }
        proof {
            let t = entries@;
            assert forall|a: int, b: int| 0 <= a < b < t.len() implies t[a].0@ != t[b].0@ by {
                if a != i && b != i {
                    assert(t[a] == old_entries[a] && t[b] == old_entries[b]);
                } else if a == i {
                    assert(t[b] == old_entries[b]);
                    if i < old_entries.len() {
                        assert(old_entries[i as int].0@ == mac@);
                    }
                } else {
                    assert(t[a] == old_entries[a]);
                }
            }
            assert forall|m: Seq<u8>| #[trigger] tracked_map(t).dom().contains(m) == tracked_map(old_entries).insert(mac@, time).dom().contains(m)
                && (tracked_map(t).dom().contains(m) ==> tracked_map(t)[m] == tracked_map(old_entries).insert(mac@, time)[m]) by {
                if m == mac@ {
                    lemma_tracked_at(t, i as int);
                } else {
                    if tracks(t, m) {
                        let k = choose|k: int| 0 <= k < t.len() && t[k].0@ == m;
                        lemma_tracked_at(t, k);
                        assert(k != i);
                        lemma_tracked_at(old_entries, k);
                    }
                    if tracks(old_entries, m) {
                        let k = choose|k: int| 0 <= k < old_entries.len() && old_entries[k].0@ == m;
                        if i < old_entries.len() {
                            assert(k != i);
                        }
                        assert(t[k] == old_entries[k]);
                    }
                }
            }
            assert(tracked_map(t).dom() =~= tracked_map(old_entries).insert(mac@, time).dom());
            assert(tracked_map(t) =~= tracked_map(old_entries).insert(mac@, time));
        }
        self.entries = entries;
    }
}

// ---------------------------------------------------------------- rules

/// A configured rule with its cooldown state.
#[derive(Debug)]
pub struct Rule {
    /// Name, used in alerts and logs.
    pub name: String,
    /// Disabled rules never fire.
    pub enabled: bool,
    pub condition: RuleCondition,
    /// Severity of the alerts the rule raises.
    pub severity: Severity,
    /// Minimum seconds between two alerts for one device; `0` for none.
    pub cooldown_seconds: u64,
    /// When the rule last fired, per device.
    pub last_fired: CooldownTracker,
}

/// Whether a rule with cooldown `cooldown_seconds`, last fired for a
/// device at `last` (if ever), may fire for it at `now` (milliseconds of
/// a monotonic clock; a clock that went back counts as no time passed).
pub open spec fn cooldown_allows(cooldown_seconds: u64, last: Option<u64>, now: u64) -> bool {
    cooldown_seconds == 0 || match last {
        None => true,
        Some(t) => (if now >= t {
            now - t
        } else {
            0
        }) / 1000 >= cooldown_seconds,
    }
}

/// The cooldown state after asking whether a rule may fire for `mac`.
pub open spec fn cooldown_after(cooldown_seconds: u64, fired: Map<Seq<u8>, u64>, mac: Seq<u8>, now: u64) -> Map<Seq<u8>, u64> {
    if cooldown_seconds != 0 && cooldown_allows(
        cooldown_seconds,
        if fired.dom().contains(mac) {
            Some(fired[mac])
        } else {
            None
        },
        now,
    ) {
        fired.insert(mac, now)
    } else {
        fired
    }
}

/// Whether a rule may fire for `mac` given what it recorded.
pub open spec fn rule_allows(cooldown_seconds: u64, fired: Map<Seq<u8>, u64>, mac: Seq<u8>, now: u64) -> bool {
    cooldown_allows(
        cooldown_seconds,
        if fired.dom().contains(mac) {
            Some(fired[mac])
        } else {
            None
        },
        now,
    )
}

impl Rule {
    /// A rule that has never fired.
    pub fn new(name: String, enabled: bool, condition: RuleCondition, severity: Severity, cooldown_seconds: u64) -> (r: Rule)
        ensures
            r.name == name,
            r.enabled == enabled,
            r.condition == condition,
            r.severity == severity,
            r.cooldown_seconds == cooldown_seconds,
            r.last_fired@ == Map::<Seq<u8>, u64>::empty(),
    {
        Rule { name, enabled, condition, severity, cooldown_seconds, last_fired: CooldownTracker::new() }
    }

    /// Whether the rule may fire for `mac` at `now`; when it may (and
    /// has a cooldown), records `now` as the time it fired.
    pub fn check_and_record_cooldown(&mut self, mac: MacAddress, now: u64) -> (r: bool)
        ensures
            r == rule_allows(old(self).cooldown_seconds, old(self).last_fired@, mac@, now),
            final(self).last_fired@ == cooldown_after(old(self).cooldown_seconds, old(self).last_fired@, mac@, now),
            final(self).name == old(self).name,
            final(self).enabled == old(self).enabled,
            final(self).condition == old(self).condition,
            final(self).severity == old(self).severity,
            final(self).cooldown_seconds == old(self).cooldown_seconds,
    {
        if self.cooldown_seconds == 0 {
            return true;
        }
        if let Some(last) = self.last_fired.get(&mac) {
            let elapsed: u64 = if now >= last {
                now - last
            } else {
                0
            };
            if elapsed / 1000 < self.cooldown_seconds {
                return false;
            }
        }
        self.last_fired.set(mac, now);
        true
    }
}

/// Once a rule with a cooldown has fired for a device, it does not fire
/// again for that device before the cooldown has elapsed, and it may
/// fire again once it has.
pub proof fn law_cooldown(cooldown_seconds: u64, fired: Map<Seq<u8>, u64>, mac: Seq<u8>, t: u64, later: u64)
    requires
        cooldown_seconds > 0,
        rule_allows(cooldown_seconds, fired, mac, t),
        t <= later,
    ensures
        (later - t) / 1000 < cooldown_seconds ==> !rule_allows(
            cooldown_seconds,
            cooldown_after(cooldown_seconds, fired, mac, t),
            mac,
            later,
        ),
        (later - t) / 1000 >= cooldown_seconds ==> rule_allows(
            cooldown_seconds,
            cooldown_after(cooldown_seconds, fired, mac, t),
            mac,
            later,
        ),
{
}

/// The cooldown of one device does not affect another, and a rule
/// without a cooldown always may fire and records nothing.
pub proof fn law_cooldown_per_device(cooldown_seconds: u64, fired: Map<Seq<u8>, u64>, mac: Seq<u8>, other: Seq<u8>, t: u64, later: u64)
    requires
        other != mac,
    ensures
        rule_allows(cooldown_seconds, cooldown_after(cooldown_seconds, fired, mac, t), other, later) == rule_allows(
            cooldown_seconds,
            fired,
            other,
            later,
        ),
        rule_allows(0, fired, mac, t),
        cooldown_after(0, fired, mac, t) == fired,
{
}

/// The name an alert message uses for a device: its hostname, else its
/// vendor, else its MAC address.
pub open spec fn device_label(d: DeviceView) -> Seq<char> {
    match d.hostname {
        Some(h) => h,
        None => match d.vendor {
            Some(v) => v,
            None => mac_text(d.mac),
        },
    }
}

/// The message of an alert about device `d`.
pub open spec fn message_text(d: DeviceView, e: EventTypeView) -> Seq<char> {
    let tail = device_label(d) + " ("@ + mac_text(d.mac) + ")"@;
    match e {
        EventTypeView::NewDevice => "New device discovered: "@ + tail,
        EventTypeView::DeviceOffline => "Device offline: "@ + tail,
        EventTypeView::ProtocolChange => "Protocol change for "@ + tail,
        EventTypeView::Custom(s) => s + ": "@ + tail,
    }
}

/// Builds the message of an alert about `device` (see [`message_text`]).
pub fn build_message(rule_name: &str, device: &Device, event_type: &AlertEventType) -> (r: String)
    ensures
        r@ == message_text(device@, event_type@),
{
    let _ = rule_name;
    let label = match &device.hostname {
        Some(h) => copy_str(h.as_str()),
        None => match &device.vendor {
            Some(v) => copy_str(v.as_str()),
            None => device.mac.to_string(),
        },
    };
    let mut s = match event_type {
        AlertEventType::NewDevice => copy_str("New device discovered: "),
        AlertEventType::DeviceOffline => copy_str("Device offline: "),
        AlertEventType::ProtocolChange => copy_str("Protocol change for "),
        AlertEventType::Custom(c) => {
            let mut t = copy_str(c.as_str());
            push_str(&mut t, ": ");
            t
        },
    };
    push_str(&mut s, label.as_str());
    push_str(&mut s, " (");
    push_str(&mut s, device.mac.to_string().as_str());
    push_str(&mut s, ")");
    assert(s@ =~= message_text(device@, event_type@));
    s
}

fn condition_holds(condition: &RuleCondition, event: &DiscoveryEvent) -> (r: bool)
    ensures
        r == condition_matches(*condition, *event),
{
    let discovered = match event {
        DiscoveryEvent::DeviceDiscovered(_) => true,
        _ => false,
    };
    match condition {
        RuleCondition::NewDevice => discovered,
        RuleCondition::NewDeviceByVendor(filter) => {
            if !discovered {
                return false;
            }
            match &event.device().vendor {
                Some(v) => {
                    let lv = to_ascii_lowercase(v.as_str());
                    let lf = to_ascii_lowercase(filter.as_str());
                    contains_str(lv.as_str(), lf.as_str())
                },
                None => false,
            }
        },
        RuleCondition::NewDeviceByMacPrefix(prefix) => discovered && mac_matches_prefix(&event.device().mac, prefix.as_str()),
        RuleCondition::DeviceOffline { .. } => match event {
            DiscoveryEvent::DeviceOffline(_) => true,
            _ => false,
        },
        RuleCondition::ProtocolChange => match event {
            DiscoveryEvent::DeviceUpdated(_) => true,
            _ => false,
        },
    }
}

fn event_type_of(event: &DiscoveryEvent) -> (r: AlertEventType)
    ensures
        r@ == event_kind(*event),
{
    match event {
        DiscoveryEvent::DeviceDiscovered(_) => AlertEventType::NewDevice,
        DiscoveryEvent::DeviceUpdated(_) => AlertEventType::ProtocolChange,
        DiscoveryEvent::DeviceOffline(_) => AlertEventType::DeviceOffline,
    }
}

/// What evaluating a rule gives once the store has answered: the error
/// of the acknowledgement query as it came; nothing when an
/// acknowledged alert of the rule for the device is stored; otherwise
/// the raised alert, carrying the identifier storing it returned (its
/// own, 0, when storing failed).
pub open spec fn outcome_of(
    acknowledged: Result<bool, StorageError>,
    alert: Alert,
    stored: Option<Result<u64, StorageError>>,
) -> Result<Option<Alert>, StorageError> {
    match acknowledged {
        Err(e) => Err(e),
        Ok(true) => Ok(None),
        Ok(false) => Ok(
            Some(
                match stored {
                    Some(Ok(id)) => Alert { id, ..alert },
                    _ => alert,
                },
            ),
        ),
    }
}

/// The result of evaluating a rule from the store's answers (see
/// [`outcome_of`]).
pub fn rule_outcome(
    acknowledged: Result<bool, StorageError>,
    alert: Alert,
    stored: Option<Result<u64, StorageError>>,
) -> (r: Result<Option<Alert>, StorageError>)
    ensures
        r == outcome_of(acknowledged, alert, stored),
{
    match acknowledged {
        Err(e) => Err(e),
        Ok(true) => Ok(None),
        Ok(false) => {
            let mut alert = alert;
            match stored {
                Some(Ok(id)) => {
                    alert.id = id;
                },
                _ => {},
            }
            Ok(Some(alert))
        },
    }
}

/// Whether the store's answers while evaluating `rule` for `event` are
/// consistent with what it held: the acknowledgement query, when it
/// answers, says whether an acknowledged alert of the rule for the
/// device is stored; `alert` is the alert the rule raises, before
/// storing; storing is asked exactly when no acknowledged alert is
/// stored, and when it succeeds the alert is stored under the new
/// identifier it returned; otherwise the store is unchanged.
pub open spec fn store_answered(
    before: Map<u64, AlertView>,
    after: Map<u64, AlertView>,
    rule: Rule,
    event: DiscoveryEvent,
    acknowledged: Result<bool, StorageError>,
    alert: Alert,
    stored: Option<Result<u64, StorageError>>,
) -> bool {
    &&& (acknowledged matches Ok(b) ==> b == holds_acknowledged(before, rule.name@, event_device(event).mac@))
    &&& raised_by(alert, rule, event)
    &&& alert.id == 0
    &&& (stored is Some <==> acknowledged == Ok::<bool, StorageError>(false))
    &&& match stored {
        Some(Ok(id)) => !before.dom().contains(id) && after == before.insert(id, AlertView { id, ..alert@ }),
        _ => after == before,
    }
}

/// Whether evaluating a rule for an event at `now` asks the store: its
/// condition holds and its cooldown allows it.
pub open spec fn asks_store(rule: Rule, event: DiscoveryEvent, now: u64) -> bool {
    &&& condition_matches(rule.condition, event)
    &&& rule_allows(rule.cooldown_seconds, rule.last_fired@, event_device(event).mac@, now)
}

/// Evaluates one rule against an event at `now` (milliseconds of a
/// monotonic clock). When the condition holds and the cooldown allows
/// it, the store is asked whether an acknowledged alert of this rule for
/// this device is stored; when none is, an alert is raised, stored, and
/// returned carrying the identifier the store gave it (0 when storing
/// failed). The store's answers are turned into the result by
/// [`rule_outcome`]: a failure of the acknowledgement query is returned
/// as it came, and only then is the result an error. The store changes
/// only by the one alert stored.
pub fn evaluate_rule<S: AlertStore>(rule: &mut Rule, event: &DiscoveryEvent, store: &mut S, now: u64) -> (r: Result<Option<Alert>, StorageError>)
    ensures
        !condition_matches(old(rule).condition, *event) ==> (r matches Ok(None)) && final(rule).last_fired@ == old(
            rule,
        ).last_fired@,
        condition_matches(old(rule).condition, *event) ==> final(rule).last_fired@ == cooldown_after(
            old(rule).cooldown_seconds,
            old(rule).last_fired@,
            event_device(*event).mac@,
            now,
        ),
        !asks_store(*old(rule), *event, now) ==> (r matches Ok(None)) && final(store).alerts() == old(store).alerts(),
        r is Err ==> asks_store(*old(rule), *event, now) && final(store).alerts() == old(store).alerts(),
        r matches Ok(None) ==> final(store).alerts() == old(store).alerts() && (asks_store(*old(rule), *event, now)
            ==> holds_acknowledged(old(store).alerts(), old(rule).name@, event_device(*event).mac@)),
        r matches Ok(Some(a)) ==> {
            &&& asks_store(*old(rule), *event, now)
            &&& !holds_acknowledged(old(store).alerts(), old(rule).name@, event_device(*event).mac@)
            &&& a.rule_name@ == old(rule).name@
            &&& a.severity == old(rule).severity
            &&& a.event_type@ == event_kind(*event)
            &&& a.mac@ == event_device(*event).mac@
            &&& a.message@ == message_text(event_device(*event)@, event_kind(*event))
            &&& a.device_snapshot@ == event_device(*event)@
            &&& !a.acknowledged
            &&& ((!old(store).alerts().dom().contains(a.id) && final(store).alerts() == old(store).alerts().insert(a.id, a@))
                || (a.id == 0 && final(store).alerts() == old(store).alerts()))
        },
        asks_store(*old(rule), *event, now) ==> exists|
            acknowledged: Result<bool, StorageError>,
            alert: Alert,
            stored: Option<Result<u64, StorageError>>,
        |
            #[trigger] store_answered(
                old(store).alerts(),
                final(store).alerts(),
                *old(rule),
                *event,
                acknowledged,
                alert,
                stored,
            ) && r == outcome_of(acknowledged, alert, stored),
        asks_store(*old(rule), *event, now) && r is Ok ==> (r matches Ok(Some(_)) <==> !holds_acknowledged(
            old(store).alerts(),
            old(rule).name@,
            event_device(*event).mac@,
        )),
        old(store).answers() ==> r is Ok,
        final(store).answers() == old(store).answers(),
        old(store).next_alert_id() matches Some(n) ==> (r matches Ok(Some(a)) ==> a.id == n && final(store).next_alert_id()
            == next_after(n)),
        !(r matches Ok(Some(_))) ==> final(store).next_alert_id() == old(store).next_alert_id(),
        old(store).next_alert_id() is None ==> final(store).next_alert_id() is None,
        final(rule).name == old(rule).name,
        final(rule).enabled == old(rule).enabled,
        final(rule).condition == old(rule).condition,
        final(rule).severity == old(rule).severity,
        final(rule).cooldown_seconds == old(rule).cooldown_seconds,
{
    if !condition_holds(&rule.condition, event) {
        return Ok(None);
    }
    let device = event.device();
    if !rule.check_and_record_cooldown(device.mac, now) {
        return Ok(None);
    }
    let acknowledged = store.is_acknowledged(rule.name.as_str(), &device.mac);
    let event_type = event_type_of(event);
    let message = build_message(rule.name.as_str(), device, &event_type);
    let alert = Alert::new(rule.name.clone(), rule.severity, event_type, device.clone(), message);
    let unacknowledged = match &acknowledged {
        Ok(b) => !*b,
        Err(_) => false,
    };
    let stored = if unacknowledged {
        Some(store.insert_alert(&alert))
    } else {
        None
    };
    let ghost answers = (acknowledged, alert, stored);
    let r = rule_outcome(acknowledged, alert, stored);
    proof {
        assert(store_answered(old(store).alerts(), store.alerts(), *old(rule), *event, answers.0, answers.1, answers.2));
    }
    r
}

/// Whether two rules have the same configuration (cooldown state aside).
pub open spec fn same_configuration(a: Rule, b: Rule) -> bool {
    &&& a.name == b.name
    &&& a.enabled == b.enabled
    &&& a.condition == b.condition
    &&& a.severity == b.severity
    &&& a.cooldown_seconds == b.cooldown_seconds
}

/// Whether a rule raises an alert for an event at `now`, given the
/// stored alerts: it is enabled, its condition holds, its cooldown
/// allows it, and no acknowledged alert of the rule for the device is
/// stored.
pub open spec fn fires(rule: Rule, event: DiscoveryEvent, alerts: Map<u64, AlertView>, now: u64) -> bool {
    &&& rule.enabled
    &&& condition_matches(rule.condition, event)
    &&& rule_allows(rule.cooldown_seconds, rule.last_fired@, event_device(event).mac@, now)
    &&& !holds_acknowledged(alerts, rule.name@, event_device(event).mac@)
}

/// The rules that raise an alert for an event, in order.
pub open spec fn firing_rules(rules: Seq<Rule>, event: DiscoveryEvent, alerts: Map<u64, AlertView>, now: u64) -> Seq<Rule>
    decreases rules.len(),
{
    if rules.len() == 0 {
        rules
    } else if fires(rules.last(), event, alerts, now) {
        firing_rules(rules.drop_last(), event, alerts, now).push(rules.last())
    } else {
        firing_rules(rules.drop_last(), event, alerts, now)
    }
}

/// Whether `a` is the alert `rule` raises for `event`.
pub open spec fn raised_by(a: Alert, rule: Rule, event: DiscoveryEvent) -> bool {
    &&& a.rule_name@ == rule.name@
    &&& a.severity == rule.severity
    &&& a.event_type@ == event_kind(event)
    &&& a.mac@ == event_device(event).mac@
    &&& a.message@ == message_text(event_device(event)@, event_kind(event))
    &&& a.device_snapshot@ == event_device(event)@
    &&& !a.acknowledged
}

/// The cooldown state of a rule after an event at `now`: recorded for
/// an enabled rule whose condition holds, unchanged otherwise.
pub open spec fn last_fired_after(rule: Rule, event: DiscoveryEvent, now: u64) -> Map<Seq<u8>, u64> {
    if rule.enabled && condition_matches(rule.condition, event) {
        cooldown_after(rule.cooldown_seconds, rule.last_fired@, event_device(event).mac@, now)
    } else {
        rule.last_fired@
    }
}

/// Whether evaluating `rule` for `event` at `now` consults the store:
/// the rule is enabled, its condition holds and its cooldown allows it.
pub open spec fn reaches_store(rule: Rule, event: DiscoveryEvent, now: u64) -> bool {
    &&& rule.enabled
    &&& asks_store(rule, event, now)
}

/// Whether the stored alerts `after` are the alerts `before` with only
/// new, unacknowledged alerts added.
pub open spec fn only_new_alerts(before: Map<u64, AlertView>, after: Map<u64, AlertView>) -> bool {
    &&& forall|id: u64| #[trigger] before.dom().contains(id) ==> after.dom().contains(id) && after[id] == before[id]
    &&& forall|id: u64| #[trigger] after.dom().contains(id) && !before.dom().contains(id) ==> !after[id].acknowledged
}

/// Whether the alerts `added` to `before` to give `after` are exactly
/// those of `raised` that were stored: each raised alert is stored
/// under its identifier (or carries 0, storing having failed), and every
/// new stored alert is one of them.
pub open spec fn stores_raised(before: Map<u64, AlertView>, after: Map<u64, AlertView>, raised: Seq<Alert>) -> bool {
    &&& forall|k: int| 0 <= k < raised.len() ==> (after.dom().contains(#[trigger] raised[k].id) && after[raised[k].id]
        == raised[k]@) || raised[k].id == 0
    &&& forall|id: u64| #[trigger] after.dom().contains(id) && !before.dom().contains(id) ==> exists|k: int|
        0 <= k < raised.len() && #[trigger] raised[k].id == id && after[id] == raised[k]@
}

/// Evaluates every enabled rule, in order, against an event at `now`,
/// and returns the alerts raised: one per firing rule (see [`fires`]),
/// in the order of the rules, each stored and carrying the identifier
/// the store gave it (0 when storing failed). The first failure of the
/// store stops the evaluation and is returned; so an error comes only
/// where some rule reaches the store (see [`reaches_store`]). The store
/// only gains the alerts raised.
pub fn process_event<S: AlertStore>(rules: &mut Vec<Rule>, event: &DiscoveryEvent, store: &mut S, now: u64) -> (r: Result<Vec<Alert>, StorageError>)
    ensures
        final(rules)@.len() == old(rules)@.len(),
        forall|i: int| 0 <= i < old(rules)@.len() ==> same_configuration(#[trigger] final(rules)@[i], old(rules)@[i]),
        forall|i: int| 0 <= i < old(rules)@.len() && !old(rules)@[i].enabled ==> (#[trigger] final(rules)@[i]).last_fired@
            == old(rules)@[i].last_fired@,
        r is Ok ==> forall|i: int| 0 <= i < old(rules)@.len() ==> (#[trigger] final(rules)@[i]).last_fired@
            == last_fired_after(old(rules)@[i], *event, now),
        r matches Ok(alerts) ==> alerts@.len() == firing_rules(old(rules)@, *event, old(store).alerts(), now).len()
            && forall|k: int| 0 <= k < alerts@.len() ==> raised_by(
            #[trigger] alerts@[k],
            firing_rules(old(rules)@, *event, old(store).alerts(), now)[k],
            *event,
        ),
        r is Err ==> exists|i: int| 0 <= i < old(rules)@.len() && #[trigger] reaches_store(old(rules)@[i], *event, now),
        only_new_alerts(old(store).alerts(), final(store).alerts()),
        r matches Ok(alerts) ==> stores_raised(old(store).alerts(), final(store).alerts(), alerts@),
        r matches Ok(alerts) && alerts@.len() == 0 ==> final(store).alerts() == old(store).alerts(),
        forall|rule_name: Seq<char>, mac: Seq<u8>| #[trigger] holds_acknowledged(final(store).alerts(), rule_name, mac)
            == holds_acknowledged(old(store).alerts(), rule_name, mac),
        old(store).answers() ==> r is Ok,
        old(store).next_alert_id() matches Some(n) ==> (r matches Ok(alerts) ==> (n + alerts@.len() < u64::MAX ==> forall|
            k: int,
        | 0 <= k < alerts@.len() ==> (#[trigger] alerts@[k]).id == n + k)),
{
    let mut pending: Vec<Rule> = Vec::new();
    std::mem::swap(&mut pending, rules);
    let ghost original = pending@;
    let ghost initial = store.alerts();
    let ghost answering = store.answers();
    let ghost first_id = store.next_alert_id();
    let mut alerts: Vec<Alert> = Vec::new();
    let mut failure: Option<StorageError> = None;
    let n = pending.len();
    let mut i: usize = 0;
    while i < n
        invariant
            i <= n,
            n == original.len(),
            pending@.len() == n - i,
            rules@.len() == i,
            pending@ == original.subrange(i as int, n as int),
            forall|j: int| 0 <= j < i ==> same_configuration(#[trigger] rules@[j], original[j]),
            forall|j: int| 0 <= j < i && !original[j].enabled ==> (#[trigger] rules@[j]).last_fired@ == original[j].last_fired@,
            failure is None ==> forall|j: int| 0 <= j < i ==> (#[trigger] rules@[j]).last_fired@ == last_fired_after(
                original[j],
                *event,
                now,
            ),
            failure is None ==> alerts@.len() == firing_rules(original.subrange(0, i as int), *event, initial, now).len(),
            failure is None ==> forall|k: int| 0 <= k < alerts@.len() ==> raised_by(
                #[trigger] alerts@[k],
                firing_rules(original.subrange(0, i as int), *event, initial, now)[k],
                *event,
            ),
            failure is Some ==> exists|j: int| 0 <= j < i && #[trigger] reaches_store(original[j], *event, now),
            only_new_alerts(initial, store.alerts()),
            failure is None ==> stores_raised(initial, store.alerts(), alerts@),
            forall|rule_name: Seq<char>, mac: Seq<u8>| #[trigger] holds_acknowledged(store.alerts(), rule_name, mac)
                == holds_acknowledged(initial, rule_name, mac),
            store.answers() == answering,
            answering ==> failure is None,
            first_id matches Some(f) ==> (f + alerts@.len() < u64::MAX ==> store.next_alert_id() == Some(
                (f + alerts@.len()) as u64,
            ) && forall|k: int| 0 <= k < alerts@.len() ==> (#[trigger] alerts@[k]).id == f + k),
        decreases n - i,
    {
        let mut rule = pending.remove(0);
        proof {
            assert(rule == original[i as int]);
            assert(pending@ =~= original.subrange(i + 1, n as int));
            assert(original.subrange(0, i + 1).drop_last() =~= original.subrange(0, i as int));
            assert(original.subrange(0, i + 1).last() == rule);
        }
        let ghost before = alerts@;
        let ghost current = store.alerts();
        if rule.enabled && failure.is_none() {
            match evaluate_rule(&mut rule, event, store, now) {
                Ok(Some(a)) => {
                    proof {
                        let after = store.alerts();
                        if after != current {
                            lemma_insert_unacknowledged(current, a.id, a@);
                            assert forall|id: u64| #[trigger] after.dom().contains(id) && !initial.dom().contains(id)
                                implies exists|k: int| 0 <= k < before.len() + 1 && #[trigger] before.push(a)[k].id == id
                                && after[id] == before.push(a)[k]@ by {
                                if id == a.id {
                                    assert(before.push(a)[before.len() as int] == a);
                                } else {
                                    let k = choose|k: int| 0 <= k < before.len() && #[trigger] before[k].id == id
                                        && current[id] == before[k]@;
                                    assert(before.push(a)[k] == before[k]);
                                }
                            }
                            assert forall|k: int| 0 <= k < before.len() + 1 implies (after.dom().contains(
                                #[trigger] before.push(a)[k].id,
                            ) && after[before.push(a)[k].id] == before.push(a)[k]@) || before.push(a)[k].id == 0 by {
                                if k < before.len() {
                                    assert(before.push(a)[k] == before[k]);
                                }
                            }
                        } else {
                            assert forall|id: u64| #[trigger] after.dom().contains(id) && !initial.dom().contains(id)
                                implies exists|k: int| 0 <= k < before.len() + 1 && #[trigger] before.push(a)[k].id == id
                                && after[id] == before.push(a)[k]@ by {
                                let k = choose|k: int| 0 <= k < before.len() && #[trigger] before[k].id == id
                                    && current[id] == before[k]@;
                                assert(before.push(a)[k] == before[k]);
                            }
                            assert forall|k: int| 0 <= k < before.len() + 1 implies (after.dom().contains(
                                #[trigger] before.push(a)[k].id,
                            ) && after[before.push(a)[k].id] == before.push(a)[k]@) || before.push(a)[k].id == 0 by {
                                if k < before.len() {
                                    assert(before.push(a)[k] == before[k]);
                                }
                            }
                        }
                    }
                    alerts.push(a);
                },
                Ok(None) => {},
                Err(e) => {
                    assert(reaches_store(original[i as int], *event, now));
                    failure = Some(e);
                },
            }
        }
        proof {
            if failure is None {
                let prev = firing_rules(original.subrange(0, i as int), *event, initial, now);
                let cur = firing_rules(original.subrange(0, i + 1), *event, initial, now);
                if fires(original[i as int], *event, initial, now) {
                    assert(cur == prev.push(original[i as int]));
                } else {
                    assert(cur == prev);
                }
                assert forall|k: int| 0 <= k < alerts@.len() implies raised_by(#[trigger] alerts@[k], cur[k], *event) by {
                    if k < before.len() {
                        assert(alerts@[k] == before[k]);
                    }
                }
            }
        }
        rules.push(rule);
        i = i + 1;
    }
    proof {
        assert(original.subrange(0, n as int) =~= original);
        if failure is None && alerts@.len() == 0 {
            assert(store.alerts() =~= initial);
        }
    }
    match failure {
        Some(e) => Err(e),
        None => Ok(alerts),
    }
}

/// Acknowledging an alert silences its rule for its device: once a
/// store holds the acknowledged alert (as `acknowledge_alert` leaves
/// it), that rule raises no further alert for that device, whatever the
/// event and the time.
pub proof fn law_acknowledgement_silences(
    before: Map<u64, AlertView>,
    id: u64,
    rule: Rule,
    event: DiscoveryEvent,
    now: u64,
)
    requires
        before.dom().contains(id),
        rule.name@ == before[id].rule_name,
        event_device(event).mac@ == before[id].mac,
    ensures
        !fires(rule, event, before.insert(id, AlertView { acknowledged: true, ..before[id] }), now),
        firing_rules(seq![rule], event, before.insert(id, AlertView { acknowledged: true, ..before[id] }), now).len() == 0,
{
    let acknowledged = before.insert(id, AlertView { acknowledged: true, ..before[id] });
    law_acknowledged_after_acknowledge(before, id);
    assert(seq![rule].drop_last() =~= Seq::<Rule>::empty());
    assert(seq![rule].last() == rule);
    assert(firing_rules(Seq::<Rule>::empty(), event, acknowledged, now).len() == 0);
}

// ---------------------------------------------------------------- configuration

/// A rule condition as written in the configuration.
#[derive(Debug, Clone)]
pub enum RuleConditionConfig {
    /// A bare name: `new_device` or `protocol_change`.
    Simple(String),
    NewDeviceByVendor { new_device_by_vendor: String },
    NewDeviceByMacPrefix { new_device_by_mac_prefix: String },
    DeviceOffline { device_offline: DeviceOfflineCondition },
}

/// The threshold of a device-offline condition.
#[derive(Debug, Clone, Copy)]
pub struct DeviceOfflineCondition {
    pub after_seconds: u64,
}

/// A rule as written in the configuration.
#[derive(Debug, Clone)]
pub struct RuleConfig {
    pub name: String,
    pub enabled: bool,
    pub condition: RuleConditionConfig,
    /// A severity name (see [`Severity::from_str`]).
    pub severity: String,
    pub cooldown_seconds: u64,
}

/// The message for an unknown bare condition name.
pub open spec fn unknown_condition_text(s: Seq<char>) -> Seq<char> {
    "unknown simple condition '"@ + s + "': expected new_device or protocol_change"@
}

/// Whether `c` is the condition a configured condition denotes; `Err`
/// carries the message for an unknown bare name.
pub open spec fn condition_denoted(config: RuleConditionConfig, c: Result<RuleCondition, String>) -> bool {
    match config {
        RuleConditionConfig::Simple(s) => if s@ == "new_device"@ {
            c matches Ok(RuleCondition::NewDevice)
        } else if s@ == "protocol_change"@ {
            c matches Ok(RuleCondition::ProtocolChange)
        } else {
            c matches Err(m) && m@ == unknown_condition_text(s@)
        },
        RuleConditionConfig::NewDeviceByVendor { new_device_by_vendor } => c matches Ok(
            RuleCondition::NewDeviceByVendor(v),
        ) && v@ == new_device_by_vendor@,
        RuleConditionConfig::NewDeviceByMacPrefix { new_device_by_mac_prefix } => c matches Ok(
            RuleCondition::NewDeviceByMacPrefix(p),
        ) && p@ == new_device_by_mac_prefix@,
        RuleConditionConfig::DeviceOffline { device_offline } => c matches Ok(
            RuleCondition::DeviceOffline { after_seconds },
        ) && after_seconds == device_offline.after_seconds,
    }
}

/// Converts a configured condition (see [`condition_denoted`]).
pub fn convert_condition(config: &RuleConditionConfig) -> (r: Result<RuleCondition, String>)
    ensures
        condition_denoted(*config, r),
{
    match config {
        RuleConditionConfig::Simple(s) => {
            if str_eq(s.as_str(), "new_device") {
                Ok(RuleCondition::NewDevice)
            } else if str_eq(s.as_str(), "protocol_change") {
                Ok(RuleCondition::ProtocolChange)
            } else {
                let mut m = copy_str("unknown simple condition '");
                push_str(&mut m, s.as_str());
                push_str(&mut m, "': expected new_device or protocol_change");
                Err(m)
            }
        },
        RuleConditionConfig::NewDeviceByVendor { new_device_by_vendor } => Ok(
            RuleCondition::NewDeviceByVendor(copy_str(new_device_by_vendor.as_str())),
        ),
        RuleConditionConfig::NewDeviceByMacPrefix { new_device_by_mac_prefix } => Ok(
            RuleCondition::NewDeviceByMacPrefix(copy_str(new_device_by_mac_prefix.as_str())),
        ),
        RuleConditionConfig::DeviceOffline { device_offline } => Ok(
            RuleCondition::DeviceOffline { after_seconds: device_offline.after_seconds },
        ),
    }
}

/// Whether a configured rule converts: its severity is a severity name
/// and its condition is not an unknown bare name.
pub open spec fn rule_converts(config: RuleConfig) -> bool {
    &&& spec_severity_from_text(config.severity@) is Some
    &&& !(config.condition matches RuleConditionConfig::Simple(s) && s@ != "new_device"@ && s@ != "protocol_change"@)
}

/// Whether `rule` is the rule built from `config`, which converts.
pub open spec fn built_from(config: RuleConfig, rule: Rule) -> bool {
    &&& rule.name@ == config.name@
    &&& rule.enabled == config.enabled
    &&& Some(rule.severity) == spec_severity_from_text(config.severity@)
    &&& rule.cooldown_seconds == config.cooldown_seconds
    &&& condition_denoted(config.condition, Ok(rule.condition))
    &&& rule.last_fired@ == Map::<Seq<u8>, u64>::empty()
}

/// The message a configured rule that does not convert is refused with:
/// the severity's, else the condition's.
pub open spec fn refusal_text(config: RuleConfig) -> Seq<char> {
    if spec_severity_from_text(config.severity@) is None {
        invalid_severity_text(config.severity@)
    } else {
        match config.condition {
            RuleConditionConfig::Simple(s) => unknown_condition_text(s@),
            _ => Seq::empty(),
        }
    }
}

impl Rule {
    /// Builds a rule from its configuration: the severity name must be a
    /// severity and the condition must convert; the first failure's
    /// message is the error.
    pub fn try_from(config: RuleConfig) -> (r: Result<Rule, String>)
        ensures
            match spec_severity_from_text(config.severity@) {
                None => r matches Err(m) && m@ == invalid_severity_text(config.severity@),
                Some(sev) => match r {
                    Ok(rule) => rule.name@ == config.name@ && rule.enabled == config.enabled && rule.severity == sev
                        && rule.cooldown_seconds == config.cooldown_seconds && condition_denoted(
                        config.condition,
                        Ok(rule.condition),
                    ) && rule.last_fired@ == Map::<Seq<u8>, u64>::empty(),
                    Err(m) => condition_denoted(config.condition, Err(m)),
                },
            },
    {
        let severity = match Severity::from_str(config.severity.as_str()) {
            Ok(s) => s,
            Err(m) => return Err(m),
        };
        let condition = match convert_condition(&config.condition) {
            Ok(c) => c,
            Err(m) => return Err(m),
        };
        Ok(Rule::new(config.name, config.enabled, condition, severity, config.cooldown_seconds))
    }
}

} // verus!
