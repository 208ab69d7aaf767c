//! Alerts raised by the rule engine: severities, event types, the alert
//! record and the filter used to list alerts.

use vstd::prelude::*;

use crate::text::{copy_str, lower, push_str, str_eq, to_ascii_lowercase};
use crate::types::{Device, DeviceView, MacAddress, Timestamp};

verus! {

/// The severity of an alert.
#[derive(Debug, Clone, Copy, PartialEq, Eq, Structural, Hash)]
pub enum Severity {
    /// Informational; no action required.
    Info,
    /// Worth investigating.
    Warning,
    /// Act now.
    Critical,
}

/// The display name of a severity.
pub open spec fn severity_text(s: Severity) -> Seq<char> {
    match s {
        Severity::Info => "info"@,
        Severity::Warning => "warning"@,
        Severity::Critical => "critical"@,
    }
}

/// The severity that a name denotes, ignoring ASCII case; `warn` is
/// accepted for `warning`.
pub open spec fn spec_severity_from_text(s: Seq<char>) -> Option<Severity> {
    let l = lower(s);
    if l == "info"@ {
        Some(Severity::Info)
    } else if l == "warning"@ || l == "warn"@ {
        Some(Severity::Warning)
    } else if l == "critical"@ {
        Some(Severity::Critical)
    } else {
        None
    }
}

/// The message for a name that is no severity.
pub open spec fn invalid_severity_text(s: Seq<char>) -> Seq<char> {
    "invalid severity '"@ + s + "': expected info, warning, or critical"@
}

impl Severity {
    /// The display name: `info`, `warning` or `critical`.
    pub fn to_string(&self) -> (r: String)
        ensures
            r@ == severity_text(*self),
    {
        match self {
            Severity::Info => copy_str("info"),
            Severity::Warning => copy_str("warning"),
            Severity::Critical => copy_str("critical"),
        }
    }

    /// Parses a severity name, ignoring ASCII case.
    pub fn from_str(s: &str) -> (r: Result<Severity, String>)
        ensures
            match spec_severity_from_text(s@) {
                Some(v) => r == Ok::<Severity, String>(v),
                None => r is Err && r->Err_0@ == invalid_severity_text(s@),
            },
    {
        let l = to_ascii_lowercase(s);
        if str_eq(l.as_str(), "info") {
            Ok(Severity::Info)
        } else if str_eq(l.as_str(), "warning") || str_eq(l.as_str(), "warn") {
            Ok(Severity::Warning)
        } else if str_eq(l.as_str(), "critical") {
            Ok(Severity::Critical)
        } else {
            let mut e = copy_str("invalid severity '");
            push_str(&mut e, s);
            push_str(&mut e, "': expected info, warning, or critical");
            Err(e)
        }
    }
}

/// Parsing the display name of a severity gives that severity back.
pub proof fn lemma_severity_roundtrip(s: Severity)
    ensures
        spec_severity_from_text(severity_text(s)) == Some(s),
{
    reveal_strlit("info");
    reveal_strlit("warning");
    reveal_strlit("warn");
    reveal_strlit("critical");
    assert(lower("info"@) =~= "info"@);
    assert(lower("warning"@) =~= "warning"@);
    assert(lower("critical"@) =~= "critical"@);
    assert("info"@.len() == 4);
    assert("warn"@.len() == 4 && "warn"@[0] != "info"@[0]);
    assert("warning"@.len() == 7);
    assert("critical"@.len() == 8);
}

/// What kind of event raised an alert.
#[derive(Debug, PartialEq, Eq, Hash)]
pub enum AlertEventType {
    /// A MAC address seen for the first time.
    NewDevice,
    /// A known device silent for longer than a rule's threshold.
    DeviceOffline,
    /// A device began using a protocol it had not used before.
    ProtocolChange,
    /// Any other event, by name.
    Custom(String),
}

/// The display name of an event type.
pub open spec fn event_type_text(e: AlertEventType) -> Seq<char> {
    match e {
        AlertEventType::NewDevice => "new_device"@,
        AlertEventType::DeviceOffline => "device_offline"@,
        AlertEventType::ProtocolChange => "protocol_change"@,
        AlertEventType::Custom(s) => s@,
    }
}

/// The event type a stored name denotes: the three fixed names, or any
/// other text as a custom type.
pub open spec fn spec_parse_event_type(s: Seq<char>) -> AlertEventType {
    if s == "new_device"@ {
        AlertEventType::NewDevice
    } else if s == "device_offline"@ {
        AlertEventType::DeviceOffline
    } else if s == "protocol_change"@ {
        AlertEventType::ProtocolChange
    } else {
        AlertEventType::Custom(spec_string(s))
    }
}

/// The `String` whose characters are `s`.
pub open spec fn spec_string(s: Seq<char>) -> String {
    choose|t: String| t@ == s
}

/// The plain form of an [`AlertEventType`].
pub enum EventTypeView {
    NewDevice,
    DeviceOffline,
    ProtocolChange,
    Custom(Seq<char>),
}

impl View for AlertEventType {
    type V = EventTypeView;

    open spec fn view(&self) -> EventTypeView {
        match self {
            AlertEventType::NewDevice => EventTypeView::NewDevice,
            AlertEventType::DeviceOffline => EventTypeView::DeviceOffline,
            AlertEventType::ProtocolChange => EventTypeView::ProtocolChange,
            AlertEventType::Custom(s) => EventTypeView::Custom(s@),
        }
    }
}

impl Clone for AlertEventType {
    fn clone(&self) -> (r: AlertEventType)
        ensures
            r@ == self@,
    {
        match self {
            AlertEventType::NewDevice => AlertEventType::NewDevice,
            AlertEventType::DeviceOffline => AlertEventType::DeviceOffline,
            AlertEventType::ProtocolChange => AlertEventType::ProtocolChange,
            AlertEventType::Custom(s) => AlertEventType::Custom(s.clone()),
        }
    }
}

impl AlertEventType {
    /// The display name: `new_device`, `device_offline`,
    /// `protocol_change`, or a custom type's own name.
    pub fn to_string(&self) -> (r: String)
        ensures
            r@ == event_type_text(*self),
    {
        match self {
            AlertEventType::NewDevice => copy_str("new_device"),
            AlertEventType::DeviceOffline => copy_str("device_offline"),
            AlertEventType::ProtocolChange => copy_str("protocol_change"),
            AlertEventType::Custom(s) => copy_str(s.as_str()),
        }
    }
}

/// Reads an event type back from its stored name.
pub fn parse_event_type(s: &str) -> (r: AlertEventType)
    ensures
        match spec_parse_event_type(s@) {
            AlertEventType::Custom(_) => r matches AlertEventType::Custom(t) && t@ == s@,
            other => r == other,
        },
{
    if str_eq(s, "new_device") {
        AlertEventType::NewDevice
    } else if str_eq(s, "device_offline") {
        AlertEventType::DeviceOffline
    } else if str_eq(s, "protocol_change") {
        AlertEventType::ProtocolChange
    } else {
        AlertEventType::Custom(copy_str(s))
    }
}

/// Reading back the stored name of an event type gives the same event
/// type, except for a custom type named like one of the fixed ones.
pub proof fn lemma_event_type_roundtrip(e: AlertEventType)
    requires
        e matches AlertEventType::Custom(s) ==> s@ != "new_device"@ && s@ != "device_offline"@ && s@
            != "protocol_change"@,
    ensures
        e matches AlertEventType::Custom(s) ==> spec_parse_event_type(event_type_text(e)) == AlertEventType::Custom(
            spec_string(s@),
        ) && spec_string(s@)@ == s@,
        !(e is Custom) ==> spec_parse_event_type(event_type_text(e)) == e,
{
    reveal_strlit("new_device");
    reveal_strlit("device_offline");
    reveal_strlit("protocol_change");
    assert("new_device"@.len() == 10);
    assert("device_offline"@.len() == 14);
    assert("protocol_change"@.len() == 15);
    if let AlertEventType::Custom(s) = e {
        assert(exists|t: String| #[trigger] t@ == s@) by {
            assert(s@ == s@);
        }
    }
}

/// An alert raised by a rule.
#[derive(Debug)]
pub struct Alert {
    /// Identifier given by the alert store; `0` until stored.
    pub id: u64,
    /// The rule that fired.
    pub rule_name: String,
    pub severity: Severity,
    pub event_type: AlertEventType,
    /// The device's MAC address.
    pub mac: MacAddress,
    /// A human-readable summary.
    pub message: String,
    /// The device record as it was when the alert was raised.
    pub device_snapshot: Device,
    /// When the alert was raised.
    pub timestamp: Timestamp,
    /// Whether a user has acknowledged it.
    pub acknowledged: bool,
}

/// The plain form of an [`Alert`].
pub struct AlertView {
    pub id: u64,
    pub rule_name: Seq<char>,
    pub severity: Severity,
    pub event_type: EventTypeView,
    pub mac: Seq<u8>,
    pub message: Seq<char>,
    pub device_snapshot: DeviceView,
    pub timestamp: Timestamp,
    pub acknowledged: bool,
}

impl View for Alert {
    type V = AlertView;

    open spec fn view(&self) -> AlertView {
        AlertView {
            id: self.id,
            rule_name: self.rule_name@,
            severity: self.severity,
            event_type: self.event_type@,
            mac: self.mac@,
            message: self.message@,
            device_snapshot: self.device_snapshot@,
            timestamp: self.timestamp,
            acknowledged: self.acknowledged,
        }
    }
}

impl Clone for Alert {
    fn clone(&self) -> (r: Alert)
        ensures
            r@ == self@,
    {
        Alert {
            id: self.id,
            rule_name: self.rule_name.clone(),
            severity: self.severity,
            event_type: self.event_type.clone(),
            mac: self.mac,
            message: self.message.clone(),
            device_snapshot: self.device_snapshot.clone(),
            timestamp: self.timestamp,
            acknowledged: self.acknowledged,
        }
    }
}

impl Alert {
    /// An unstored, unacknowledged alert for `device` raised at `now`.
    pub fn new_at(
        rule_name: String,
        severity: Severity,
        event_type: AlertEventType,
        device: Device,
        message: String,
        now: Timestamp,
    ) -> (r: Alert)
        ensures
            r.id == 0,
            r.rule_name@ == rule_name@,
            r.severity == severity,
            r.event_type@ == event_type@,
            r.mac == device.mac,
            r.message@ == message@,
            r.device_snapshot@ == device@,
            r.timestamp == now,
            !r.acknowledged,
    {
        let mac = device.mac;
        Alert {
            id: 0,
            rule_name,
            severity,
            event_type,
            mac,
            message,
            device_snapshot: device,
            timestamp: now,
            acknowledged: false,
        }
    }

    /// An unstored, unacknowledged alert for `device` raised now.
    pub fn new(
        rule_name: String,
        severity: Severity,
        event_type: AlertEventType,
        device: Device,
        message: String,
    ) -> (r: Alert)
        ensures
            r.id == 0,
            r.rule_name@ == rule_name@,
            r.severity == severity,
            r.event_type@ == event_type@,
            r.mac == device.mac,
            r.message@ == message@,
            r.device_snapshot@ == device@,
            !r.acknowledged,
    {
        Alert::new_at(rule_name, severity, event_type, device, message, Timestamp::now())
    }
}

/// A filter for listing alerts; every field is optional.
#[derive(Debug, Clone)]
pub struct AlertFilter {
    /// Only alerts of this severity.
    pub severity: Option<Severity>,
    /// Only alerts with this acknowledgement state.
    pub acknowledged: Option<bool>,
    /// Only alerts of the rule with this name.
    pub rule_name: Option<String>,
    /// At most this many alerts.
    pub limit: Option<usize>,
}

impl Default for AlertFilter {
    fn default() -> (r: AlertFilter)
        ensures
            r.severity is None,
            r.acknowledged is None,
            r.rule_name is None,
            r.limit is None,
    {
        AlertFilter { severity: None, acknowledged: None, rule_name: None, limit: None }
    }
}

/// Whether an alert passes a filter's conditions (the limit aside).
pub open spec fn filter_admits(f: AlertFilter, a: AlertView) -> bool {
    &&& (f.severity matches Some(s) ==> a.severity == s)
    &&& (f.acknowledged matches Some(k) ==> a.acknowledged == k)
    &&& (f.rule_name matches Some(n) ==> a.rule_name == n@)
}

/// Whether an alert passes a filter's conditions (the limit aside).
pub fn filter_matches(f: &AlertFilter, a: &Alert) -> (r: bool)
    ensures
        r == filter_admits(*f, a@),
{
    if let Some(s) = f.severity {
        if a.severity != s {
            return false;
        }
    }
    if let Some(k) = f.acknowledged {
        if a.acknowledged != k {
            return false;
        }
    }
    if let Some(n) = &f.rule_name {
        if !str_eq(a.rule_name.as_str(), n.as_str()) {
            return false;
        }
    }
    true
}

} // verus!
