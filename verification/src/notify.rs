//! What notifiers send: the new-device payload, the email body, the
//! ntfy title, URL and headers, and the MQTT quality of service.

use vstd::prelude::*;

use crate::alert::{event_type_text, severity_text, Alert, AlertView};
use crate::protocol::protocol_text;
use crate::rules::device_label;
use crate::text::{copy_str, decimal, push_decimal, push_str};
use crate::types::{iso8601_millis, ip_text, mac_text, opt_str_view, Device, DeviceView, IpAddr, clone_opt_str};
use crate::protocol::Protocol;

verus! {

/// Why a notifier could not deliver.
#[derive(Debug, Clone, PartialEq, Eq)]
pub enum NotifierError {
    Delivery(String),
    Config(String),
}

impl NotifierError {
    /// The message: `delivery failed: ...` or `configuration error: ...`.
    pub fn to_string(&self) -> (r: String)
        ensures
            r@ == match *self {
                NotifierError::Delivery(m) => "delivery failed: "@ + m@,
                NotifierError::Config(m) => "configuration error: "@ + m@,
            },
    {
        match self {
            NotifierError::Delivery(m) => {
                let mut s = copy_str("delivery failed: ");
                push_str(&mut s, m.as_str());
                s
            },
            NotifierError::Config(m) => {
                let mut s = copy_str("configuration error: ");
                push_str(&mut s, m.as_str());
                s
            },
        }
    }
}

/// The payload published for a new device.
#[derive(Debug, Clone, PartialEq, Eq)]
pub struct NewDevicePayload {
    /// Always `new_device`.
    pub event: String,
    /// The MAC address, colon-separated.
    pub mac: String,
    /// The smallest observed IP address, if any.
    pub ip: Option<String>,
    pub hostname: Option<String>,
    pub vendor: Option<String>,
    /// The protocol of the first packet seen.
    pub protocol: String,
    /// When the device was first seen (ISO 8601).
    pub first_seen: String,
}

impl NewDevicePayload {
    /// The payload for `device`, first seen with `protocol`.
    pub fn from_device(device: &Device, protocol: &str) -> (r: NewDevicePayload)
        ensures
            r.event@ == "new_device"@,
            r.mac@ == mac_text(device.mac@),
            opt_str_view(r.ip) == (if device.ips@.len() == 0 {
                None
            } else {
                Some(ip_text(device.ips@[0]))
            }),
            opt_str_view(r.hostname) == opt_str_view(device.hostname),
            opt_str_view(r.vendor) == opt_str_view(device.vendor),
            r.protocol@ == protocol@,
            r.first_seen@ == iso8601_millis(device.first_seen.millis),
    {
        let ip = match device.ips.first() {
            Some(a) => Some(a.to_string()),
            None => None,
        };
        NewDevicePayload {
            event: copy_str("new_device"),
            mac: device.mac.to_string(),
            ip,
            hostname: clone_opt_str(&device.hostname),
            vendor: clone_opt_str(&device.vendor),
            protocol: copy_str(protocol),
            first_seen: device.first_seen.to_string(),
        }
    }
}

/// The name of a device's first protocol (in protocol order), or
/// `Unknown`.
pub open spec fn first_protocol_text(d: DeviceView) -> Seq<char> {
    if d.protocols.len() == 0 {
        "Unknown"@
    } else {
        protocol_text(d.protocols[0])
    }
}

/// The name of `device`'s first protocol, or `Unknown`.
pub fn first_protocol_name(device: &Device) -> (r: String)
    ensures
        r@ == first_protocol_text(device@),
{
    match device.protocols.first() {
        Some(p) => p.to_string(),
        None => copy_str("Unknown"),
    }
}

/// `texts` joined with `", "`.
pub open spec fn join_comma(texts: Seq<Seq<char>>) -> Seq<char>
    decreases texts.len(),
{
    if texts.len() == 0 {
        Seq::empty()
    } else if texts.len() == 1 {
        texts[0]
    } else {
        join_comma(texts.drop_last()) + ", "@ + texts.last()
    }
}

/// The addresses of a device as the email lists them.
pub open spec fn ips_line(ips: Seq<IpAddr>) -> Seq<char> {
    if ips.len() == 0 {
        "(none)"@
    } else {
        join_comma(ips.map_values(|a: IpAddr| ip_text(a)))
    }
}

/// The protocols of a device as the email lists them.
pub open spec fn protocols_line(ps: Seq<Protocol>) -> Seq<char> {
    if ps.len() == 0 {
        "(none)"@
    } else {
        join_comma(ps.map_values(|p: Protocol| protocol_text(p)))
    }
}

/// An optional text, or `(unknown)`.
pub open spec fn or_unknown(o: Option<Seq<char>>) -> Seq<char> {
    match o {
        Some(s) => s,
        None => "(unknown)"@,
    }
}

/// The plain-text email body of an alert.
pub open spec fn alert_body_text(a: AlertView, rule_name: Seq<char>, event: Seq<char>, time: Seq<char>) -> Seq<char> {
    let d = a.device_snapshot;
    "EdgeShield Alert\n================\n\nRule: "@ + rule_name + "\nSeverity: "@ + severity_text(a.severity)
        + "\nEvent: "@ + event + "\nTime: "@ + time + "\n\nDevice:\nMAC: "@ + mac_text(d.mac) + "\nHostname: "@
        + or_unknown(d.hostname) + "\nVendor: "@ + or_unknown(d.vendor) + "\nIPs: "@ + ips_line(d.ips)
        + "\nProtocols: "@ + protocols_line(d.protocols) + "\n\nMessage: "@ + a.message + "\n"@ + (if a.acknowledged {
        "\n(Alert acknowledged)\n"@
    } else {
        Seq::empty()
    })
}

fn push_ips(s: &mut String, device: &Device)
    ensures
        final(s)@ == old(s)@ + ips_line(device.ips@),
{
    let n = device.ips.len();
    if n == 0 {
        push_str(s, "(none)");
        return;
    }
    let ghost texts = device.ips@.map_values(|a: IpAddr| ip_text(a));
    let ghost start = s@;
    push_str(s, device.ips.get(0).to_string().as_str());
    let mut i: usize = 1;
    while i < n
        invariant
            1 <= i <= n,
            n == device.ips@.len(),
            texts == device.ips@.map_values(|a: IpAddr| ip_text(a)),
            s@ == start + join_comma(texts.subrange(0, i as int)),
        decreases n - i,
    {
        push_str(s, ", ");
        push_str(s, device.ips.get(i).to_string().as_str());
        proof {
            assert(texts.subrange(0, i + 1).drop_last() == texts.subrange(0, i as int));
        }
        i = i + 1;
    }
    proof {
        assert(texts.subrange(0, n as int) == texts);
    }
}

fn push_protocols(s: &mut String, device: &Device)
    ensures
        final(s)@ == old(s)@ + protocols_line(device.protocols@),
{
    let n = device.protocols.len();
    if n == 0 {
        push_str(s, "(none)");
        return;
    }
    let ghost texts = device.protocols@.map_values(|p: Protocol| protocol_text(p));
    let ghost start = s@;
    push_str(s, device.protocols.get(0).to_string().as_str());
    let mut i: usize = 1;
    while i < n
        invariant
            1 <= i <= n,
            n == device.protocols@.len(),
            texts == device.protocols@.map_values(|p: Protocol| protocol_text(p)),
            s@ == start + join_comma(texts.subrange(0, i as int)),
        decreases n - i,
    {
        push_str(s, ", ");
        push_str(s, device.protocols.get(i).to_string().as_str());
        proof {
            assert(texts.subrange(0, i + 1).drop_last() == texts.subrange(0, i as int));
        }
        i = i + 1;
    }
    proof {
        assert(texts.subrange(0, n as int) == texts);
    }
}

fn push_or_unknown(s: &mut String, o: &Option<String>)
    ensures
        final(s)@ == old(s)@ + or_unknown(opt_str_view(*o)),
{
    match o {
        Some(t) => push_str(s, t.as_str()),
        None => push_str(s, "(unknown)"),
    }
}

/// Renders an alert as a plain-text email body (see [`alert_body_text`]).
pub fn format_alert_body(alert: &Alert) -> (r: String)
    ensures
        r@ == alert_body_text(alert@, alert.rule_name@, event_type_text(alert.event_type), iso8601_millis(alert.timestamp.millis)),
{
    let device = &alert.device_snapshot;
    let mut s = copy_str("EdgeShield Alert\n================\n\nRule: ");
    push_str(&mut s, alert.rule_name.as_str());
    push_str(&mut s, "\nSeverity: ");
    push_str(&mut s, alert.severity.to_string().as_str());
    push_str(&mut s, "\nEvent: ");
    push_str(&mut s, alert.event_type.to_string().as_str());
    push_str(&mut s, "\nTime: ");
    push_str(&mut s, alert.timestamp.to_string().as_str());
    push_str(&mut s, "\n\nDevice:\nMAC: ");
    push_str(&mut s, device.mac.to_string().as_str());
    push_str(&mut s, "\nHostname: ");
    push_or_unknown(&mut s, &device.hostname);
    push_str(&mut s, "\nVendor: ");
    push_or_unknown(&mut s, &device.vendor);
    push_str(&mut s, "\nIPs: ");
    push_ips(&mut s, device);
    push_str(&mut s, "\nProtocols: ");
    push_protocols(&mut s, device);
    push_str(&mut s, "\n\nMessage: ");
    push_str(&mut s, alert.message.as_str());
    push_str(&mut s, "\n");
    if alert.acknowledged {
        push_str(&mut s, "\n(Alert acknowledged)\n");
    }
    proof {
        assert(s@ =~= alert_body_text(alert@, alert.rule_name@, event_type_text(alert.event_type), iso8601_millis(alert.timestamp.millis)));
    }
    s
}

/// The subject of an alert email: the prefix, the severity and the
/// message.
pub fn email_subject(subject_prefix: &str, alert: &Alert) -> (r: String)
    ensures
        r@ == subject_prefix@ + " "@ + severity_text(alert.severity) + " — "@ + alert.message@,
{
    let mut s = copy_str(subject_prefix);
    push_str(&mut s, " ");
    push_str(&mut s, alert.severity.to_string().as_str());
    push_str(&mut s, " — ");
    push_str(&mut s, alert.message.as_str());
    s
}

/// The title of an ntfy notification: `[severity] message: name (mac)`.
pub open spec fn ntfy_title_text(alert: Alert) -> Seq<char> {
    "["@ + severity_text(alert.severity) + "] "@ + alert.message@ + ": "@ + device_label(alert.device_snapshot@) + " ("@
        + mac_text(alert.device_snapshot.mac@) + ")"@
}

/// The title of an ntfy notification (see [`ntfy_title_text`]).
pub fn ntfy_title(alert: &Alert) -> (r: String)
    ensures
        r@ == ntfy_title_text(*alert),
{
    let device = &alert.device_snapshot;
    let mut s = copy_str("[");
    push_str(&mut s, alert.severity.to_string().as_str());
    push_str(&mut s, "] ");
    push_str(&mut s, alert.message.as_str());
    push_str(&mut s, ": ");
    match &device.hostname {
        Some(h) => push_str(&mut s, h.as_str()),
        None => match &device.vendor {
            Some(v) => push_str(&mut s, v.as_str()),
            None => push_str(&mut s, device.mac.to_string().as_str()),
        },
    }
    push_str(&mut s, " (");
    push_str(&mut s, device.mac.to_string().as_str());
    push_str(&mut s, ")");
    s
}

/// The `Title` header of an ntfy notification: its title when that
/// makes a valid header value, and no header otherwise.
pub fn ntfy_title_header(alert: &Alert) -> (r: Option<String>)
    ensures
        match r {
            Some(t) => t@ == ntfy_title_text(*alert) && header_text_valid(t@),
            None => !header_text_valid(ntfy_title_text(*alert)),
        },
{
    let title = ntfy_title(alert);
    if header_value_ok(title.as_str()) {
        Some(title)
    } else {
        None
    }
}

/// The ntfy section of the configuration.
#[derive(Debug, Clone)]
pub struct NtfyConfig {
    pub base_url: String,
    pub topic: String,
    pub token: Option<String>,
    pub priority: Option<u8>,
    pub tags: Option<String>,
}

/// The URL an ntfy notification is posted to: the base URL, `/`, the
/// topic.
pub fn ntfy_url(config: &NtfyConfig) -> (r: String)
    ensures
        r@ == config.base_url@ + "/"@ + config.topic@,
{
    let mut s = copy_str(config.base_url.as_str());
    push_str(&mut s, "/");
    push_str(&mut s, config.topic.as_str());
    s
}

/// Whether text may be an HTTP header value: every character is a tab
/// or at least a space, and none is DEL.
pub open spec fn header_text_valid(s: Seq<char>) -> bool {
    forall|i: int| 0 <= i < s.len() ==> (#[trigger] s[i]) == '\t' || (s[i] >= ' ' && s[i] != '\u{7f}')
}

/// Whether `reqwest::header::HeaderValue::from_str` accepts `s`: it
/// refuses any byte below 32 but a tab, and DEL (127); the bytes of
/// characters beyond ASCII are all accepted.
#[verifier::external_body]
fn header_value_ok(s: &str) -> (r: bool)
    ensures
        r == header_text_valid(s@),
{
    reqwest::header::HeaderValue::from_str(s).is_ok()
}

/// The fixed headers of ntfy requests as (name, value) pairs, in this
/// order: `Authorization: Bearer <token>` when a token is configured and
/// makes a valid header value, `Priority` when configured, `Tags` when
/// configured and valid.
pub open spec fn ntfy_headers_spec(token: Option<Seq<char>>, priority: Option<u8>, tags: Option<Seq<char>>) -> Seq<(Seq<char>, Seq<char>)> {
    let auth: Seq<(Seq<char>, Seq<char>)> = match token {
        Some(t) => if header_text_valid("Bearer "@ + t) {
            seq![("Authorization"@, "Bearer "@ + t)]
        } else {
            Seq::empty()
        },
        None => Seq::empty(),
    };
    let prio: Seq<(Seq<char>, Seq<char>)> = match priority {
        Some(p) => seq![("Priority"@, decimal(p as nat))],
        None => Seq::empty(),
    };
    let tag: Seq<(Seq<char>, Seq<char>)> = match tags {
        Some(t) => if header_text_valid(t) {
            seq![("Tags"@, t)]
        } else {
            Seq::empty()
        },
        None => Seq::empty(),
    };
    auth + prio + tag
}

/// The plain form of a list of header pairs.
pub open spec fn header_pairs_view(v: Seq<(String, String)>) -> Seq<(Seq<char>, Seq<char>)> {
    v.map_values(|p: (String, String)| (p.0@, p.1@))
}

/// The fixed headers of ntfy requests (see [`ntfy_headers_spec`]).
pub fn build_ntfy_headers(config: &NtfyConfig) -> (r: Vec<(String, String)>)
    ensures
        header_pairs_view(r@) == ntfy_headers_spec(opt_str_view(config.token), config.priority, opt_str_view(config.tags)),
{
    let mut headers: Vec<(String, String)> = Vec::new();
    let ghost mut expected: Seq<(Seq<char>, Seq<char>)> = Seq::empty();
    if let Some(token) = &config.token {
        let mut value = copy_str("Bearer ");
        push_str(&mut value, token.as_str());
        if header_value_ok(value.as_str()) {
            headers.push((copy_str("Authorization"), value));
        }
    }
    proof {
        expected = ntfy_headers_spec(opt_str_view(config.token), None, None);
        assert(header_pairs_view(headers@) =~= expected);
    }
    if let Some(p) = config.priority {
        let mut value = String::new();
        push_decimal(&mut value, p as u64);
        headers.push((copy_str("Priority"), value));
    }
    proof {
        expected = ntfy_headers_spec(opt_str_view(config.token), config.priority, None);
        assert(header_pairs_view(headers@) =~= expected);
    }
    if let Some(tags) = &config.tags {
        if header_value_ok(tags.as_str()) {
            headers.push((copy_str("Tags"), copy_str(tags.as_str())));
        }
    }
    proof {
        assert(header_pairs_view(headers@) =~= ntfy_headers_spec(
            opt_str_view(config.token),
            config.priority,
            opt_str_view(config.tags),
        ));
    }
    headers
}

/// MQTT quality of service.
#[derive(Debug, Clone, Copy, PartialEq, Eq, Structural)]
pub enum Qos {
    AtMostOnce,
    AtLeastOnce,
    ExactlyOnce,
}

/// The quality of service of a configured level: 0 at most once, 1 at
/// least once, anything else exactly once.
pub fn qos_from_level(level: u8) -> (r: Qos)
    ensures
        r == (if level == 0 {
            Qos::AtMostOnce
        } else if level == 1 {
            Qos::AtLeastOnce
        } else {
            Qos::ExactlyOnce
        }),
{
    if level == 0 {
        Qos::AtMostOnce
    } else if level == 1 {
        Qos::AtLeastOnce
    } else {
        Qos::ExactlyOnce
    }
}

} // verus!
