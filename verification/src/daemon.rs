//! The daemon's decisions: which rules run, which devices count as
//! offline, and what the capture thread does after each event.

use vstd::prelude::*;

use crate::alert::Severity;
use crate::config::Config;
use crate::rules::{built_from, refusal_text, rule_converts, Rule, RuleCondition, RuleConfig};
use crate::text::copy_str;
use crate::types::{epoch_nanos, Device, Timestamp};

verus! {

/// The configured rules that convert, in order.
pub open spec fn accepted_rules(s: Seq<RuleConfig>) -> Seq<RuleConfig>
    decreases s.len(),
{
    if s.len() == 0 {
        s
    } else if rule_converts(s.last()) {
        accepted_rules(s.drop_last()).push(s.last())
    } else {
        accepted_rules(s.drop_last())
    }
}

/// The configured rules that do not convert, in order.
pub open spec fn refused_rules(s: Seq<RuleConfig>) -> Seq<RuleConfig>
    decreases s.len(),
{
    if s.len() == 0 {
        s
    } else if rule_converts(s.last()) {
        refused_rules(s.drop_last())
    } else {
        refused_rules(s.drop_last()).push(s.last())
    }
}

/// Whether `rule` is the default rule: `new_device`, enabled, on every
/// new device, at info severity, with no cooldown.
pub open spec fn is_default_rule(rule: Rule) -> bool {
    &&& rule.name@ == "new_device"@
    &&& rule.enabled
    &&& rule.condition is NewDevice
    &&& rule.severity == Severity::Info
    &&& rule.cooldown_seconds == 0
    &&& rule.last_fired@ == Map::<Seq<u8>, u64>::empty()
}

/// The rules of a configuration: the rule built from each configured rule
/// that converts, in order, or the default rule alone when none does; and
/// (name, message) for each configured rule that does not, in order.
pub fn rules_from_config(configs: Vec<RuleConfig>) -> (r: (Vec<Rule>, Vec<(String, String)>))
    ensures
        accepted_rules(configs@).len() > 0 ==> r.0@.len() == accepted_rules(configs@).len() && forall|k: int|
            0 <= k < r.0@.len() ==> built_from(accepted_rules(configs@)[k], #[trigger] r.0@[k]),
        accepted_rules(configs@).len() == 0 ==> r.0@.len() == 1 && is_default_rule(r.0@[0]),
        r.1@.len() == refused_rules(configs@).len(),
        forall|k: int| 0 <= k < r.1@.len() ==> (#[trigger] r.1@[k]).0@ == refused_rules(configs@)[k].name@ && r.1@[k].1@
            == refusal_text(refused_rules(configs@)[k]),
{
    let ghost all = configs@;
    let mut rules: Vec<Rule> = Vec::new();
    let mut rejected: Vec<(String, String)> = Vec::new();
    let n = configs.len();
    let mut remaining = configs;
    let mut i: usize = 0;
    while i < n
        invariant
            i <= n,
            n == all.len(),
            remaining@ == all.subrange(i as int, n as int),
            rules@.len() == accepted_rules(all.subrange(0, i as int)).len(),
            forall|k: int| 0 <= k < rules@.len() ==> built_from(accepted_rules(all.subrange(0, i as int))[k], #[trigger] rules@[k]),
            rejected@.len() == refused_rules(all.subrange(0, i as int)).len(),
            forall|k: int| 0 <= k < rejected@.len() ==> (#[trigger] rejected@[k]).0@ == refused_rules(all.subrange(0, i as int))[k].name@
                && rejected@[k].1@ == refusal_text(refused_rules(all.subrange(0, i as int))[k]),
        decreases n - i,
    {
        let rc = remaining.remove(0);
        proof {
            assert(rc == all[i as int]);
            assert(remaining@ =~= all.subrange(i + 1, n as int));
            assert(all.subrange(0, i + 1).drop_last() =~= all.subrange(0, i as int));
            assert(all.subrange(0, i + 1).last() == rc);
        }
        let name = copy_str(rc.name.as_str());
        let ghost cfg = rc;
        match Rule::try_from(rc) {
            Ok(rule) => {
                proof {
                    assert(rule_converts(cfg));
                }
                rules.push(rule);
            },
            Err(e) => {
                proof {
                    assert(!rule_converts(cfg));
                }
                rejected.push((name, e));
            },
        }
        i = i + 1;
    }
    proof {
        assert(all.subrange(0, n as int) =~= all);
    }
    if rules.len() == 0 {
        rules.push(Rule::new(copy_str("new_device"), true, RuleCondition::NewDevice, Severity::Info, 0));
    }
    (rules, rejected)
}

/// Whether the daemon keeps devices in memory (no database path).
pub fn uses_memory_store(config: &Config) -> (r: bool)
    ensures
        r == (config.database_path@.len() == 0),
{
    config.database_path.unicode_len() == 0
}

/// Whether a device last seen at `last_seen` counts as offline at `now`:
/// silent for more than 60 whole seconds.
pub open spec fn spec_is_silent(last_seen: Timestamp, now: Timestamp) -> bool {
    epoch_nanos(now) - epoch_nanos(last_seen) >= 61_000_000_000
}

/// Whether a device last seen at `last_seen` counts as offline at `now`.
pub fn is_silent(last_seen: Timestamp, now: Timestamp) -> (r: bool)
    ensures
        r == spec_is_silent(last_seen, now),
{
    let now_nanos: i128 = (now.millis as i128) * 1_000_000 + (now.nanos as i128);
    let seen_nanos: i128 = (last_seen.millis as i128) * 1_000_000 + (last_seen.nanos as i128);
    now_nanos - seen_nanos >= 61_000_000_000
}

/// The devices of `ds` that count as offline at `now`, in order.
pub open spec fn silent_devices(ds: Seq<Device>, now: Timestamp) -> Seq<Device>
    decreases ds.len(),
{
    if ds.len() == 0 {
        ds
    } else if spec_is_silent(ds.last().last_seen, now) {
        silent_devices(ds.drop_last(), now).push(ds.last())
    } else {
        silent_devices(ds.drop_last(), now)
    }
}

/// The devices of `devices` that count as offline at `now`, in order.
pub fn offline_devices(devices: Vec<Device>, now: Timestamp) -> (r: Vec<Device>)
    ensures
        r@ == silent_devices(devices@, now),
{
    let ghost all = devices@;
    let mut out: Vec<Device> = Vec::new();
    let mut remaining = devices;
    let n = remaining.len();
    let mut i: usize = 0;
    while i < n
        invariant
            i <= n,
            n == all.len(),
            remaining@ == all.subrange(i as int, n as int),
            out@ == silent_devices(all.subrange(0, i as int), now),
        decreases n - i,
    {
        let d = remaining.remove(0);
        proof {
            assert(d == all[i as int]);
            assert(remaining@ =~= all.subrange(i + 1, n as int));
            assert(all.subrange(0, i + 1).drop_last() =~= all.subrange(0, i as int));
        }
        if is_silent(d.last_seen, now) {
            out.push(d);
        }
        i = i + 1;
    }
    proof {
        assert(all.subrange(0, n as int) =~= all);
    }
    out
}

// ---------------------------------------------------------------- capture

/// Consecutive failures after which the capture thread gives up.
pub const MAX_CAPTURE_ERRORS: u32 = 10;

/// Milliseconds the capture thread waits before reopening the interface.
pub const RECONNECT_DELAY_MS: u64 = 2000;

/// What happened in the capture thread.
#[derive(Debug, Clone, Copy, PartialEq, Eq, Structural)]
pub enum CaptureEvent {
    /// A stop was requested.
    StopRequested,
    /// The interface opened.
    Opened,
    /// Opening the interface failed.
    OpenFailed,
    /// A packet arrived.
    Packet,
    /// The read timed out with no packet.
    Timeout,
    /// Reading failed.
    ReadFailed,
}

/// What the capture thread does next.
#[derive(Debug, Clone, Copy, PartialEq, Eq, Structural)]
pub enum CaptureAction {
    /// End the thread.
    Stop,
    /// Read the next packet.
    Read,
    /// Hand the packet on, then read the next one.
    Deliver,
    /// Wait [`RECONNECT_DELAY_MS`], then open the interface again.
    RetryOpen,
    /// Open the interface again now.
    Reopen,
}

/// The next number of consecutive failures and the next action after an
/// event: a stop request stops; an open or a packet clears the count; a
/// failed open counts, and gives up at [`MAX_CAPTURE_ERRORS`]; a timeout
/// reads again; a read failure reopens.
pub open spec fn spec_capture_step(errors: u32, event: CaptureEvent) -> (u32, CaptureAction) {
    match event {
        CaptureEvent::StopRequested => (errors, CaptureAction::Stop),
        CaptureEvent::Opened => (0, CaptureAction::Read),
        CaptureEvent::OpenFailed => {
            let e = errors.saturating_add(1);
            if e >= MAX_CAPTURE_ERRORS {
                (e, CaptureAction::Stop)
            } else {
                (e, CaptureAction::RetryOpen)
            }
        },
        CaptureEvent::Packet => (0, CaptureAction::Deliver),
        CaptureEvent::Timeout => (errors, CaptureAction::Read),
        CaptureEvent::ReadFailed => (errors, CaptureAction::Reopen),
    }
}

/// One step of the capture thread (see [`spec_capture_step`]).
pub fn capture_step(errors: u32, event: CaptureEvent) -> (r: (u32, CaptureAction))
    ensures
        r == spec_capture_step(errors, event),
{
    match event {
        CaptureEvent::StopRequested => (errors, CaptureAction::Stop),
        CaptureEvent::Opened => (0, CaptureAction::Read),
        CaptureEvent::OpenFailed => {
            let e = errors.saturating_add(1);
            if e >= MAX_CAPTURE_ERRORS {
                (e, CaptureAction::Stop)
            } else {
                (e, CaptureAction::RetryOpen)
            }
        },
        CaptureEvent::Packet => (0, CaptureAction::Deliver),
        CaptureEvent::Timeout => (errors, CaptureAction::Read),
        CaptureEvent::ReadFailed => (errors, CaptureAction::Reopen),
    }
}

/// Starting from no failures, the capture thread gives up after exactly
/// [`MAX_CAPTURE_ERRORS`] failed opens in a row, and never earlier.
pub proof fn law_capture_gives_up(errors: u32)
    ensures
        errors < MAX_CAPTURE_ERRORS - 1 ==> spec_capture_step(errors, CaptureEvent::OpenFailed) == (
            (errors + 1) as u32,
            CaptureAction::RetryOpen,
        ),
        errors == MAX_CAPTURE_ERRORS - 1 ==> spec_capture_step(errors, CaptureEvent::OpenFailed).1 == CaptureAction::Stop,
        spec_capture_step(errors, CaptureEvent::Opened).0 == 0,
        spec_capture_step(errors, CaptureEvent::StopRequested).1 == CaptureAction::Stop,
{
}

} // verus!
