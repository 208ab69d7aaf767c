//! Alert persistence: the storage interface the rule engine and the API
//! use, and an in-memory store.

use vstd::prelude::*;

use crate::alert::{filter_admits, filter_matches, Alert, AlertFilter, AlertView};
use crate::error::StorageError;
use crate::text::{copy_str, decimal, push_decimal, str_eq};
use crate::types::{later_than, MacAddress};

use dashmap::DashMap;

verus! {

/// A storage backend for alerts. Its contents are seen in contracts as
/// a map from identifier to alert ([`AlertStore::alerts`]); a failing
/// call changes nothing. A store that [`answers`](AlertStore::answers)
/// never fails a query, and one that knows the
/// [next identifier](AlertStore::next_alert_id) it hands out stores
/// under it.
pub trait AlertStore {
    /// The stored alerts, by identifier.
    spec fn alerts(&self) -> Map<u64, AlertView>;

    /// Whether the store answers every call without failing, but for
    /// storing once it has no identifier left and acknowledging an
    /// alert it does not hold.
    spec fn answers(&self) -> bool;

    /// The identifier the next stored alert gets, when the store knows it
    /// in advance.
    spec fn next_alert_id(&self) -> Option<u64>;

    /// Stores a copy of `alert` under a new identifier and returns it.
    fn insert_alert(&mut self, alert: &Alert) -> (r: Result<u64, StorageError>)
        ensures
            match r {
                Ok(id) => !old(self).alerts().dom().contains(id) && final(self).alerts() == old(self).alerts().insert(
                    id,
                    AlertView { id, ..alert@ },
                ),
                Err(_) => final(self).alerts() == old(self).alerts(),
            },
            final(self).answers() == old(self).answers(),
            old(self).next_alert_id() matches Some(n) ==> r == Ok::<u64, StorageError>(n) && final(self).next_alert_id()
                == next_after(n),
            old(self).next_alert_id() is None ==> final(self).next_alert_id() is None,
    ;

    /// Lists stored alerts that pass `filter`, most recent first.
    fn list_alerts(&self, filter: &AlertFilter) -> (r: Result<Vec<Alert>, StorageError>)
        ensures
            r matches Ok(v) ==> self.alerts().dom().finite() && is_listing(self.alerts(), *filter, v@),
            self.answers() ==> r is Ok,
    ;

    /// The alert with identifier `id`, if stored.
    fn get_alert(&self, id: u64) -> (r: Result<Option<Alert>, StorageError>)
        ensures
            r matches Ok(o) ==> match o {
                Some(a) => self.alerts().dom().contains(id) && a@ == self.alerts()[id],
                None => !self.alerts().dom().contains(id),
            },
            self.answers() ==> r is Ok,
    ;

    /// Marks the alert `id` acknowledged; an error if there is none.
    fn acknowledge_alert(&mut self, id: u64) -> (r: Result<(), StorageError>)
        ensures
            r is Ok ==> old(self).alerts().dom().contains(id) && final(self).alerts() == old(self).alerts().insert(
                id,
                AlertView { acknowledged: true, ..old(self).alerts()[id] },
            ),
            r is Err ==> final(self).alerts() == old(self).alerts(),
            old(self).answers() && old(self).alerts().dom().contains(id) ==> r is Ok,
            final(self).answers() == old(self).answers(),
            final(self).next_alert_id() == old(self).next_alert_id(),
    ;

    /// Removes the alert `id`.
    fn delete_alert(&mut self, id: u64) -> (r: Result<(), StorageError>)
        ensures
            r is Ok ==> final(self).alerts() == old(self).alerts().remove(id),
            r is Err ==> final(self).alerts() == old(self).alerts(),
            old(self).answers() ==> r is Ok,
            final(self).answers() == old(self).answers(),
            final(self).next_alert_id() == old(self).next_alert_id(),
    ;

    /// Whether an acknowledged alert of rule `rule_name` for `mac` is
    /// stored.
    fn is_acknowledged(&self, rule_name: &str, mac: &MacAddress) -> (r: Result<bool, StorageError>)
        ensures
            r matches Ok(b) ==> b == holds_acknowledged(self.alerts(), rule_name@, mac@),
            self.answers() ==> r is Ok,
    ;

    /// The number of stored alerts.
    fn count_alerts(&self) -> (r: Result<usize, StorageError>)
        ensures
            r matches Ok(n) ==> self.alerts().dom().finite() && n == self.alerts().dom().len(),
            self.answers() ==> r is Ok,
    ;
}

/// The identifier after `id` in a store that numbers alerts one after
/// another, while one is left below `u64::MAX`.
pub open spec fn next_after(id: u64) -> Option<u64> {
    if id + 1 < u64::MAX {
        Some((id + 1) as u64)
    } else {
        None
    }
}

/// Whether `m` holds an acknowledged alert of rule `rule_name` for the
/// device `mac`.
pub open spec fn holds_acknowledged(m: Map<u64, AlertView>, rule_name: Seq<char>, mac: Seq<u8>) -> bool {
    exists|id: u64| #[trigger] m.dom().contains(id) && m[id].rule_name == rule_name && m[id].mac == mac && m[id].acknowledged
}

/// Storing an unacknowledged alert under a new identifier changes no
/// acknowledgement.
pub proof fn lemma_insert_unacknowledged(m: Map<u64, AlertView>, id: u64, a: AlertView)
    requires
        !m.dom().contains(id),
        !a.acknowledged,
    ensures
        forall|rule_name: Seq<char>, mac: Seq<u8>| #[trigger] holds_acknowledged(m.insert(id, a), rule_name, mac)
            == holds_acknowledged(m, rule_name, mac),
{
    assert forall|rule_name: Seq<char>, mac: Seq<u8>| #[trigger] holds_acknowledged(m.insert(id, a), rule_name, mac)
        == holds_acknowledged(m, rule_name, mac) by {
        let after = m.insert(id, a);
        if holds_acknowledged(after, rule_name, mac) {
            let k = choose|k: u64| #[trigger] after.dom().contains(k) && after[k].rule_name == rule_name && after[k].mac
                == mac && after[k].acknowledged;
            assert(k != id);
            assert(m.dom().contains(k) && m[k] == after[k]);
        }
        if holds_acknowledged(m, rule_name, mac) {
            let k = choose|k: u64| #[trigger] m.dom().contains(k) && m[k].rule_name == rule_name && m[k].mac == mac
                && m[k].acknowledged;
            assert(after.dom().contains(k) && after[k] == m[k]);
        }
    }
}

/// Whether `v` is a listing of the alerts `m` under `filter`: most
/// recent first, each a stored alert that passes the filter, and every
/// such alert listed unless the limit was reached first.
pub open spec fn is_listing(m: Map<u64, AlertView>, filter: AlertFilter, v: Seq<Alert>) -> bool {
    &&& forall|i: int, j: int| 0 <= i < j < v.len() ==> listed_before(v[i]@, v[j]@)
    &&& forall|i: int| 0 <= i < v.len() ==> m.dom().contains(#[trigger] v[i]@.id) && m[v[i]@.id] == v[i]@
        && filter_admits(filter, v[i]@)
    &&& forall|id: u64| #[trigger] m.dom().contains(id) && filter_admits(filter, m[id]) ==> (exists|i: int|
        0 <= i < v.len() && v[i]@.id == id) || (filter.limit matches Some(n) && v.len() == n && (n == 0
        || listed_before(v[n - 1]@, m[id])))
    &&& filter.limit matches Some(n) ==> v.len() <= n
}

/// Alert `a` comes before alert `b` in a listing: more recent first,
/// and of two alerts raised at the same instant the later stored first.
pub open spec fn listed_before(a: AlertView, b: AlertView) -> bool {
    later_than(a.timestamp, b.timestamp) || (a.timestamp == b.timestamp && a.id > b.id)
}

/// The map of alerts by identifier that an in-memory store keeps.
pub type AlertMap = DashMap<u64, Alert>;

/// The alerts an alert map holds, by key.
pub uninterp spec fn alert_map_contents(m: AlertMap) -> Map<u64, AlertView>;

/// No alerts.
pub open spec fn no_alerts() -> Map<u64, AlertView> {
    Map::empty()
}

/// An empty map (`DashMap::new`).
#[verifier::external_body]
fn alert_map_new() -> (r: AlertMap)
    ensures
        alert_map_contents(r) == no_alerts(),
{
    DashMap::new()
}

/// Stores `alert` under `key`, replacing any alert there
/// (`DashMap::insert`).
#[verifier::external_body]
fn alert_map_insert(m: &mut AlertMap, key: u64, alert: Alert)
    ensures
        alert_map_contents(*final(m)) == alert_map_contents(*old(m)).insert(key, alert@),
{
    m.insert(key, alert);
}

/// A copy of the alert under `key` (`DashMap::get`, then `Alert`'s own
/// clone).
#[verifier::external_body]
fn alert_map_get(m: &AlertMap, key: u64) -> (r: Option<Alert>)
    ensures
        match r {
            Some(a) => alert_map_contents(*m).dom().contains(key) && a@ == alert_map_contents(*m)[key],
            None => !alert_map_contents(*m).dom().contains(key),
        },
{
    match m.get(&key) {
        Some(entry) => Some(entry.value().clone()),
        None => None,
    }
}

/// Removes the alert under `key`, if any (`DashMap::remove`).
#[verifier::external_body]
fn alert_map_remove(m: &mut AlertMap, key: u64)
    ensures
        alert_map_contents(*final(m)) == alert_map_contents(*old(m)).remove(key),
{
    m.remove(&key);
}

/// The number of keys (`DashMap::len`).
#[verifier::external_body]
fn alert_map_len(m: &AlertMap) -> (r: usize)
    ensures
        r == alert_map_contents(*m).dom().len(),
{
    m.len()
}

/// Copies of every entry, each key once, in the map's own order
/// (`DashMap::iter`).
#[verifier::external_body]
fn alert_map_entries(m: &AlertMap) -> (r: Vec<(u64, Alert)>)
    ensures
        forall|i: int| 0 <= i < r@.len() ==> alert_map_contents(*m).dom().contains(#[trigger] r@[i].0) && r@[i].1@
            == alert_map_contents(*m)[r@[i].0],
        forall|i: int, j: int| 0 <= i < j < r@.len() ==> r@[i].0 != r@[j].0,
        forall|k: u64| #[trigger] alert_map_contents(*m).dom().contains(k) ==> exists|i: int| 0 <= i < r@.len() && r@[i].0 == k,
{
    let mut out = Vec::new();
    for entry in m.iter() {
        out.push((*entry.key(), entry.value().clone()));
    }
    out
}

/// An in-memory alert store, keyed by identifier in a `DashMap`.
/// Identifiers start at 1 and increase.
pub struct InMemoryAlertStore {
    alerts: AlertMap,
    next_id: u64,
}

impl View for InMemoryAlertStore {
    type V = Map<u64, AlertView>;

    closed spec fn view(&self) -> Map<u64, AlertView> {
        alert_map_contents(self.alerts)
    }
}

/// Every alert is stored under its own identifier, below `next_id`.
pub open spec fn keyed_below(m: Map<u64, AlertView>, next_id: u64) -> bool {
    &&& m.dom().finite()
    &&& forall|id: u64| #[trigger] m.dom().contains(id) ==> 1 <= id < next_id && m[id].id == id
}

impl InMemoryAlertStore {
    #[verifier::type_invariant]
    spec fn wf(&self) -> bool {
        &&& self.next_id >= 1
        &&& keyed_below(alert_map_contents(self.alerts), self.next_id)
    }

    /// The identifier the next stored alert gets.
    pub closed spec fn next_id(&self) -> u64 {
        self.next_id
    }

    /// An empty store whose first identifier is 1.
    pub fn new() -> (r: InMemoryAlertStore)
        ensures
            r@ == Map::<u64, AlertView>::empty(),
            r.next_id() == 1,
    {
        InMemoryAlertStore { alerts: alert_map_new(), next_id: 1 }
    }

    /// Stores a copy of `alert` under the next identifier and returns
    /// the identifier; fails, storing nothing, once identifiers are
    /// exhausted.
    pub fn insert_alert(&mut self, alert: &Alert) -> (r: Result<u64, StorageError>)
        ensures
            match r {
                Ok(id) => {
                        &&& id == old(self).next_id()
                        &&& !old(self)@.dom().contains(id)
                        &&& final(self)@ == old(self)@.insert(id, AlertView { id, ..alert@ })
                        &&& final(self).next_id() == id + 1
                    },
                    Err(e) => {
                        &&& old(self).next_id() == u64::MAX
                        &&& final(self)@ == old(self)@
                        &&& final(self).next_id() == old(self).next_id()
                        &&& e is Internal
                    },
                },
        {
            proof {
                use_type_invariant(&*self);
            }
            if self.next_id == u64::MAX {
                return Err(StorageError::Internal(copy_str("alert identifiers exhausted")));
            }
            let id = self.next_id;
            let mut stored = alert.clone();
            stored.id = id;
            let mut alerts = alert_map_new();
            std::mem::swap(&mut alerts, &mut self.alerts);
            alert_map_insert(&mut alerts, id, stored);
            *self = InMemoryAlertStore { alerts, next_id: id + 1 };
            Ok(id)
        }

        /// A copy of the alert with identifier `id`, if stored.
        fn alert_with_id(&self, id: u64) -> (r: Option<Alert>)
            ensures
                match r {
                    Some(a) => self@.dom().contains(id) && a@ == self@[id],
                    None => !self@.dom().contains(id),
                },
        {
            alert_map_get(&self.alerts, id)
        }

        /// Marks the alert `id` acknowledged; `Internal("alert {id} not
        /// found")` when it is not stored.
        pub fn acknowledge_alert(&mut self, id: u64) -> (r: Result<(), StorageError>)
            ensures
                old(self)@.dom().contains(id) ==> r is Ok && final(self)@ == old(self)@.insert(
                    id,
                    AlertView { acknowledged: true, ..old(self)@[id] },
                ),
                !old(self)@.dom().contains(id) ==> final(self)@ == old(self)@ && (r matches Err(
                    StorageError::Internal(m),
                ) && m@ == "alert "@ + decimal(id as nat) + " not found"@),
                final(self).next_id() == old(self).next_id(),
        {
            proof {
                use_type_invariant(&*self);
            }
            match alert_map_get(&self.alerts, id) {
                Some(a) => {
                    let mut a = a;
                    a.acknowledged = true;
                    let mut alerts = alert_map_new();
                    std::mem::swap(&mut alerts, &mut self.alerts);
                    alert_map_insert(&mut alerts, id, a);
                    self.alerts = alerts;
                    Ok(())
                },
                None => {
                    let mut m = copy_str("alert ");
                    push_decimal(&mut m, id);
                    crate::text::push_str(&mut m, " not found");
                    Err(StorageError::Internal(m))
                },
            }
        }

        /// Removes the alert `id`, if stored.
        pub fn delete_alert(&mut self, id: u64) -> (r: Result<(), StorageError>)
            ensures
                r is Ok,
                final(self)@ == old(self)@.remove(id),
                final(self).next_id() == old(self).next_id(),
        {
            proof {
                use_type_invariant(&*self);
            }
            let mut alerts = alert_map_new();
            std::mem::swap(&mut alerts, &mut self.alerts);
            alert_map_remove(&mut alerts, id);
            self.alerts = alerts;
            Ok(())
        }

        /// Whether an acknowledged alert of rule `rule_name` for `mac` is
        /// stored.
        fn holds_acknowledgement(&self, rule_name: &str, mac: &MacAddress) -> (r: bool)
            ensures
                r == holds_acknowledged(self@, rule_name@, mac@),
        {
            let entries = alert_map_entries(&self.alerts);
            let ghost m = self@;
            let mut i: usize = 0;
            while i < entries.len()
                invariant
                    i <= entries@.len(),
                    m == self@,
                    forall|k: int| 0 <= k < entries@.len() ==> m.dom().contains(#[trigger] entries@[k].0) && entries@[k].1@
                        == m[entries@[k].0],
                    forall|j: int| 0 <= j < i ==> !(m[entries@[j].0].rule_name == rule_name@ && m[entries@[j].0].mac == mac@
                        && m[entries@[j].0].acknowledged),
                decreases entries@.len() - i,
            {
                let a = &entries[i].1;
                if a.acknowledged && a.mac.same(mac) && str_eq(a.rule_name.as_str(), rule_name) {
                    proof {
                        assert(m.dom().contains(entries@[i as int].0));
                    }
                    return true;
                }
                i = i + 1;
            }
            proof {
                assert forall|id: u64| #[trigger] m.dom().contains(id) implies !(m[id].rule_name == rule_name@ && m[id].mac
                    == mac@ && m[id].acknowledged) by {
                    let k = choose|k: int| 0 <= k < entries@.len() && entries@[k].0 == id;
                }
            }
            false
        }

        /// The number of stored alerts.
        fn len(&self) -> (r: usize)
            ensures
                self@.dom().finite(),
                r == self@.dom().len(),
        {
            proof {
                use_type_invariant(self);
            }
            alert_map_len(&self.alerts)
        }

        /// The stored alerts that pass `filter`, most recent first (see
        /// [`listed_before`]), at most `filter.limit` of them: the first ones
        /// in that order.
        #[verifier::rlimit(40)]
        fn listed(&self, filter: &AlertFilter) -> (r: Vec<Alert>)
            ensures
                is_listing(self@, *filter, r@),
        {
            proof {
                use_type_invariant(self);
            }
            let entries = alert_map_entries(&self.alerts);
            let ghost m = self@;
            let mut sorted: Vec<Alert> = Vec::new();
            let mut i: usize = 0;
            while i < entries.len()
                invariant
                    i <= entries@.len(),
                    m == self@,
                    keyed_below(m, self.next_id),
                    forall|k: int| 0 <= k < entries@.len() ==> m.dom().contains(#[trigger] entries@[k].0) && entries@[k].1@
                        == m[entries@[k].0],
                    forall|a: int, b: int| 0 <= a < b < entries@.len() ==> entries@[a].0 != entries@[b].0,
                    forall|a: int, b: int| 0 <= a < b < sorted@.len() ==> listed_before(sorted@[a]@, sorted@[b]@),
                    forall|k: int| 0 <= k < sorted@.len() ==> m.dom().contains((#[trigger] sorted@[k])@.id) && m[sorted@[k]@.id]
                        == sorted@[k]@ && filter_admits(*filter, sorted@[k]@),
                    forall|k: int| 0 <= k < sorted@.len() ==> exists|j: int| 0 <= j < i && entries@[j].0 == (#[trigger] sorted@[k])@.id,
                    forall|j: int| 0 <= j < i && filter_admits(*filter, m[#[trigger] entries@[j].0]) ==> exists|k: int|
                        0 <= k < sorted@.len() && sorted@[k]@ == m[entries@[j].0],
                decreases entries@.len() - i,
            {
                let a = &entries[i].1;
                proof {
                    assert(m.dom().contains(entries@[i as int].0));
                    assert(a@.id == entries@[i as int].0);
                }
                if filter_matches(filter, a) {
                    proof {
                        assert forall|k: int| 0 <= k < sorted@.len() implies (#[trigger] sorted@[k])@.id != a.id by {
                            let j = choose|j: int| 0 <= j < i && entries@[j].0 == sorted@[k]@.id;
                        }
                    }
                    let ghost old_sorted = sorted@;
                    let p = insert_sorted(&mut sorted, a);
                    proof {
                        assert forall|k: int| 0 <= k < sorted@.len() implies m.dom().contains((#[trigger] sorted@[k])@.id)
                            && m[sorted@[k]@.id] == sorted@[k]@ && filter_admits(*filter, sorted@[k]@) by {
                            if k < p {
                                assert(sorted@[k] == old_sorted[k]);
                            } else if k > p {
                                assert(sorted@[k] == old_sorted[k - 1]);
                            }
                        }
                        assert forall|k: int| 0 <= k < sorted@.len() implies exists|j: int| 0 <= j < i + 1 && entries@[j].0 == (
                        #[trigger] sorted@[k])@.id by {
                            if k < p {
                                assert(sorted@[k] == old_sorted[k]);
                                let j = choose|j: int| 0 <= j < i && entries@[j].0 == old_sorted[k]@.id;
                            } else if k > p {
                                assert(sorted@[k] == old_sorted[k - 1]);
                                let j = choose|j: int| 0 <= j < i && entries@[j].0 == old_sorted[k - 1]@.id;
                            } else {
                                assert(entries@[i as int].0 == sorted@[k]@.id);
                            }
                        }
                        assert forall|j: int| 0 <= j < i + 1 && filter_admits(*filter, m[#[trigger] entries@[j].0]) implies exists|
                            k: int,
                        | 0 <= k < sorted@.len() && sorted@[k]@ == m[entries@[j].0] by {
                            if j == i {
                                assert(sorted@[p as int]@ == m[entries@[j].0]);
                            } else {
                                let k = choose|k: int| 0 <= k < old_sorted.len() && old_sorted[k]@ == m[entries@[j].0];
                                if k < p {
                                    assert(sorted@[k] == old_sorted[k]);
                                } else {
                                    assert(sorted@[k + 1] == old_sorted[k]);
                                }
                            }
                        }
                    }
                } else {
                    proof {
                        assert(!filter_admits(*filter, m[entries@[i as int].0]));
                    }
                }
                i = i + 1;
            }
            let ghost full = sorted@;
            if let Some(n) = filter.limit {
                sorted.truncate(n);
            }
            proof {
                assert forall|id: u64| #[trigger] m.dom().contains(id) && filter_admits(*filter, m[id]) implies exists|k: int|
                    0 <= k < full.len() && full[k]@ == m[id] by {
                    let j = choose|j: int| 0 <= j < entries@.len() && entries@[j].0 == id;
                }
                lemma_listing(m, full, sorted@, *filter);
            }
            sorted
        }
    }

    impl AlertStore for InMemoryAlertStore {
        open spec fn alerts(&self) -> Map<u64, AlertView> {
            self@
        }

        open spec fn answers(&self) -> bool {
            true
        }

        open spec fn next_alert_id(&self) -> Option<u64> {
            if self.next_id() < u64::MAX {
                Some(self.next_id())
            } else {
                None
            }
        }

        fn insert_alert(&mut self, alert: &Alert) -> (res: Result<u64, StorageError>)
            ensures
                match res {
                    Ok(id) => {
                        &&& id == old(self).next_id()
                        &&& final(self).next_id() == id + 1
                    },
                    Err(e) => {
                        &&& old(self).next_id() == u64::MAX
                        &&& final(self).next_id() == old(self).next_id()
                        &&& e is Internal
                    },
                },
        {
            InMemoryAlertStore::insert_alert(self, alert)
        }

        fn list_alerts(&self, filter: &AlertFilter) -> (res: Result<Vec<Alert>, StorageError>)
            ensures
                res is Ok,
        {
            proof {
                use_type_invariant(self);
            }
            let listed = InMemoryAlertStore::listed(self, filter);
            Ok(listed)
        }

        fn get_alert(&self, id: u64) -> (res: Result<Option<Alert>, StorageError>)
            ensures
                res is Ok,
        {
            Ok(InMemoryAlertStore::alert_with_id(self, id))
        }

        fn acknowledge_alert(&mut self, id: u64) -> (res: Result<(), StorageError>)
            ensures
                old(self)@.dom().contains(id) ==> res is Ok,
                !old(self)@.dom().contains(id) ==> (res matches Err(StorageError::Internal(m)) && m@ == "alert "@
                    + decimal(id as nat) + " not found"@),
                final(self).next_id() == old(self).next_id(),
        {
            InMemoryAlertStore::acknowledge_alert(self, id)
        }

        fn delete_alert(&mut self, id: u64) -> (res: Result<(), StorageError>)
            ensures
                res is Ok,
                final(self).next_id() == old(self).next_id(),
        {
            InMemoryAlertStore::delete_alert(self, id)
        }

        fn is_acknowledged(&self, rule_name: &str, mac: &MacAddress) -> (res: Result<bool, StorageError>)
            ensures
                res is Ok,
        {
            Ok(InMemoryAlertStore::holds_acknowledgement(self, rule_name, mac))
        }

        fn count_alerts(&self) -> (res: Result<usize, StorageError>)
            ensures
                res is Ok,
        {
            Ok(InMemoryAlertStore::len(self))
        }
    }

/// The identifiers of the alerts in `m` that `filter` admits.
pub open spec fn admitted_ids(m: Map<u64, AlertView>, filter: AlertFilter) -> Set<u64> {
    m.dom().filter(|id: u64| filter_admits(filter, m[id]))
}

/// A listing holds every alert the filter admits, or as many as its
/// limit allows when more are admitted.
pub proof fn law_listing_length(m: Map<u64, AlertView>, filter: AlertFilter, v: Seq<Alert>)
    requires
        m.dom().finite(),
        is_listing(m, filter, v),
    ensures
        v.len() == match filter.limit {
            Some(n) => if n < admitted_ids(m, filter).len() {
                n as nat
            } else {
                admitted_ids(m, filter).len()
            },
            None => admitted_ids(m, filter).len(),
        },
{
    let a = admitted_ids(m, filter);
    let ids = v.map_values(|x: Alert| x@.id);
    assert forall|i: int, j: int| 0 <= i < ids.len() && 0 <= j < ids.len() && i != j implies ids[i] != ids[j] by {
        if ids[i] == ids[j] {
            assert(m[v[i]@.id] == v[i]@);
            assert(m[v[j]@.id] == v[j]@);
            if i < j {
                assert(listed_before(v[i]@, v[j]@));
            } else {
                assert(listed_before(v[j]@, v[i]@));
            }
        }
    }
    ids.unique_seq_to_set();
    let listed = ids.to_set();
    assert(listed.subset_of(a)) by {
        assert forall|id: u64| listed.contains(id) implies a.contains(id) by {
            let i = choose|i: int| 0 <= i < ids.len() && ids[i] == id;
            assert(m.dom().contains(v[i]@.id));
        }
    }
    vstd::set_lib::lemma_len_subset(listed, a);
    let limited = filter.limit matches Some(n) && v.len() == n;
    if !limited {
        assert(a.subset_of(listed)) by {
            assert forall|id: u64| a.contains(id) implies listed.contains(id) by {
                assert(m.dom().contains(id) && filter_admits(filter, m[id]));
                let i = choose|i: int| 0 <= i < v.len() && v[i]@.id == id;
                assert(ids[i] == id);
            }
        }
        vstd::set_lib::lemma_len_subset(a, listed);
    }
}

/// A listing honours each condition its filter sets: every alert listed
/// has the severity, acknowledgement state and rule name asked for; and
/// every stored alert that has them all is listed, unless the limit cut
/// the listing short.
pub proof fn law_listing_respects_filter(m: Map<u64, AlertView>, f: AlertFilter, v: Seq<Alert>)
    requires
        forall|id: u64| #[trigger] m.dom().contains(id) ==> m[id].id == id,
        is_listing(m, f, v),
    ensures
        forall|i: int|
            0 <= i < v.len() ==> {
                &&& (f.severity is Some ==> (#[trigger] v[i])@.severity == f.severity.unwrap())
                &&& (f.acknowledged is Some ==> v[i]@.acknowledged == f.acknowledged.unwrap())
                &&& (f.rule_name is Some ==> v[i]@.rule_name == f.rule_name.unwrap()@)
            },
        forall|id: u64|
            #[trigger] m.dom().contains(id) && (f.severity is Some ==> m[id].severity == f.severity.unwrap()) && (
            f.acknowledged is Some ==> m[id].acknowledged == f.acknowledged.unwrap()) && (f.rule_name is Some
                ==> m[id].rule_name == f.rule_name.unwrap()@) ==> (exists|i: int| 0 <= i < v.len() && v[i]@.id == id)
                || (f.limit is Some && v.len() == f.limit.unwrap()),
{
    assert forall|i: int| 0 <= i < v.len() implies {
        &&& (f.severity is Some ==> (#[trigger] v[i])@.severity == f.severity.unwrap())
        &&& (f.acknowledged is Some ==> v[i]@.acknowledged == f.acknowledged.unwrap())
        &&& (f.rule_name is Some ==> v[i]@.rule_name == f.rule_name.unwrap()@)
    } by {
        assert(m.dom().contains(v[i]@.id));
        assert(filter_admits(f, v[i]@));
    }
    assert forall|id: u64|
        #[trigger] m.dom().contains(id) && (f.severity is Some ==> m[id].severity == f.severity.unwrap()) && (
        f.acknowledged is Some ==> m[id].acknowledged == f.acknowledged.unwrap()) && (f.rule_name is Some
            ==> m[id].rule_name == f.rule_name.unwrap()@) implies (exists|i: int| 0 <= i < v.len() && v[i]@.id == id)
        || (f.limit is Some && v.len() == f.limit.unwrap()) by {
        assert(filter_admits(f, m[id]));
    }
}

/// Reading an alert back right after storing it gives the stored copy,
/// under its new identifier; every other alert reads as before.
pub proof fn law_get_after_insert(before: Map<u64, AlertView>, id: u64, alert: AlertView, other: u64)
    requires
        !before.dom().contains(id),
    ensures
        before.insert(id, AlertView { id, ..alert }).dom().contains(id),
        before.insert(id, AlertView { id, ..alert })[id] == (AlertView { id, ..alert }),
        other != id ==> (before.insert(id, AlertView { id, ..alert }).dom().contains(other) == before.dom().contains(
            other)),
        other != id && before.dom().contains(other) ==> before.insert(id, AlertView { id, ..alert })[other]
            == before[other],
        before.insert(id, AlertView { id, ..alert }).dom().len() == before.dom().len() + 1 || !before.dom().finite(),
{
    if before.dom().finite() {
        assert(before.insert(id, AlertView { id, ..alert }).dom() =~= before.dom().insert(id));
    }
}

/// After an alert is deleted it can no longer be read, and the count
/// drops by one when it was stored.
pub proof fn law_get_after_delete(before: Map<u64, AlertView>, id: u64)
    requires
        before.dom().finite(),
    ensures
        !before.remove(id).dom().contains(id),
        before.dom().contains(id) ==> before.remove(id).dom().len() == before.dom().len() - 1,
        !before.dom().contains(id) ==> before.remove(id) == before,
{
    assert(before.remove(id).dom() =~= before.dom().remove(id));
    if !before.dom().contains(id) {
        assert(before.remove(id) =~= before);
    }
}

/// Once a stored alert is acknowledged, its rule and device count as
/// acknowledged.
pub proof fn law_acknowledged_after_acknowledge(before: Map<u64, AlertView>, id: u64)
    requires
        before.dom().contains(id),
    ensures
        holds_acknowledged(
            before.insert(id, AlertView { acknowledged: true, ..before[id] }),
            before[id].rule_name,
            before[id].mac,
        ),
{
    let after = before.insert(id, AlertView { acknowledged: true, ..before[id] });
    assert(after.dom().contains(id));
}

/// What the listing loop establishes gives the listing's contract.
#[verifier::rlimit(30)]
proof fn lemma_listing(m: Map<u64, AlertView>, full: Seq<Alert>, out: Seq<Alert>, filter: AlertFilter)
    requires
        forall|id: u64| #[trigger] m.dom().contains(id) ==> m[id].id == id,
        forall|a: int, b: int| 0 <= a < b < full.len() ==> listed_before(full[a]@, full[b]@),
        forall|k: int| 0 <= k < full.len() ==> m.dom().contains((#[trigger] full[k])@.id) && m[full[k]@.id] == full[k]@
            && filter_admits(filter, full[k]@),
        forall|id: u64| #[trigger] m.dom().contains(id) && filter_admits(filter, m[id]) ==> exists|k: int| 0 <= k < full.len()
            && full[k]@ == m[id],
        match filter.limit {
            Some(n) => if n <= full.len() {
                out == full.subrange(0, n as int)
            } else {
                out == full
            },
            None => out == full,
        },
    ensures
        is_listing(m, filter, out),
{
    assert forall|i: int, j: int| 0 <= i < j < out.len() implies listed_before(out[i]@, out[j]@) by {
        assert(out[i] == full[i] && out[j] == full[j]);
    }
    assert forall|i: int| 0 <= i < out.len() implies m.dom().contains(#[trigger] out[i]@.id) && m[out[i]@.id] == out[i]@
        && filter_admits(filter, out[i]@) by {
        assert(out[i] == full[i]);
    }
    assert forall|id: u64| #[trigger] m.dom().contains(id) && filter_admits(filter, m[id]) implies (exists|i: int|
        0 <= i < out.len() && out[i]@.id == id) || (filter.limit matches Some(n) && out.len() == n && (n == 0
        || listed_before(out[n - 1]@, m[id]))) by {
        let k = choose|k: int| 0 <= k < full.len() && full[k]@ == m[id];
        if k < out.len() {
            assert(out[k] == full[k]);
        } else {
            let n = filter.limit.unwrap();
            if n > 0 {
                assert(out[n - 1] == full[n - 1]);
            }
        }
    }
}

/// Inserts a copy of `a` into a list ordered by [`listed_before`], at
/// the position that keeps it ordered, and returns that position.
fn insert_sorted(sorted: &mut Vec<Alert>, a: &Alert) -> (p: usize)
    requires
        forall|x: int, y: int| 0 <= x < y < old(sorted)@.len() ==> listed_before(old(sorted)@[x]@, old(sorted)@[y]@),
        forall|k: int| 0 <= k < old(sorted)@.len() ==> (#[trigger] old(sorted)@[k])@.id != a.id,
    ensures
        p <= old(sorted)@.len(),
        final(sorted)@.len() == old(sorted)@.len() + 1,
        forall|k: int| 0 <= k < p ==> final(sorted)@[k] == old(sorted)@[k],
        final(sorted)@[p as int]@ == a@,
        forall|k: int| p < k < final(sorted)@.len() ==> final(sorted)@[k] == old(sorted)@[k - 1],
        forall|x: int, y: int| 0 <= x < y < final(sorted)@.len() ==> listed_before(final(sorted)@[x]@, final(sorted)@[y]@),
{
    let mut p: usize = 0;
    while p < sorted.len() && !listed_first(a, &sorted[p])
        invariant
            p <= sorted@.len(),
            sorted@ == old(sorted)@,
            forall|k: int| 0 <= k < sorted@.len() ==> (#[trigger] sorted@[k])@.id != a.id,
            forall|k: int| 0 <= k < p ==> listed_before((#[trigger] sorted@[k])@, a@),
        decreases sorted@.len() - p,
    {
        assert(sorted@[p as int]@.id != a.id);
        p = p + 1;
    }
    let ghost old_sorted = sorted@;
    sorted.insert(p, a.clone());
    proof {
        assert forall|x: int, y: int| 0 <= x < y < sorted@.len() implies listed_before(sorted@[x]@, sorted@[y]@) by {
            if y < p {
                assert(sorted@[x] == old_sorted[x] && sorted@[y] == old_sorted[y]);
            } else if y == p {
                assert(sorted@[x] == old_sorted[x]);
            } else if x < p {
                assert(sorted@[x] == old_sorted[x] && sorted@[y] == old_sorted[y - 1]);
            } else if x == p {
                assert(sorted@[y] == old_sorted[y - 1]);
                if y - 1 > p {
                    assert(listed_before(old_sorted[p as int]@, old_sorted[y - 1]@));
                }
            } else {
                assert(sorted@[x] == old_sorted[x - 1] && sorted@[y] == old_sorted[y - 1]);
            }
        }
    }
    p
}

/// Whether `a` comes before `b` in a listing (see [`listed_before`]).
fn listed_first(a: &Alert, b: &Alert) -> (r: bool)
    ensures
        r == listed_before(a@, b@),
{
    a.timestamp.is_after(&b.timestamp) || (a.timestamp.millis == b.timestamp.millis && a.timestamp.nanos == b.timestamp.nanos
        && a.id > b.id)
}

} // verus!
