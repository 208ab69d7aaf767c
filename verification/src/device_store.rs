//! Device persistence: the storage interface, and an in-memory store
//! kept in a `dashmap::DashMap` keyed by the 48-bit MAC address.

use vstd::prelude::*;

use dashmap::DashMap;

use crate::error::StorageError;
use crate::types::{Device, DeviceView, MacAddress};

verus! {

#[verifier::external_type_specification]
#[verifier::external_body]
#[verifier::reject_recursive_types(K)]
#[verifier::reject_recursive_types(V)]
#[verifier::reject_recursive_types(S)]
pub struct ExDashMap<K, V, S>(dashmap::DashMap<K, V, S>);

/// The map of devices by key that a memory store keeps.
pub type DeviceMap = DashMap<u64, Device>;

/// The devices a device map holds, by key.
pub uninterp spec fn device_map_contents(m: DeviceMap) -> Map<u64, DeviceView>;

/// The empty map of devices.
pub open spec fn no_devices() -> Map<u64, DeviceView> {
    Map::empty()
}

/// An empty map (`DashMap::new`).
#[verifier::external_body]
fn device_map_new() -> (r: DeviceMap)
    ensures
        device_map_contents(r) == no_devices(),
{
    DashMap::new()
}

/// Inserts `device` under `key`, replacing any device there
/// (`DashMap::insert`).
#[verifier::external_body]
fn device_map_insert(m: &mut DeviceMap, key: u64, device: Device)
    ensures
        device_map_contents(*final(m)) == device_map_contents(*old(m)).insert(key, device@),
{
    m.insert(key, device);
}

/// A copy of the device under `key` (`DashMap::get`, then `Device`'s
/// own clone).
#[verifier::external_body]
fn device_map_get(m: &DeviceMap, key: u64) -> (r: Option<Device>)
    ensures
        match r {
            Some(d) => device_map_contents(*m).dom().contains(key) && d@ == device_map_contents(*m)[key],
            None => !device_map_contents(*m).dom().contains(key),
        },
{
    match m.get(&key) {
        Some(entry) => Some(entry.value().clone()),
        None => None,
    }
}

/// The number of keys (`DashMap::len`).
#[verifier::external_body]
fn device_map_len(m: &DeviceMap) -> (r: usize)
    ensures
        r == device_map_contents(*m).dom().len(),
{
    m.len()
}

/// Copies of every entry, each key once, in the map's own order
/// (`DashMap::iter`).
#[verifier::external_body]
fn device_map_entries(m: &DeviceMap) -> (r: Vec<(u64, Device)>)
    ensures
        r@.len() == device_map_contents(*m).dom().len(),
        forall|i: int| 0 <= i < r@.len() ==> device_map_contents(*m).dom().contains(#[trigger] r@[i].0) && r@[i].1@
            == device_map_contents(*m)[r@[i].0],
        forall|i: int, j: int| 0 <= i < j < r@.len() ==> r@[i].0 != r@[j].0,
{
    let mut out = Vec::new();
    for entry in m.iter() {
        out.push((*entry.key(), entry.value().clone()));
    }
    out
}

/// The 48-bit number of a MAC address, first octet most significant.
pub open spec fn mac_key(mac: Seq<u8>) -> u64 {
    (mac[0] as int * 0x100_0000_0000 + mac[1] as int * 0x1_0000_0000 + mac[2] as int * 0x100_0000 + mac[3] as int
        * 0x1_0000 + mac[4] as int * 0x100 + mac[5] as int) as u64
}

impl MacAddress {
    /// The 48-bit number of the address (see [`mac_key`]).
    pub fn key(&self) -> (r: u64)
        ensures
            r == mac_key(self@),
    {
        (self.octets[0] as u64) * 0x100_0000_0000 + (self.octets[1] as u64) * 0x1_0000_0000 + (self.octets[2] as u64)
            * 0x100_0000 + (self.octets[3] as u64) * 0x1_0000 + (self.octets[4] as u64) * 0x100 + (self.octets[5] as u64)
    }
}

/// A storage backend for device records. Its contents are seen in
/// contracts as a map from the number of each device's MAC address (see
/// [`mac_key`]) to the device ([`DeviceStore::devices`]); a failing call
/// changes nothing.
pub trait DeviceStore {
    /// The stored devices, by the number of their MAC address.
    spec fn devices(&self) -> Map<u64, DeviceView>;

    /// Whether the store answers every call without failing.
    spec fn answers(&self) -> bool;

    /// The device with this MAC address, if stored.
    fn get(&self, mac: &MacAddress) -> (r: Result<Option<Device>, StorageError>)
        ensures
            r matches Ok(o) ==> match o {
                Some(d) => self.devices().dom().contains(mac_key(mac@)) && d@ == self.devices()[mac_key(mac@)],
                None => !self.devices().dom().contains(mac_key(mac@)),
            },
            self.answers() ==> r is Ok,
    ;

    /// Stores `device`, replacing any device with its MAC address.
    fn upsert(&mut self, device: Device) -> (r: Result<(), StorageError>)
        ensures
            r is Ok ==> final(self).devices() == old(self).devices().insert(mac_key(device.mac@), device@),
            r is Err ==> final(self).devices() == old(self).devices(),
            old(self).answers() ==> r is Ok,
            final(self).answers() == old(self).answers(),
    ;

    /// Every stored device, each once.
    fn list(&self) -> (r: Result<Vec<Device>, StorageError>)
        ensures
            r matches Ok(v) ==> {
                &&& v@.len() == self.devices().dom().len()
                &&& forall|i: int| 0 <= i < v@.len() ==> self.devices().dom().contains(mac_key((#[trigger] v@[i])@.mac))
                    && v@[i]@ == self.devices()[mac_key(v@[i]@.mac)]
                &&& forall|i: int, j: int| 0 <= i < j < v@.len() ==> mac_key(v@[i]@.mac) != mac_key(v@[j]@.mac)
            },
            self.answers() ==> r is Ok,
    ;

    /// The number of stored devices.
    fn count(&self) -> (r: Result<usize, StorageError>)
        ensures
            r matches Ok(n) ==> n == self.devices().dom().len(),
            self.answers() ==> r is Ok,
    ;
}

/// An in-memory device store.
pub struct MemoryStore {
    devices: DeviceMap,
}

impl View for MemoryStore {
    type V = Map<u64, DeviceView>;

    closed spec fn view(&self) -> Map<u64, DeviceView> {
        device_map_contents(self.devices)
    }
}

/// Every device is stored under its own MAC address's number.
pub open spec fn keyed_by_mac(m: Map<u64, DeviceView>) -> bool {
    forall|k: u64| #[trigger] m.dom().contains(k) ==> k == mac_key(m[k].mac)
}

impl MemoryStore {
    #[verifier::type_invariant]
    spec fn wf(&self) -> bool {
        keyed_by_mac(device_map_contents(self.devices))
    }

    /// An empty store.
    pub fn new() -> (r: MemoryStore)
        ensures
            r@ == Map::<u64, DeviceView>::empty(),
    {
        MemoryStore { devices: device_map_new() }
    }

    /// A copy of the device with address `mac`, if stored.
    fn device(&self, mac: &MacAddress) -> (r: Option<Device>)
        ensures
            match r {
                Some(d) => self@.dom().contains(mac_key(mac@)) && d@ == self@[mac_key(mac@)],
                None => !self@.dom().contains(mac_key(mac@)),
            },
    {
        device_map_get(&self.devices, mac.key())
    }

    /// Stores `device` under its MAC address, replacing any device there.
    pub fn upsert(&mut self, device: Device) -> (r: Result<(), StorageError>)
        ensures
            r is Ok,
            final(self)@ == old(self)@.insert(mac_key(device.mac@), device@),
    {
        proof {
            use_type_invariant(&*self);
        }
        let key = device.mac.key();
        let mut devices = device_map_new();
        std::mem::swap(&mut devices, &mut self.devices);
        device_map_insert(&mut devices, key, device);
        self.devices = devices;
        Ok(())
    }

    /// The number of stored devices.
    fn len(&self) -> (r: usize)
        ensures
            r == self@.dom().len(),
    {
        device_map_len(&self.devices)
    }

    /// Every stored device, by ascending MAC address.
    fn sorted_devices(&self) -> (r: Vec<Device>)
        ensures
            r@.len() == self@.dom().len(),
            forall|i: int| 0 <= i < r@.len() ==> self@.dom().contains(mac_key((#[trigger] r@[i])@.mac)) && r@[i]@
                == self@[mac_key(r@[i]@.mac)],
            forall|i: int, j: int| 0 <= i < j < r@.len() ==> mac_key(r@[i]@.mac) < mac_key(r@[j]@.mac),
    {
        proof {
            use_type_invariant(self);
        }
        let entries = device_map_entries(&self.devices);
        let ghost m = self@;
        let mut out: Vec<(u64, Device)> = Vec::new();
        let mut i: usize = 0;
        while i < entries.len()
            invariant
                i <= entries@.len(),
                m == self@,
                keyed_by_mac(m),
                forall|k: int| 0 <= k < entries@.len() ==> m.dom().contains(#[trigger] entries@[k].0) && entries@[k].1@
                    == m[entries@[k].0],
                forall|a: int, b: int| 0 <= a < b < entries@.len() ==> entries@[a].0 != entries@[b].0,
                out@.len() == i,
                forall|k: int| 0 <= k < out@.len() ==> m.dom().contains(#[trigger] out@[k].0) && out@[k].1@ == m[out@[k].0],
                forall|a: int, b: int| 0 <= a < b < out@.len() ==> out@[a].0 < out@[b].0,
                forall|k: int| 0 <= k < out@.len() ==> exists|j: int| 0 <= j < i && entries@[j].0 == (#[trigger] out@[k]).0,
            decreases entries@.len() - i,
        {
            let key = entries[i].0;
            let device = entries[i].1.clone();
            proof {
                assert forall|k: int| 0 <= k < out@.len() implies (#[trigger] out@[k]).0 != key by {
                    let j = choose|j: int| 0 <= j < i && entries@[j].0 == out@[k].0;
                }
            }
            let mut p: usize = 0;
            while p < out.len() && out[p].0 < key
                invariant
                    p <= out@.len(),
                    forall|k: int| 0 <= k < p ==> (#[trigger] out@[k]).0 < key,
                decreases out@.len() - p,
            {
                p = p + 1;
            }
            let ghost old_out = out@;
            out.insert(p, (key, device));
            proof {
                assert forall|a: int, b: int| 0 <= a < b < out@.len() implies out@[a].0 < out@[b].0 by {
                    if b < p {
                        assert(out@[a] == old_out[a] && out@[b] == old_out[b]);
                    } else if b == p {
                        assert(out@[a] == old_out[a]);
                    } else if a < p {
                        assert(out@[a] == old_out[a] && out@[b] == old_out[b - 1]);
                    } else if a == p {
                        assert(out@[b] == old_out[b - 1]);
                        assert(old_out[p as int].0 != key);
                    } else {
                        assert(out@[a] == old_out[a - 1] && out@[b] == old_out[b - 1]);
                    }
                }
                assert forall|k: int| 0 <= k < out@.len() implies m.dom().contains(#[trigger] out@[k].0) && out@[k].1@
                    == m[out@[k].0] by {
                    if k < p {
                        assert(out@[k] == old_out[k]);
                    } else if k > p {
                        assert(out@[k] == old_out[k - 1]);
                    }
                }
                assert forall|k: int| 0 <= k < out@.len() implies exists|j: int| 0 <= j < i + 1 && entries@[j].0 == (
                #[trigger] out@[k]).0 by {
                    if k < p {
                        assert(out@[k] == old_out[k]);
                        let j = choose|j: int| 0 <= j < i && entries@[j].0 == old_out[k].0;
                    } else if k == p {
                    } else {
                        assert(out@[k] == old_out[k - 1]);
                        let j = choose|j: int| 0 <= j < i && entries@[j].0 == old_out[k - 1].0;
                    }
                }
            }
            i = i + 1;
        }
        let mut devices: Vec<Device> = Vec::new();
        let mut k: usize = 0;
        while k < out.len()
            invariant
                k <= out@.len(),
                keyed_by_mac(m),
                m == self@,
                forall|x: int| 0 <= x < out@.len() ==> m.dom().contains(#[trigger] out@[x].0) && out@[x].1@ == m[out@[x].0],
                forall|a: int, b: int| 0 <= a < b < out@.len() ==> out@[a].0 < out@[b].0,
                devices@.len() == k,
                forall|x: int| 0 <= x < k ==> (#[trigger] devices@[x])@ == out@[x].1@,
            decreases out@.len() - k,
        {
            devices.push(out[k].1.clone());
            k = k + 1;
        }
        proof {
            assert forall|x: int| 0 <= x < devices@.len() implies mac_key((#[trigger] devices@[x])@.mac) == out@[x].0 by {
                assert(m.dom().contains(out@[x].0));
            }
        }
        devices
    }
}

impl DeviceStore for MemoryStore {
    open spec fn devices(&self) -> Map<u64, DeviceView> {
        self@
    }

    open spec fn answers(&self) -> bool {
        true
    }

    fn get(&self, mac: &MacAddress) -> (res: Result<Option<Device>, StorageError>)
        ensures
            match res {
                Ok(o) => match o {
                    Some(d) => self@.dom().contains(mac_key(mac@)) && d@ == self@[mac_key(mac@)],
                    None => !self@.dom().contains(mac_key(mac@)),
                },
                Err(_) => false,
            },
    {
        Ok(MemoryStore::device(self, mac))
    }

    fn upsert(&mut self, device: Device) -> (res: Result<(), StorageError>)
        ensures
            res is Ok,
            final(self)@ == old(self)@.insert(mac_key(device.mac@), device@),
    {
        MemoryStore::upsert(self, device)
    }

    fn list(&self) -> (res: Result<Vec<Device>, StorageError>)
        ensures
            match res {
                Ok(v) => {
                    &&& v@.len() == self@.dom().len()
                    &&& forall|i: int| 0 <= i < v@.len() ==> self@.dom().contains(mac_key((#[trigger] v@[i])@.mac)) && v@[i]@
                        == self@[mac_key(v@[i]@.mac)]
                    &&& forall|i: int, j: int| 0 <= i < j < v@.len() ==> mac_key(v@[i]@.mac) < mac_key(v@[j]@.mac)
                },
                Err(_) => false,
            },
    {
        Ok(MemoryStore::sorted_devices(self))
    }

    fn count(&self) -> (res: Result<usize, StorageError>)
        ensures
            match res {
                Ok(n) => n == self@.dom().len(),
                Err(_) => false,
            },
    {
        Ok(MemoryStore::len(self))
    }
}

/// Reading a device right after storing it gives the stored record;
/// storing again under the same address replaces it without changing
/// the count.
pub proof fn law_get_after_upsert(before: Map<u64, DeviceView>, d: DeviceView, e: DeviceView)
    requires
        before.dom().finite(),
        mac_key(e.mac) == mac_key(d.mac),
    ensures
        before.insert(mac_key(d.mac), d)[mac_key(d.mac)] == d,
        before.insert(mac_key(d.mac), d).insert(mac_key(e.mac), e) == before.insert(mac_key(e.mac), e),
        before.insert(mac_key(d.mac), d).dom().len() == before.insert(mac_key(d.mac), d).insert(
            mac_key(e.mac),
            e,
        ).dom().len(),
        before.dom().contains(mac_key(d.mac)) ==> before.insert(mac_key(d.mac), d).dom().len() == before.dom().len(),
        !before.dom().contains(mac_key(d.mac)) ==> before.insert(mac_key(d.mac), d).dom().len() == before.dom().len()
            + 1,
{
    let k = mac_key(d.mac);
    assert(before.insert(k, d).insert(k, e) =~= before.insert(k, e));
    assert(before.insert(k, d).dom() =~= before.insert(k, e).dom());
    if before.dom().contains(k) {
        assert(before.insert(k, d).dom() =~= before.dom());
    }
}

/// Distinct MAC addresses have distinct keys.
pub proof fn lemma_mac_key_injective(a: Seq<u8>, b: Seq<u8>)
    requires
        a.len() == 6,
        b.len() == 6,
        mac_key(a) == mac_key(b),
    ensures
        a == b,
{
    let (a0, a1, a2, a3, a4, a5) = (a[0], a[1], a[2], a[3], a[4], a[5]);
    let (b0, b1, b2, b3, b4, b5) = (b[0], b[1], b[2], b[3], b[4], b[5]);
    assert(a0 == b0 && a1 == b1 && a2 == b2 && a3 == b3 && a4 == b4 && a5 == b5) by (nonlinear_arith)
        requires
            (a0 as int * 0x100_0000_0000 + a1 as int * 0x1_0000_0000 + a2 as int * 0x100_0000 + a3 as int * 0x1_0000
                + a4 as int * 0x100 + a5 as int) as u64 == (b0 as int * 0x100_0000_0000 + b1 as int * 0x1_0000_0000
                + b2 as int * 0x100_0000 + b3 as int * 0x1_0000 + b4 as int * 0x100 + b5 as int) as u64,
    ;
    assert(a =~= b);
}

} // verus!
