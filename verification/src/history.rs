//! Daily snapshots of device records, kept to show how a device changed
//! over time.

use vstd::prelude::*;

use crate::error::StorageError;
use crate::types::{clone_opt_str, opt_str_view, Device, DeviceView, IpSet, MacAddress, ProtocolSet, ProtocolStats, Timestamp};

verus! {

/// A device record as it was on one day.
#[derive(Debug, Clone)]
pub struct DeviceHistorySnapshot {
    pub mac: MacAddress,
    /// The day, `YYYY-MM-DD`.
    pub snapshot_date: String,
    /// When the snapshot was taken.
    pub snapshot_timestamp: Timestamp,
    pub ips: IpSet,
    pub hostname: Option<String>,
    pub vendor: Option<String>,
    pub dhcp_vendor_class: Option<String>,
    pub packet_count: u64,
    pub bytes_sent: u64,
    pub bytes_received: u64,
    pub protocols: ProtocolSet,
    pub protocol_stats: ProtocolStats,
    pub first_seen: Timestamp,
    pub last_seen: Timestamp,
}

/// Whether a snapshot records `d` as it was, on `date`.
pub open spec fn snapshot_of(s: DeviceHistorySnapshot, d: DeviceView, date: Seq<char>) -> bool {
    &&& s.mac@ == d.mac
    &&& s.snapshot_date@ == date
    &&& s.ips@ == d.ips
    &&& opt_str_view(s.hostname) == d.hostname
    &&& opt_str_view(s.vendor) == d.vendor
    &&& opt_str_view(s.dhcp_vendor_class) == d.dhcp_vendor_class
    &&& s.packet_count == d.packet_count
    &&& s.bytes_sent == d.bytes_sent
    &&& s.bytes_received == d.bytes_received
    &&& s.protocols@ == d.protocols
    &&& s.protocol_stats@ == d.protocol_stats
    &&& s.first_seen == d.first_seen
    &&& s.last_seen == d.last_seen
}

impl DeviceHistorySnapshot {
    /// A snapshot of `device` for `snapshot_date`, taken at `now`.
    pub fn from_device_at(device: &Device, snapshot_date: String, now: Timestamp) -> (r: DeviceHistorySnapshot)
        ensures
            snapshot_of(r, device@, snapshot_date@),
            r.snapshot_timestamp == now,
    {
        DeviceHistorySnapshot {
            mac: device.mac,
            snapshot_date,
            snapshot_timestamp: now,
            ips: device.ips.clone(),
            hostname: clone_opt_str(&device.hostname),
            vendor: clone_opt_str(&device.vendor),
            dhcp_vendor_class: clone_opt_str(&device.dhcp_vendor_class),
            packet_count: device.packet_count,
            bytes_sent: device.bytes_sent,
            bytes_received: device.bytes_received,
            protocols: device.protocols.clone(),
            protocol_stats: device.protocol_stats.clone(),
            first_seen: device.first_seen,
            last_seen: device.last_seen,
        }
    }

    /// A snapshot of `device` for `snapshot_date`, taken now.
    pub fn from_device(device: &Device, snapshot_date: String) -> (r: DeviceHistorySnapshot)
        ensures
            snapshot_of(r, device@, snapshot_date@),
    {
        DeviceHistorySnapshot::from_device_at(device, snapshot_date, Timestamp::now())
    }
}

/// A storage backend for device history snapshots.
pub trait DeviceHistoryStore {
    /// Stores a snapshot, replacing the one of the same device and day.
    fn insert_snapshot(&mut self, snapshot: &DeviceHistorySnapshot) -> Result<(), StorageError>;

    /// A device's snapshots between two dates (`YYYY-MM-DD`, inclusive,
    /// each bound optional), oldest first, at most `limit` of them.
    fn list_history(&self, mac: &MacAddress, from: Option<&str>, to: Option<&str>, limit: Option<usize>) -> Result<
        Vec<DeviceHistorySnapshot>,
        StorageError,
    >;

    /// Deletes the snapshots of days before `before_date`; returns how
    /// many were deleted.
    fn delete_before(&mut self, before_date: &str) -> Result<usize, StorageError>;

    /// Returns freed space to the file system, where the backend allows.
    fn vacuum(&mut self) -> Result<(), StorageError>;
}

} // verus!
