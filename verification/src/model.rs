//! The records the scanner reports and stores.

use vstd::prelude::*;
use crate::textmap::TextMap;

verus! {

/// A scannable IPv4 network and what identifies it.
#[derive(Debug, Clone)]
pub struct NetworkInfo {
    pub interface_name: String,
    pub local_ip: String,
    pub cidr: String,
    pub prefix: u8,
    pub gateway: Option<String>,
    pub host_count: u32,
    pub fingerprint: String,
    pub display_name: Option<String>,
    pub auto_name: String,
    pub media: String,
    pub ssid: Option<String>,
    pub search_domain: Option<String>,
    pub external_ip: Option<String>,
    pub db_id: Option<i64>,
}

/// A device seen on a network.
#[derive(Debug, Clone)]
pub struct Device {
    pub ip: String,
    pub mac: Option<String>,
    pub hostname: Option<String>,
    pub vendor: Option<String>,
    pub nickname: Option<String>,
    pub online: bool,
    pub last_seen: i64,
    pub is_gateway: bool,
    pub is_local: bool,
}

/// Progress of a running scan.
#[derive(Debug, Clone)]
pub struct ScanProgress {
    pub checked: u32,
    pub total: u32,
    pub found: u32,
    pub phase: String,
}

/// The outcome of a scan.
#[derive(Debug, Clone)]
pub struct ScanResult {
    pub network: NetworkInfo,
    pub devices: Vec<Device>,
    pub cancelled: bool,
}

/// A stored network.
#[derive(Debug, Clone)]
pub struct NetworkRecord {
    pub id: i64,
    pub fingerprint: String,
    pub display_name: Option<String>,
    pub auto_name: String,
    pub media: String,
    pub ssid: Option<String>,
    pub search_domain: Option<String>,
    pub interface_name: String,
    pub cidr: String,
    pub gateway: Option<String>,
    pub local_ip: String,
    pub external_ip: Option<String>,
    pub last_seen_at: i64,
}

/// One entry of the scan history.
#[derive(Debug, Clone)]
pub struct ScanRunSummary {
    pub id: i64,
    pub network_id: i64,
    pub network_name: String,
    pub started_at: i64,
    pub finished_at: i64,
    pub interface_name: String,
    pub local_ip: String,
    pub cidr: String,
    pub gateway: Option<String>,
    pub external_ip: Option<String>,
    pub device_count: i64,
    pub online_count: i64,
    pub cancelled: bool,
}

/// A history entry with the devices it saw.
#[derive(Debug, Clone)]
pub struct ScanRunDetail {
    pub run: ScanRunSummary,
    pub devices: Vec<Device>,
}

/// The legacy JSON store: nicknames keyed by MAC when known, otherwise IP,
/// and the last known devices.
#[derive(Debug)]
pub struct DeviceStoreData {
    pub nicknames: TextMap,
    pub devices: Vec<(String, Device)>,
}

pub open spec fn opt_seq(o: Option<String>) -> Option<Seq<char>> {
    match o {
        Some(s) => Some(s@),
        None => None,
    }
}

pub fn copy_opt(o: &Option<String>) -> (r: Option<String>)
    ensures
        opt_seq(r) == opt_seq(*o),
{
    match o {
        Some(s) => Some(s.clone()),
        None => None,
    }
}

/// The two devices hold the same values.
pub open spec fn same_device(a: Device, b: Device) -> bool {
    &&& a.ip@ == b.ip@
    &&& opt_seq(a.mac) == opt_seq(b.mac)
    &&& opt_seq(a.hostname) == opt_seq(b.hostname)
    &&& opt_seq(a.vendor) == opt_seq(b.vendor)
    &&& opt_seq(a.nickname) == opt_seq(b.nickname)
    &&& a.online == b.online
    &&& a.last_seen == b.last_seen
    &&& a.is_gateway == b.is_gateway
    &&& a.is_local == b.is_local
}

pub fn copy_device(d: &Device) -> (r: Device)
    ensures
        same_device(r, *d),
{
    Device {
        ip: d.ip.clone(),
        mac: copy_opt(&d.mac),
        hostname: copy_opt(&d.hostname),
        vendor: copy_opt(&d.vendor),
        nickname: copy_opt(&d.nickname),
        online: d.online,
        last_seen: d.last_seen,
        is_gateway: d.is_gateway,
        is_local: d.is_local,
    }
}

} // verus!
