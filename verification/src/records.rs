//! The rules between live networks and devices and what is stored of them:
//! names kept from user input, device keys, nickname lookup, and merging a
//! stored network record into a live network.

use vstd::prelude::*;
use crate::text::{chars_of, lemma_trim_idempotent, parse_uint, parse_uint_chars, split_chars, split_on, string_of, trim, trimmed, views_of};
use crate::textmap::TextMap;
use crate::model::{copy_opt, opt_seq, Device, NetworkInfo, NetworkRecord};

verus! {

/// A user-supplied name as it is stored: trimmed, and absent when blank.
pub open spec fn stored_name_of(o: Option<Seq<char>>) -> Option<Seq<char>> {
    match o {
        Some(s) => if trim(s).len() > 0 {
            Some(trim(s))
        } else {
            None
        },
        None => None,
    }
}

/// Storing a name that was stored before keeps it as it is.
pub proof fn lemma_stored_name_stable(o: Option<Seq<char>>)
    ensures
        stored_name_of(stored_name_of(o)) == stored_name_of(o),
{
    match o {
        Some(s) => {
            lemma_trim_idempotent(s);
        },
        None => {},
    }
}

/// A nickname or network name as it is stored: trimmed; a blank or missing
/// name clears the stored one.
pub fn stored_name(name: Option<String>) -> (r: Option<String>)
    ensures
        opt_seq(r) == stored_name_of(opt_seq(name)),
{
    match name {
        Some(s) => {
            let c = chars_of(s.as_str());
            let t = trimmed(c.as_slice());
            if t.len() > 0 {
                Some(string_of(t))
            } else {
                None
            }
        },
        None => None,
    }
}

/// The key a device is remembered by: its MAC when known, otherwise its IP.
pub open spec fn device_key_of(d: Device) -> Seq<char> {
    match d.mac {
        Some(m) => m@,
        None => d.ip@,
    }
}

pub fn device_key(d: &Device) -> (r: String)
    ensures
        r@ == device_key_of(*d),
{
    match &d.mac {
        Some(m) => m.clone(),
        None => d.ip.clone(),
    }
}

/// The nickname of a device: the one stored under its key, else the one
/// stored under its IP.
pub open spec fn nickname_of(nicknames: Map<Seq<char>, Seq<char>>, key: Seq<char>, ip: Seq<char>) -> Option<
    Seq<char>,
> {
    if nicknames.contains_key(key) {
        Some(nicknames[key])
    } else if nicknames.contains_key(ip) {
        Some(nicknames[ip])
    } else {
        None
    }
}

pub fn resolve_nickname(nicknames: &TextMap, key: &str, ip: &str) -> (r: Option<String>)
    ensures
        opt_seq(r) == nickname_of(nicknames@, key@, ip@),
{
    match nicknames.get(key) {
        Some(n) => Some(n.clone()),
        None => match nicknames.get(ip) {
            Some(n) => Some(n.clone()),
            None => None,
        },
    }
}

/// Number of online devices.
pub open spec fn online_total(s: Seq<Device>) -> nat
    decreases s.len(),
{
    if s.len() == 0 {
        0
    } else {
        online_total(s.drop_last()) + if s.last().online {
            1nat
        } else {
            0nat
        }
    }
}

pub fn count_online(devices: &[Device]) -> (n: usize)
    ensures
        n == online_total(devices@),
{
    let mut n: usize = 0;
    for i in 0..devices.len()
        invariant
            n == online_total(devices@.take(i as int)),
            n <= i,
    {
        assert(devices@.take(i + 1).drop_last() =~= devices@.take(i as int));
        if devices[i].online {
            n = n + 1;
        }
    }
    assert(devices@.take(devices.len() as int) =~= devices@);
    n
}

/// The name shown for a stored network: its own name, else the automatic one.
pub open spec fn record_name_of(r: NetworkRecord) -> Seq<char> {
    match r.display_name {
        Some(n) => n@,
        None => r.auto_name@,
    }
}

pub fn record_display_name(r: &NetworkRecord) -> (s: String)
    ensures
        s@ == record_name_of(*r),
{
    match &r.display_name {
        Some(n) => n.clone(),
        None => r.auto_name.clone(),
    }
}

/// The fields that describe a network's addressing and identity.
pub open spec fn same_identity(a: NetworkInfo, b: NetworkInfo) -> bool {
    &&& a.interface_name@ == b.interface_name@
    &&& a.local_ip@ == b.local_ip@
    &&& a.cidr@ == b.cidr@
    &&& a.prefix == b.prefix
    &&& opt_seq(a.gateway) == opt_seq(b.gateway)
    &&& a.host_count == b.host_count
    &&& a.fingerprint@ == b.fingerprint@
    &&& a.auto_name@ == b.auto_name@
    &&& a.media@ == b.media@
    &&& opt_seq(a.ssid) == opt_seq(b.ssid)
    &&& opt_seq(a.search_domain) == opt_seq(b.search_domain)
}

/// A live network with what the store knows of it: the stored id and name,
/// and the stored external address when the live one is unknown. A network
/// the store does not know is shown under its automatic name.
pub fn apply_record(info: NetworkInfo, record: Option<&NetworkRecord>) -> (r: NetworkInfo)
    ensures
        same_identity(r, info),
        match record {
            Some(rec) => {
                &&& r.db_id == Some(rec.id)
                &&& opt_seq(r.display_name) == Some(record_name_of(*rec))
                &&& opt_seq(r.external_ip) == (if info.external_ip is None {
                    opt_seq(rec.external_ip)
                } else {
                    opt_seq(info.external_ip)
                })
            },
            None => {
                &&& r.db_id == info.db_id
                &&& opt_seq(r.display_name) == Some(info.auto_name@)
                &&& opt_seq(r.external_ip) == opt_seq(info.external_ip)
            },
        },
{
    let mut info = info;
    match record {
        Some(rec) => {
            info.db_id = Some(rec.id);
            info.display_name = Some(record_display_name(rec));
            if info.external_ip.is_none() {
                info.external_ip = copy_opt(&rec.external_ip);
            }
        },
        None => {
            info.display_name = Some(info.auto_name.clone());
        },
    }
    info
}

/// The prefix written after the first `/` of a CIDR text, 24 when missing
/// or not a number.
pub open spec fn cidr_prefix_or_default(cidr: Seq<char>) -> nat {
    let parts = split_on(cidr, seq!['/']);
    if parts.len() >= 2 && parse_uint(parts[1], 255) is Some {
        parse_uint(parts[1], 255).unwrap()
    } else {
        24
    }
}

pub fn prefix_of_cidr(cidr: &str) -> (p: u8)
    ensures
        p == cidr_prefix_or_default(cidr@),
{
    let c = chars_of(cidr);
    let sep: [char; 1] = ['/'];
    let sep_s: &[char] = &sep;
    assert(sep_s@ =~= seq!['/']);
    let parts = split_chars(c.as_slice(), sep_s);
    if parts.len() >= 2 {
        assert(views_of(parts@)[1] == parts@[1]@);
        match parse_uint_chars(parts[1].as_slice(), 255) {
            Some(v) => v as u8,
            None => 24,
        }
    } else {
        24
    }
}

/// A network rebuilt from its stored record when it is not live: no host
/// count, no display name of its own, the stored id.
pub fn network_from_record(rec: &NetworkRecord) -> (r: NetworkInfo)
    ensures
        r.interface_name@ == rec.interface_name@,
        r.local_ip@ == rec.local_ip@,
        r.cidr@ == rec.cidr@,
        r.prefix == cidr_prefix_or_default(rec.cidr@),
        opt_seq(r.gateway) == opt_seq(rec.gateway),
        r.host_count == 0,
        r.fingerprint@ == rec.fingerprint@,
        r.display_name is None,
        r.auto_name@ == rec.auto_name@,
        r.media@ == rec.media@,
        opt_seq(r.ssid) == opt_seq(rec.ssid),
        opt_seq(r.search_domain) == opt_seq(rec.search_domain),
        opt_seq(r.external_ip) == opt_seq(rec.external_ip),
        r.db_id == Some(rec.id),
{
    NetworkInfo {
        interface_name: rec.interface_name.clone(),
        local_ip: rec.local_ip.clone(),
        cidr: rec.cidr.clone(),
        prefix: prefix_of_cidr(rec.cidr.as_str()),
        gateway: copy_opt(&rec.gateway),
        host_count: 0,
        fingerprint: rec.fingerprint.clone(),
        display_name: None,
        auto_name: rec.auto_name.clone(),
        media: rec.media.clone(),
        ssid: copy_opt(&rec.ssid),
        search_domain: copy_opt(&rec.search_domain),
        external_ip: copy_opt(&rec.external_ip),
        db_id: Some(rec.id),
    }
}

} // verus!
