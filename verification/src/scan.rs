//! The decisions of a scan: which hosts count as present, what is known of
//! each, which earlier devices are kept as offline, and the order in which
//! devices are listed.

use vstd::prelude::*;
use crate::text::chars_of;
use crate::ipv4::{ipv4_text, lemma_ipv4_text_roundtrip, ipv4_to_string, parse_ipv4, parse_ipv4_str, same_net, Ipv4Net};
use crate::textmap::TextMap;
use crate::model::{copy_device, copy_opt, opt_seq, same_device, Device, NetworkInfo};
use crate::interfaces::{detect_network, listable, no_network_message};
use crate::records::{device_key, device_key_of, nickname_of, resolve_nickname};
use crate::oui::{mac_prefix, OuiTable};

verus! {

// ---------------------------------------------------------------------------
// Present hosts
// ---------------------------------------------------------------------------

pub open spec fn strictly_increasing(s: Seq<u32>) -> bool {
    forall|i: int, j: int| 0 <= i < j < s.len() ==> s[i] < s[j]
}

proof fn lemma_insert_members(before: Seq<u32>, i: int, x: u32)
    requires
        0 <= i <= before.len(),
    ensures
        forall|y: u32| #[trigger] before.insert(i, x).contains(y) <==> (before.contains(y) || y == x),
{
    let after = before.insert(i, x);
    assert forall|y: u32| #[trigger] after.contains(y) <==> (before.contains(y) || y == x) by {
        if after.contains(y) {
            let k = choose|k: int| 0 <= k < after.len() && after[k] == y;
            if k < i {
                assert(before[k] == y);
            } else if k > i {
                assert(before[k - 1] == y);
            }
        }
        if before.contains(y) {
            let k = choose|k: int| 0 <= k < before.len() && before[k] == y;
            if k < i {
                assert(after[k] == y);
            } else {
                assert(after[k + 1] == y);
            }
        }
        if y == x {
            assert(after[i] == y);
        }
    }
}

proof fn lemma_insert_increasing(before: Seq<u32>, i: int, x: u32)
    requires
        0 <= i <= before.len(),
        strictly_increasing(before),
        forall|k: int| 0 <= k < i ==> before[k] < x,
        i < before.len() ==> x < before[i],
    ensures
        strictly_increasing(before.insert(i, x)),
{
    let after = before.insert(i, x);
    assert forall|a: int, b: int| 0 <= a < b < after.len() implies after[a] < after[b] by {
        if b < i {
            assert(after[a] == before[a] && after[b] == before[b]);
        } else if b == i {
            assert(after[a] == before[a]);
        } else if a < i {
            assert(after[a] == before[a] && after[b] == before[b - 1]);
            assert(before[i] <= before[b - 1]);
        } else if a == i {
            assert(after[b] == before[b - 1]);
            assert(before[i] <= before[b - 1]);
        } else {
            assert(after[a] == before[a - 1] && after[b] == before[b - 1]);
        }
    }
}

fn insert_sorted(v: &mut Vec<u32>, x: u32)
    requires
        strictly_increasing(old(v)@),
    ensures
        strictly_increasing(final(v)@),
        forall|y: u32| final(v)@.contains(y) <==> (old(v)@.contains(y) || y == x),
{
    let mut i: usize = 0;
    while i < v.len() && v[i] < x
        invariant
            v@ == old(v)@,
            i <= v@.len(),
            forall|k: int| 0 <= k < i ==> v@[k] < x,
        decreases v.len() - i,
    {
        i = i + 1;
    }
    if i < v.len() && v[i] == x {
        assert forall|y: u32| v@.contains(y) <==> (v@.contains(y) || y == x) by {
            if y == x {
                assert(v@[i as int] == x);
            }
        }
        return;
    }
    let ghost before = v@;
    proof {
        lemma_insert_members(before, i as int, x);
        lemma_insert_increasing(before, i as int, x);
    }
    v.insert(i, x);
    assert(v@ == before.insert(i as int, x));
}

/// A host counts as present when a probe answered, when it is this machine
/// or the gateway, or when the neighbor table knows its address inside the
/// scanned subnet.
pub open spec fn present(
    x: u32,
    live: Seq<u32>,
    local: u32,
    neighbors: Map<Seq<char>, Seq<char>>,
    net: Ipv4Net,
    gateway: Option<u32>,
) -> bool {
    ||| live.contains(x)
    ||| x == local
    ||| gateway == Some(x)
    ||| exists|k: Seq<char>| #[trigger]
        neighbors.contains_key(k) && parse_ipv4(k) == Some(x) && net.contains_spec(x)
}

/// Some of the first `n` neighbor entries names `y`, inside `net`.
pub open spec fn listed_in(entries: Seq<(String, String)>, n: int, net: Ipv4Net, y: u32) -> bool {
    exists|j: int|
        0 <= j < n && #[trigger] parse_ipv4(entries[j].0@) == Some(y) && net.contains_spec(y)
}

/// The present hosts, in increasing order, each once.
pub fn present_hosts(
    live: &[u32],
    local: u32,
    neighbors: &TextMap,
    net: &Ipv4Net,
    gateway: Option<u32>,
) -> (r: Vec<u32>)
    ensures
        strictly_increasing(r@),
        forall|x: u32| r@.contains(x) <==> present(x, live@, local, neighbors@, *net, gateway),
        r@.contains(local),
        gateway matches Some(g) ==> r@.contains(g),
{
    let mut v: Vec<u32> = Vec::new();
    for i in 0..live.len()
        invariant
            strictly_increasing(v@),
            forall|y: u32| v@.contains(y) <==> live@.take(i as int).contains(y),
    {
        insert_sorted(&mut v, live[i]);
        proof {
            let t0 = live@.take(i as int);
            let t1 = live@.take(i + 1);
            assert forall|y: u32| v@.contains(y) <==> t1.contains(y) by {
                if t1.contains(y) {
                    let k = choose|k: int| 0 <= k < t1.len() && #[trigger] t1[k] == y;
                    if k < i {
                        assert(t0[k] == y);
                    }
                }
                if t0.contains(y) {
                    let k = choose|k: int| 0 <= k < t0.len() && #[trigger] t0[k] == y;
                    assert(t1[k] == y);
                }
                if y == live@[i as int] {
                    assert(t1[i as int] == y);
                }
            }
        }
    }
    assert(live@.take(live.len() as int) =~= live@);
    insert_sorted(&mut v, local);
    match gateway {
        Some(g) => insert_sorted(&mut v, g),
        None => {},
    }
    let ghost base = v@;
    let entries = neighbors.entries();
    for i in 0..entries.len()
        invariant
            strictly_increasing(v@),
            forall|y: u32| #[trigger]
                v@.contains(y) <==> (base.contains(y) || listed_in(entries@, i as int, *net, y)),
    {
        let k = entries[i].0.as_str();
        let ghost pre = v@;
        let mut hit: Option<u32> = None;
        match parse_ipv4_str(k) {
            Some(x) => {
                if net.contains(x) {
                    insert_sorted(&mut v, x);
                    hit = Some(x);
                }
            },
            None => {},
        }
        proof {
            let e = entries@[i as int].0@;
            assert(k@ == e);
            assert forall|y: u32| #[trigger]
                v@.contains(y) <==> (base.contains(y) || listed_in(entries@, i + 1, *net, y)) by {
                assert(pre.contains(y) <==> (base.contains(y) || listed_in(entries@, i as int, *net, y)));
                assert(v@.contains(y) <==> (pre.contains(y) || hit == Some(y)));
                assert(hit == Some(y) <==> (parse_ipv4(e) == Some(y) && net.contains_spec(y)));
                if listed_in(entries@, i + 1, *net, y) {
                    let j = choose|j: int|
                        0 <= j < i + 1 && #[trigger] parse_ipv4(entries@[j].0@) == Some(y)
                            && net.contains_spec(y);
                    if j < i {
                        assert(listed_in(entries@, i as int, *net, y));
                    }
                }
                if listed_in(entries@, i as int, *net, y) {
                    let j = choose|j: int|
                        0 <= j < i && #[trigger] parse_ipv4(entries@[j].0@) == Some(y)
                            && net.contains_spec(y);
                    assert(listed_in(entries@, i + 1, *net, y));
                }
                if hit == Some(y) {
                    assert(parse_ipv4(entries@[i as int].0@) == Some(y));
                    assert(listed_in(entries@, i + 1, *net, y));
                }
            }
        }
    }
    proof {
        assert forall|y: u32| v@.contains(y) <==> present(y, live@, local, neighbors@, *net, gateway) by {
            assert(v@.contains(y) <==> (base.contains(y) || listed_in(entries@, entries@.len() as int, *net, y)));
            if listed_in(entries@, entries@.len() as int, *net, y) {
                let j = choose|j: int|
                    0 <= j < entries@.len() && #[trigger] parse_ipv4(entries@[j].0@) == Some(y)
                        && net.contains_spec(y);
                assert(neighbors@.contains_key(entries@[j].0@));
            }
            if exists|k: Seq<char>| #[trigger]
                neighbors@.contains_key(k) && parse_ipv4(k) == Some(y) && net.contains_spec(y) {
                let k = choose|k: Seq<char>| #[trigger]
                    neighbors@.contains_key(k) && parse_ipv4(k) == Some(y) && net.contains_spec(y);
                let j = choose|j: int| 0 <= j < entries@.len() && entries@[j].0@ == k;
                assert(parse_ipv4(entries@[j].0@) == Some(y));
                assert(listed_in(entries@, entries@.len() as int, *net, y));
            }
        }
    }
    v
}

// ---------------------------------------------------------------------------
// Devices
// ---------------------------------------------------------------------------

/// The current Unix time in seconds (`chrono::Utc::now().timestamp()`).
/// Nothing is claimed of the value.
#[verifier::external_body]
fn unix_now() -> (t: i64) {
    chrono::Utc::now().timestamp()
}

/// What every device of one scan shares: the time it was seen, the gateway
/// and the local address.
pub struct Enrichment {
    pub now: i64,
    pub gateway: Option<u32>,
    pub local: u32,
}

pub open spec fn opt_get(m: Map<Seq<char>, Seq<char>>, k: Seq<char>) -> Option<Seq<char>> {
    if m.contains_key(k) {
        Some(m[k])
    } else {
        None
    }
}

/// The vendor a MAC address belongs to in `table`.
pub open spec fn vendor_of(table: Map<nat, Seq<char>>, mac: Option<Seq<char>>) -> Option<Seq<char>> {
    match mac {
        Some(m) => match mac_prefix(m) {
            Some(k) => if table.contains_key(k) {
                Some(table[k])
            } else {
                None
            },
            None => None,
        },
        None => None,
    }
}

impl Enrichment {
    /// Starts enriching the hosts of a scan at the current time.
    pub fn begin(gateway: Option<u32>, local: u32) -> (e: Enrichment)
        ensures
            e.gateway == gateway,
            e.local == local,
    {
        Enrichment { now: unix_now(), gateway, local }
    }

    /// The device record of present host `ip`: its MAC from the neighbor
    /// table, its vendor from the OUI table, the reverse-DNS `hostname`, its
    /// nickname (by MAC, else by IP), seen now and online.
    pub fn device(
        &self,
        ip: u32,
        neighbors: &TextMap,
        hostname: Option<String>,
        oui: &OuiTable,
        nicknames: &TextMap,
    ) -> (d: Device)
        ensures
            d.ip@ == ipv4_text(ip),
            parse_ipv4(d.ip@) == Some(ip),
            opt_seq(d.mac) == opt_get(neighbors@, ipv4_text(ip)),
            opt_seq(d.vendor) == vendor_of(oui@, opt_seq(d.mac)),
            opt_seq(d.hostname) == opt_seq(hostname),
            opt_seq(d.nickname) == nickname_of(nicknames@, device_key_of(d), ipv4_text(ip)),
            d.online,
            d.last_seen == self.now,
            d.is_gateway == (self.gateway == Some(ip)),
            d.is_local == (ip == self.local),
    {
        let ip_str = ipv4_to_string(ip);
        proof {
            lemma_ipv4_text_roundtrip(ip);
        }
        let mac = match neighbors.get(ip_str.as_str()) {
            Some(m) => Some(m.clone()),
            None => None,
        };
        let vendor = match &mac {
            Some(m) => oui.lookup(m.as_str()),
            None => None,
        };
        let key = match &mac {
            Some(m) => m.clone(),
            None => ip_str.clone(),
        };
        let nickname = resolve_nickname(nicknames, key.as_str(), ip_str.as_str());
        Device {
            ip: ip_str,
            mac,
            hostname,
            vendor,
            nickname,
            online: true,
            last_seen: self.now,
            is_gateway: self.gateway == Some(ip),
            is_local: ip == self.local,
        }
    }
}

/// The addresses of a list of devices.
pub open spec fn ips_of(s: Seq<Device>) -> Seq<Seq<char>> {
    s.map_values(|d: Device| d.ip@)
}

/// An earlier device kept as offline: marked offline, with its nickname
/// refreshed when one is stored for it now.
pub open spec fn offline_copy(r: Device, p: Device, nicknames: Map<Seq<char>, Seq<char>>) -> bool {
    &&& r.ip@ == p.ip@
    &&& opt_seq(r.mac) == opt_seq(p.mac)
    &&& opt_seq(r.hostname) == opt_seq(p.hostname)
    &&& opt_seq(r.vendor) == opt_seq(p.vendor)
    &&& opt_seq(r.nickname) == match nickname_of(nicknames, device_key_of(p), p.ip@) {
        Some(n) => Some(n),
        None => opt_seq(p.nickname),
    }
    &&& !r.online
    &&& r.last_seen == p.last_seen
    &&& r.is_gateway == p.is_gateway
    &&& r.is_local == p.is_local
}

/// The earlier devices whose address was not seen now, in order.
pub open spec fn missing(previous: Seq<Device>, seen: Seq<Seq<char>>) -> Seq<Device>
    decreases previous.len(),
{
    if previous.len() == 0 {
        Seq::empty()
    } else {
        let r = missing(previous.drop_last(), seen);
        if seen.contains(previous.last().ip@) {
            r
        } else {
            r.push(previous.last())
        }
    }
}

fn seen_before(devices: &Vec<Device>, n: usize, ip: &String) -> (b: bool)
    requires
        n <= devices@.len(),
    ensures
        b == ips_of(devices@.take(n as int)).contains(ip@),
{
    let mut i: usize = 0;
    while i < n
        invariant
            n <= devices@.len(),
            i <= n,
            forall|k: int| 0 <= k < i ==> devices@[k].ip@ != ip@,
        decreases n - i,
    {
        if devices[i].ip == *ip {
            assert(ips_of(devices@.take(n as int))[i as int] == ip@);
            return true;
        }
        i = i + 1;
    }
    proof {
        if ips_of(devices@.take(n as int)).contains(ip@) {
            let k = choose|k: int|
                0 <= k < ips_of(devices@.take(n as int)).len() && ips_of(devices@.take(n as int))[k]
                    == ip@;
            assert(devices@[k].ip@ == ip@);
        }
    }
    false
}

/// No two devices of `s` share an address.
pub open spec fn distinct_ips(s: Seq<Device>) -> bool {
    forall|i: int, j: int| 0 <= i < j < s.len() ==> s[i].ip@ != s[j].ip@
}

proof fn lemma_missing_shape(previous: Seq<Device>, seen: Seq<Seq<char>>)
    ensures
        forall|i: int|
            0 <= i < missing(previous, seen).len() ==> !seen.contains(
                #[trigger] missing(previous, seen)[i].ip@,
            ),
        forall|i: int|
            0 <= i < missing(previous, seen).len() ==> ips_of(previous).contains(
                #[trigger] missing(previous, seen)[i].ip@,
            ),
        distinct_ips(previous) ==> distinct_ips(missing(previous, seen)),
    decreases previous.len(),
{
    if previous.len() > 0 {
        let p0 = previous.drop_last();
        let last = previous.last();
        lemma_missing_shape(p0, seen);
        let r = missing(p0, seen);
        assert forall|i: int| 0 <= i < r.len() implies ips_of(previous).contains(
            #[trigger] r[i].ip@,
        ) by {
            let k = choose|k: int| 0 <= k < ips_of(p0).len() && ips_of(p0)[k] == r[i].ip@;
            assert(ips_of(previous)[k] == r[i].ip@);
        }
        assert(ips_of(previous)[previous.len() - 1] == last.ip@);
        if !seen.contains(last.ip@) {
            let m = r.push(last);
            assert(missing(previous, seen) == m);
            assert forall|i: int| 0 <= i < m.len() implies !seen.contains(#[trigger] m[i].ip@)
                && ips_of(previous).contains(m[i].ip@) by {
                if i < r.len() {
                    assert(m[i] == r[i]);
                }
            }
            if distinct_ips(previous) {
                assert(distinct_ips(p0)) by {
                    assert forall|i: int, j: int| 0 <= i < j < p0.len() implies p0[i].ip@
                        != p0[j].ip@ by {
                        assert(p0[i] == previous[i] && p0[j] == previous[j]);
                    }
                }
                assert forall|i: int, j: int| 0 <= i < j < m.len() implies m[i].ip@
                    != m[j].ip@ by {
                    if j == r.len() {
                        assert(m[i] == r[i]);
                        assert(ips_of(p0).contains(r[i].ip@));
                        let k = choose|k: int| 0 <= k < ips_of(p0).len() && ips_of(p0)[k] == r[i].ip@;
                        assert(previous[k].ip@ == r[i].ip@);
                        assert(previous[previous.len() - 1] == last);
                    } else {
                        assert(m[i] == r[i] && m[j] == r[j]);
                    }
                }
            }
        } else {
            assert(missing(previous, seen) == r);
            if distinct_ips(previous) {
                assert forall|i: int, j: int| 0 <= i < j < p0.len() implies p0[i].ip@
                    != p0[j].ip@ by {
                    assert(p0[i] == previous[i] && p0[j] == previous[j]);
                }
            }
        }
    }
}

/// The devices seen now followed by the earlier devices that went offline.
pub fn merge_offline(devices: Vec<Device>, previous: &[Device], nicknames: &TextMap) -> (r: Vec<
    Device,
>)
    ensures
        r@.len() == devices@.len() + missing(previous@, ips_of(devices@)).len(),
        forall|i: int| 0 <= i < devices@.len() ==> #[trigger] r@[i] == devices@[i],
        forall|i: int|
            0 <= i < missing(previous@, ips_of(devices@)).len() ==> offline_copy(
                #[trigger] r@[devices@.len() + i],
                missing(previous@, ips_of(devices@))[i],
                nicknames@,
            ),
        distinct_ips(devices@) && distinct_ips(previous@) ==> distinct_ips(r@),
{
    let n = devices.len();
    let ghost seen = ips_of(devices@);
    let ghost dv = devices@;
    let mut out = devices;
    for i in 0..previous.len()
        invariant
            n == dv.len(),
            seen == ips_of(dv),
            out@.len() == n + missing(previous@.take(i as int), seen).len(),
            forall|k: int| 0 <= k < n ==> #[trigger] out@[k] == dv[k],
            forall|k: int|
                0 <= k < missing(previous@.take(i as int), seen).len() ==> offline_copy(
                    #[trigger] out@[n + k],
                    missing(previous@.take(i as int), seen)[k],
                    nicknames@,
                ),
    {
        let p = &previous[i];
        assert(previous@.take(i + 1).drop_last() =~= previous@.take(i as int));
        assert(out@.take(n as int) =~= dv);
        if !seen_before(&out, n, &p.ip) {
            let mut d = copy_device(p);
            d.online = false;
            let key = device_key(p);
            match resolve_nickname(nicknames, key.as_str(), p.ip.as_str()) {
                Some(nk) => {
                    d.nickname = Some(nk);
                },
                None => {},
            }
            out.push(d);
        }
    }
    assert(previous@.take(previous.len() as int) =~= previous@);
    proof {
        let ms = missing(previous@, seen);
        lemma_missing_shape(previous@, seen);
        if distinct_ips(dv) && distinct_ips(previous@) {
            assert forall|i: int, j: int| 0 <= i < j < out@.len() implies out@[i].ip@
                != out@[j].ip@ by {
                if j < n {
                    assert(out@[i] == dv[i] && out@[j] == dv[j]);
                } else if i < n {
                    assert(out@[i] == dv[i]);
                    assert(offline_copy(out@[n + (j - n)], ms[j - n], nicknames@));
                    assert(!seen.contains(ms[j - n].ip@));
                    assert(seen[i] == dv[i].ip@);
                } else {
                    assert(offline_copy(out@[n + (i - n)], ms[i - n], nicknames@));
                    assert(offline_copy(out@[n + (j - n)], ms[j - n], nicknames@));
                }
            }
        }
    }
    out
}

// ---------------------------------------------------------------------------
// Listing order
// ---------------------------------------------------------------------------

/// The listing rank of a device: the local machine first, the gateway
/// second, online before offline, then by address (a text that is not an
/// IPv4 address ranks as 0.0.0.0).
pub open spec fn device_rank(d: Device) -> nat {
    let ip: nat = match parse_ipv4(d.ip@) {
        Some(x) => x as nat,
        None => 0,
    };
    (if d.is_local {
        0nat
    } else {
        0x8_0000_0000nat
    }) + (if d.is_gateway {
        0nat
    } else {
        0x4_0000_0000nat
    }) + (if d.online {
        0nat
    } else {
        0x2_0000_0000nat
    }) + ip
}

/// The devices of `s` with rank `k`, in order.
pub open spec fn of_rank(s: Seq<Device>, k: nat) -> Seq<Device>
    decreases s.len(),
{
    if s.len() == 0 {
        Seq::empty()
    } else if device_rank(s.last()) == k {
        of_rank(s.drop_last(), k).push(s.last())
    } else {
        of_rank(s.drop_last(), k)
    }
}

pub open spec fn rank_sorted(s: Seq<Device>) -> bool {
    forall|i: int, j: int| 0 <= i < j < s.len() ==> device_rank(s[i]) <= device_rank(s[j])
}

/// The IPv4 address a device's text names, 0.0.0.0 when it names none.
pub open spec fn address_of(d: Device) -> nat {
    match parse_ipv4(d.ip@) {
        Some(x) => x as nat,
        None => 0,
    }
}

/// `a` may be listed before `b`: the local machine first, then the
/// gateway, then online devices, then by increasing IPv4 address.
pub open spec fn listed_before(a: Device, b: Device) -> bool {
    ||| a.is_local && !b.is_local
    ||| a.is_local == b.is_local && a.is_gateway && !b.is_gateway
    ||| a.is_local == b.is_local && a.is_gateway == b.is_gateway && a.online && !b.online
    ||| a.is_local == b.is_local && a.is_gateway == b.is_gateway && a.online == b.online
        && address_of(a) <= address_of(b)
}

/// Every device of `s` may be listed before every later one.
pub open spec fn in_listing_order(s: Seq<Device>) -> bool {
    forall|i: int, j: int| 0 <= i < j < s.len() ==> listed_before(s[i], s[j])
}

/// The listing rank splits into a class (local machine, gateway, online
/// flags) above and the device's IPv4 address itself below: the address
/// part of the rank is the parsed address, most significant octet first.
pub proof fn lemma_rank_parts(d: Device)
    ensures
        device_rank(d) % 0x2_0000_0000 == (match parse_ipv4(d.ip@) {
            Some(x) => x as int,
            None => 0int,
        }),
        device_rank(d) / 0x2_0000_0000 == (if d.is_local {
            0int
        } else {
            4int
        }) + (if d.is_gateway {
            0int
        } else {
            2int
        }) + (if d.online {
            0int
        } else {
            1int
        }),
{
    let q: int = (if d.is_local {
        0int
    } else {
        4int
    }) + (if d.is_gateway {
        0int
    } else {
        2int
    }) + (if d.online {
        0int
    } else {
        1int
    });
    assert(address_of(d) < 0x1_0000_0000);
    assert(device_rank(d) == q * 0x2_0000_0000 + address_of(d));
    vstd::arithmetic::div_mod::lemma_fundamental_div_mod_converse(
        device_rank(d) as int,
        0x2_0000_0000int,
        q,
        address_of(d) as int,
    );
}

/// A list sorted by listing rank puts the local machine first, the gateway
/// second, online devices before offline ones, and otherwise orders
/// devices by their IPv4 address.
pub proof fn lemma_rank_order_is_listing_order(s: Seq<Device>)
    requires
        rank_sorted(s),
    ensures
        in_listing_order(s),
{
    assert forall|i: int, j: int| 0 <= i < j < s.len() implies listed_before(s[i], s[j]) by {
        let a = s[i];
        let b = s[j];
        assert(device_rank(a) <= device_rank(b));
        assert(address_of(a) < 0x1_0000_0000);
        assert(address_of(b) < 0x1_0000_0000);
    }
}

proof fn lemma_of_rank_concat(a: Seq<Device>, b: Seq<Device>, k: nat)
    ensures
        of_rank(a + b, k) == of_rank(a, k) + of_rank(b, k),
    decreases b.len(),
{
    if b.len() == 0 {
        assert(a + b =~= a);
        assert(of_rank(a, k) + of_rank(b, k) =~= of_rank(a, k));
    } else {
        lemma_of_rank_concat(a, b.drop_last(), k);
        assert((a + b).drop_last() =~= a + b.drop_last());
        assert((a + b).last() == b.last());
        if device_rank(b.last()) == k {
            assert(of_rank(a, k) + of_rank(b, k) =~= (of_rank(a, k) + of_rank(b.drop_last(), k)).push(
                b.last(),
            ));
        }
    }
}

proof fn lemma_of_rank_above(b: Seq<Device>, k: nat)
    requires
        forall|i: int| 0 <= i < b.len() ==> device_rank(#[trigger] b[i]) > k,
    ensures
        of_rank(b, k) == Seq::<Device>::empty(),
    decreases b.len(),
{
    if b.len() > 0 {
        lemma_of_rank_above(b.drop_last(), k);
    }
}

proof fn lemma_of_rank_insert(before: Seq<Device>, p: int, d: Device, k: nat)
    requires
        0 <= p <= before.len(),
        forall|j: int| 0 <= j < p ==> device_rank(#[trigger] before[j]) <= device_rank(d),
        forall|j: int| p <= j < before.len() ==> device_rank(#[trigger] before[j]) > device_rank(d),
    ensures
        of_rank(before.insert(p, d), k) == (if device_rank(d) == k {
            of_rank(before, k).push(d)
        } else {
            of_rank(before, k)
        }),
{
    let a = before.take(p);
    let b = before.skip(p);
    assert(before =~= a + b);
    assert(before.insert(p, d) =~= (a + seq![d]) + b);
    lemma_of_rank_concat(a + seq![d], b, k);
    lemma_of_rank_concat(a, seq![d], k);
    lemma_of_rank_concat(a, b, k);
    assert(seq![d].drop_last() =~= Seq::<Device>::empty());
    assert(of_rank(Seq::<Device>::empty(), k) =~= Seq::<Device>::empty());
    assert(of_rank(seq![d].drop_last(), k) =~= Seq::<Device>::empty());
    assert(seq![d].last() == d);
    if device_rank(d) == k {
        assert forall|j: int| 0 <= j < b.len() implies device_rank(#[trigger] b[j]) > k by {
            assert(b[j] == before[p + j]);
        }
        lemma_of_rank_above(b, k);
        assert(of_rank(seq![d], k) =~= seq![d]);
        assert(of_rank(before, k) =~= of_rank(a, k));
        assert(of_rank(before.insert(p, d), k) =~= of_rank(a, k).push(d));
    } else {
        assert(of_rank(seq![d], k) =~= Seq::<Device>::empty());
        assert(of_rank(before.insert(p, d), k) =~= of_rank(a, k) + of_rank(b, k));
    }
}

fn rank_of(d: &Device) -> (r: u64)
    ensures
        r == device_rank(*d),
{
    let ip: u64 = match parse_ipv4_str(d.ip.as_str()) {
        Some(x) => x as u64,
        None => 0,
    };
    (if d.is_local {
        0u64
    } else {
        0x8_0000_0000u64
    }) + (if d.is_gateway {
        0u64
    } else {
        0x4_0000_0000u64
    }) + (if d.online {
        0u64
    } else {
        0x2_0000_0000u64
    }) + ip
}

proof fn lemma_insert_rank_sorted(before: Seq<Device>, p: int, d: Device)
    requires
        0 <= p <= before.len(),
        rank_sorted(before),
        forall|j: int| 0 <= j < p ==> device_rank(#[trigger] before[j]) <= device_rank(d),
        forall|j: int| p <= j < before.len() ==> device_rank(#[trigger] before[j]) > device_rank(d),
    ensures
        rank_sorted(before.insert(p, d)),
{
    let out = before.insert(p, d);
    assert forall|x: int, y: int| 0 <= x < y < out.len() implies device_rank(out[x])
        <= device_rank(out[y]) by {
        if y < p {
            assert(out[x] == before[x] && out[y] == before[y]);
        } else if y == p {
            assert(out[x] == before[x]);
        } else if x < p {
            assert(out[x] == before[x] && out[y] == before[y - 1]);
        } else if x == p {
            assert(out[y] == before[y - 1]);
        } else {
            assert(out[x] == before[x - 1] && out[y] == before[y - 1]);
        }
    }
}

proof fn lemma_insert_from_input(before: Seq<Device>, p: int, input: Seq<Device>, i: int)
    requires
        0 <= p <= before.len(),
        0 <= i < input.len(),
        forall|j: int|
            0 <= j < before.len() ==> exists|k: int| 0 <= k < i && #[trigger] before[j] == input[k],
        distinct_ips(input) ==> distinct_ips(before),
    ensures
        forall|j: int|
            0 <= j < before.insert(p, input[i]).len() ==> exists|k: int|
                0 <= k < i + 1 && #[trigger] before.insert(p, input[i])[j] == input[k],
        distinct_ips(input) ==> distinct_ips(before.insert(p, input[i])),
{
    let out = before.insert(p, input[i]);
    assert forall|j: int| 0 <= j < out.len() implies exists|k: int|
        0 <= k < i + 1 && #[trigger] out[j] == input[k] by {
        if j < p {
            assert(out[j] == before[j]);
        } else if j > p {
            assert(out[j] == before[j - 1]);
        } else {
            assert(out[j] == input[i]);
        }
    }
    if distinct_ips(input) {
        assert forall|x: int, y: int| 0 <= x < y < out.len() implies out[x].ip@ != out[y].ip@ by {
            if x != p && y != p {
                let xx = if x < p { x } else { x - 1 };
                let yy = if y < p { y } else { y - 1 };
                assert(out[x] == before[xx] && out[y] == before[yy]);
            } else {
                let o = if x == p { y } else { x };
                let oo = if o < p { o } else { o - 1 };
                assert(out[o] == before[oo]);
                let k = choose|k: int| 0 <= k < i && #[trigger] before[oo] == input[k];
                assert(input[k].ip@ != input[i].ip@);
            }
        }
    }
}

/// Lists devices in rank order, keeping the given order among devices of
/// equal rank (a stable sort by rank).
pub fn sort_devices(devices: Vec<Device>) -> (r: Vec<Device>)
    ensures
        rank_sorted(r@),
        in_listing_order(r@),
        forall|k: nat| #[trigger] of_rank(r@, k) == of_rank(devices@, k),
        r@.len() == devices@.len(),
        distinct_ips(devices@) ==> distinct_ips(r@),
{
    let ghost input = devices@;
    let mut rest = devices;
    let mut out: Vec<Device> = Vec::new();
    let mut ranks: Vec<u64> = Vec::new();
    let n = rest.len();
    let mut i: usize = 0;
    while rest.len() > 0
        invariant
            n == input.len(),
            i + rest@.len() == n,
            rest@ == input.skip(i as int),
            ranks@.len() == out@.len(),
            out@.len() == i,
            forall|j: int| 0 <= j < out@.len() ==> ranks@[j] == device_rank(#[trigger] out@[j]),
            rank_sorted(out@),
            forall|k: nat| #[trigger] of_rank(out@, k) == of_rank(input.take(i as int), k),
            forall|j: int|
                0 <= j < out@.len() ==> exists|k: int| 0 <= k < i && #[trigger] out@[j] == input[k],
            distinct_ips(input) ==> distinct_ips(out@),
        decreases rest.len(),
    {
        let d = rest.remove(0);
        let rk = rank_of(&d);
        assert(d == input[i as int]);
        assert(rest@ =~= input.skip(i + 1));
        let mut p: usize = 0;
        while p < out.len() && ranks[p] <= rk
            invariant
                p <= out@.len(),
                ranks@.len() == out@.len(),
                forall|j: int| 0 <= j < p ==> device_rank(#[trigger] out@[j]) <= rk,
                forall|j: int| 0 <= j < out@.len() ==> ranks@[j] == device_rank(#[trigger] out@[j]),
            decreases out.len() - p,
        {
            p = p + 1;
        }
        let ghost before = out@;
        proof {
            assert forall|j: int| p <= j < before.len() implies device_rank(#[trigger] before[j])
                > rk by {
                assert(ranks@[p as int] > rk);
                assert(device_rank(before[p as int]) <= device_rank(before[j]));
            }
        }
        out.insert(p, d);
        ranks.insert(p, rk);
        proof {
            assert(out@ =~= before.insert(p as int, input[i as int]));
            assert(input.take(i + 1).drop_last() =~= input.take(i as int));
            assert(input.take(i + 1).last() == input[i as int]);
            assert forall|k: nat| #[trigger] of_rank(out@, k) == of_rank(input.take(i + 1), k) by {
                lemma_of_rank_insert(before, p as int, input[i as int], k);
            }
            lemma_insert_rank_sorted(before, p as int, input[i as int]);
            assert forall|j: int| 0 <= j < out@.len() implies ranks@[j] == device_rank(
                #[trigger] out@[j],
            ) by {
                if j < p {
                    assert(out@[j] == before[j]);
                } else if j > p {
                    assert(out@[j] == before[j - 1]);
                }
            }
            lemma_insert_from_input(before, p as int, input, i as int);
        }
        i = i + 1;
    }
    assert(input.take(n as int) =~= input);
    proof {
        lemma_rank_order_is_listing_order(out@);
    }
    out
}

/// The network a scan uses when none was chosen: the best listed one.
pub fn network_info(networks: Result<Vec<NetworkInfo>, String>) -> (r: Result<NetworkInfo, String>)
    ensures
        networks matches Err(e) ==> r == Err::<NetworkInfo, String>(e),
        networks matches Ok(v) ==> (v@.len() > 0 ==> r == Ok::<NetworkInfo, String>(v@[0])),
        networks matches Ok(v) ==> (v@.len() == 0 ==> (r matches Err(e) && e@ == no_network_message())),
        networks matches Ok(v) && (forall|i: int| 0 <= i < v@.len() ==> listable(#[trigger] v@[i]))
            ==> (r matches Ok(n) ==> listable(n)),
{
    detect_network(networks)
}

/// Devices made, in order, for strictly increasing addresses each have
/// their own address.
pub proof fn lemma_enriched_devices_distinct(hosts: Seq<u32>, devices: Seq<Device>)
    requires
        strictly_increasing(hosts),
        devices.len() <= hosts.len(),
        forall|i: int| 0 <= i < devices.len() ==> #[trigger] devices[i].ip@ == ipv4_text(hosts[i]),
    ensures
        distinct_ips(devices),
{
    assert forall|i: int, j: int| 0 <= i < j < devices.len() implies devices[i].ip@
        != devices[j].ip@ by {
        crate::ipv4::lemma_ipv4_text_injective(hosts[i], hosts[j]);
    }
}

/// Whether a probe count is reported: every eighth host, and the last.
pub fn report_probe_progress(checked: u32, total: u32) -> (b: bool)
    ensures
        b == (checked % 8 == 0 || checked == total),
{
    checked % 8 == 0 || checked == total
}

} // verus!
