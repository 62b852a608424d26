//! Choosing and checking the networks to scan: which interface addresses
//! qualify, in which order they are offered, how a caller's selection is
//! re-derived from its CIDR, and which hosts a scan probes.

use vstd::prelude::*;
use crate::text::{
    chars_of, dec_string, extend_chars, extend_str, push_decimal, starts_with, starts_with_chars,
    string_of,
};
use crate::ipv4::{
    block, cidr_parse, guess_gateway, host_count_of, ipv4_text, ipv4_to_string, is_rfc1918,
    mask_to_prefix, net_base, size_for, hosts_for, net_last, network_host_count, octet0, octet1, ones, parse_ipv4,
    parse_ipv4_str, parse_network, push_ipv4, rfc1918, same_net, Ipv4Net,
};
use crate::identity::{auto_name, auto_name_of, classify_media, fingerprint, fingerprint_of, media_of};
use crate::model::{copy_opt, opt_seq, NetworkInfo};
use crate::textmap::TextMap;

verus! {

/// Maximum hosts we will scan without an explicit override.
pub const MAX_SCAN_HOSTS: u32 = 1024;

pub open spec fn opt_str(o: Option<&str>) -> Option<Seq<char>> {
    match o {
        Some(s) => Some(s@),
        None => None,
    }
}

fn as_str_opt(o: &Option<String>) -> (r: Option<&str>)
    ensures
        opt_str(r) == opt_seq(*o),
{
    match o {
        Some(s) => Some(s.as_str()),
        None => None,
    }
}

/// `r` is the network described by the given values, with medium,
/// fingerprint and automatic name derived from them; it is shown under its
/// automatic name and has no external address or stored id yet.
pub open spec fn enriched(
    r: NetworkInfo,
    interface: Seq<char>,
    local_ip: Seq<char>,
    cidr: Seq<char>,
    prefix: u8,
    gateway: Option<Seq<char>>,
    host_count: u32,
    search_domain: Option<Seq<char>>,
    ssid: Option<Seq<char>>,
) -> bool {
    &&& r.interface_name@ == interface
    &&& r.local_ip@ == local_ip
    &&& r.cidr@ == cidr
    &&& r.prefix == prefix
    &&& opt_seq(r.gateway) == gateway
    &&& r.host_count == host_count
    &&& opt_seq(r.search_domain) == search_domain
    &&& opt_seq(r.ssid) == ssid
    &&& r.media@ == media_of(interface, ssid is Some)
    &&& r.fingerprint@ == fingerprint_of(r.media@, ssid, search_domain, interface, cidr, gateway)
    &&& r.auto_name@ == auto_name_of(ssid, search_domain, interface, cidr)
    &&& opt_seq(r.display_name) == Some(r.auto_name@)
    &&& r.external_ip is None
    &&& r.db_id is None
}

/// Builds a network description; `ssid` is the SSID detected for the
/// interface, if any.
pub fn enrich_network(
    interface_name: String,
    local_ip: String,
    cidr: String,
    prefix: u8,
    gateway: Option<String>,
    host_count: u32,
    search_domain: Option<String>,
    ssid: Option<String>,
) -> (r: NetworkInfo)
    ensures
        enriched(
            r,
            interface_name@,
            local_ip@,
            cidr@,
            prefix,
            opt_seq(gateway),
            host_count,
            opt_seq(search_domain),
            opt_seq(ssid),
        ),
{
    let media = classify_media(interface_name.as_str(), as_str_opt(&ssid)).to_owned();
    let fp = fingerprint(
        media.as_str(),
        as_str_opt(&ssid),
        as_str_opt(&search_domain),
        interface_name.as_str(),
        cidr.as_str(),
        as_str_opt(&gateway),
    );
    let an = auto_name(
        as_str_opt(&ssid),
        as_str_opt(&search_domain),
        interface_name.as_str(),
        cidr.as_str(),
    );
    NetworkInfo {
        interface_name,
        local_ip,
        cidr,
        prefix,
        gateway,
        host_count,
        fingerprint: fp,
        display_name: Some(an.clone()),
        auto_name: an,
        media,
        ssid,
        search_domain,
        external_ip: None,
        db_id: None,
    }
}

/// `a.b.c.d/p` for the network's first address.
pub open spec fn cidr_text(base: nat, p: nat) -> Seq<char> {
    ipv4_text(base as u32) + seq!['/'] + dec_string(p)
}

fn cidr_string(n: &Ipv4Net) -> (r: String)
    ensures
        r@ == cidr_text(n.base_spec(), n.prefix_spec()),
{
    let mut v: Vec<char> = Vec::new();
    push_ipv4(&mut v, n.network());
    v.push('/');
    push_decimal(&mut v, n.prefix() as u64);
    assert(v@ =~= cidr_text(n.base_spec(), n.prefix_spec()));
    string_of(v.as_slice())
}

// ---------------------------------------------------------------------------
// Candidates
// ---------------------------------------------------------------------------

/// One address of an interface, as the OS lists it.
#[derive(Debug, Clone)]
pub struct InterfaceAddr {
    pub name: String,
    /// The IPv4 address, or `None` for an address of another family.
    pub ip: Option<u32>,
    /// The IPv4 netmask, when the OS reports one.
    pub netmask: Option<u32>,
}

/// A qualifying interface address.
#[derive(Debug, Clone)]
pub struct Candidate {
    pub name: String,
    pub ip: u32,
    pub prefix: u8,
}

/// Virtual, loopback and tunnel interfaces that are never scanned.
pub open spec fn ignored_interface(name: Seq<char>) -> bool {
    ||| starts_with(name, "lo"@)
    ||| starts_with(name, "docker"@)
    ||| starts_with(name, "br-"@)
    ||| starts_with(name, "veth"@)
    ||| starts_with(name, "vmnet"@)
    ||| starts_with(name, "utun"@)
    ||| starts_with(name, "awdl"@)
    ||| starts_with(name, "llw"@)
}

fn has_prefix(s: &[char], p: &str) -> (b: bool)
    ensures
        b == starts_with(s@, p@),
{
    let pc = chars_of(p);
    starts_with_chars(s, pc.as_slice())
}

pub fn skip_interface(name: &str) -> (b: bool)
    ensures
        b == ignored_interface(name@),
{
    let c = chars_of(name);
    let s = c.as_slice();
    has_prefix(s, "lo") || has_prefix(s, "docker") || has_prefix(s, "br-") || has_prefix(s, "veth")
        || has_prefix(s, "vmnet") || has_prefix(s, "utun") || has_prefix(s, "awdl") || has_prefix(
        s,
        "llw",
    )
}

/// Loopback (127/8), link-local (169.254/16) or unspecified (0.0.0.0).
pub open spec fn unusable_ip(ip: u32) -> bool {
    octet0(ip) == 127 || (octet0(ip) == 169 && octet1(ip) == 254) || ip == 0
}

/// The prefix an address qualifies with: a usable IPv4 address of a kept
/// interface whose netmask has between 8 and 30 one bits.
pub open spec fn candidate_prefix(a: InterfaceAddr) -> Option<nat> {
    if ignored_interface(a.name@) {
        None
    } else {
        match (a.ip, a.netmask) {
            (Some(ip), Some(m)) => if !unusable_ip(ip) && 8 <= ones(m as nat, 32) <= 30 {
                Some(ones(m as nat, 32))
            } else {
                None
            },
            _ => None,
        }
    }
}

/// Preference rank: private ranges before public ones, then smaller
/// subnets before larger ones (ranks 0 to 45).
pub open spec fn rank(ip: u32, prefix: nat) -> nat {
    (if rfc1918(ip) {
        0nat
    } else {
        23nat
    }) + (30 - prefix) as nat
}

pub open spec fn cand_of(a: InterfaceAddr) -> Option<(Seq<char>, u32, nat)> {
    match candidate_prefix(a) {
        Some(p) => Some((a.name@, a.ip.unwrap(), p)),
        None => None,
    }
}

/// The qualifying addresses of `s` with rank `k`, in order.
pub open spec fn with_rank(s: Seq<InterfaceAddr>, k: nat) -> Seq<(Seq<char>, u32, nat)>
    decreases s.len(),
{
    if s.len() == 0 {
        Seq::empty()
    } else {
        let r = with_rank(s.drop_last(), k);
        match cand_of(s.last()) {
            Some(c) => if rank(c.1, c.2) == k {
                r.push(c)
            } else {
                r
            },
            None => r,
        }
    }
}

/// The qualifying addresses ordered by rank, keeping the listing order
/// among equal ranks (a stable sort by rank).
pub open spec fn ranked_upto(s: Seq<InterfaceAddr>, k: nat) -> Seq<(Seq<char>, u32, nat)>
    decreases k,
{
    if k == 0 {
        Seq::empty()
    } else {
        ranked_upto(s, (k - 1) as nat) + with_rank(s, (k - 1) as nat)
    }
}

pub open spec fn ranked(s: Seq<InterfaceAddr>) -> Seq<(Seq<char>, u32, nat)> {
    ranked_upto(s, 46)
}

/// Candidate `a` may be offered before candidate `b`: private (RFC 1918)
/// addresses before public ones, and within the same class the longer
/// prefix (the smaller subnet) first.
pub open spec fn offered_before(a: (Seq<char>, u32, nat), b: (Seq<char>, u32, nat)) -> bool {
    &&& rfc1918(a.1) || !rfc1918(b.1)
    &&& rfc1918(a.1) == rfc1918(b.1) ==> a.2 >= b.2
}

proof fn lemma_with_rank_all(s: Seq<InterfaceAddr>, k: nat)
    ensures
        forall|i: int|
            0 <= i < with_rank(s, k).len() ==> rank((#[trigger] with_rank(s, k)[i]).1, with_rank(
                s,
                k,
            )[i].2) == k && 8 <= with_rank(s, k)[i].2 <= 30,
    decreases s.len(),
{
    if s.len() > 0 {
        lemma_with_rank_all(s.drop_last(), k);
        let r = with_rank(s.drop_last(), k);
        assert forall|i: int| 0 <= i < with_rank(s, k).len() implies rank(
            (#[trigger] with_rank(s, k)[i]).1,
            with_rank(s, k)[i].2,
        ) == k && 8 <= with_rank(s, k)[i].2 <= 30 by {
            if i < r.len() {
                assert(with_rank(s, k)[i] == r[i]);
            }
        }
    }
}

proof fn lemma_ranked_upto_sorted(s: Seq<InterfaceAddr>, k: nat)
    ensures
        forall|i: int|
            0 <= i < ranked_upto(s, k).len() ==> rank(
                (#[trigger] ranked_upto(s, k)[i]).1,
                ranked_upto(s, k)[i].2,
            ) < k && 8 <= ranked_upto(s, k)[i].2 <= 30,
        forall|i: int, j: int|
            0 <= i < j < ranked_upto(s, k).len() ==> rank(
                ranked_upto(s, k)[i].1,
                ranked_upto(s, k)[i].2,
            ) <= rank(ranked_upto(s, k)[j].1, ranked_upto(s, k)[j].2),
    decreases k,
{
    if k > 0 {
        let k0 = (k - 1) as nat;
        lemma_ranked_upto_sorted(s, k0);
        lemma_with_rank_all(s, k0);
        let a = ranked_upto(s, k0);
        let b = with_rank(s, k0);
        let c = ranked_upto(s, k);
        assert(c == a + b);
        assert forall|i: int| 0 <= i < c.len() implies rank((#[trigger] c[i]).1, c[i].2) < k && 8
            <= c[i].2 <= 30 by {
            if i < a.len() {
                assert(c[i] == a[i]);
            } else {
                assert(c[i] == b[i - a.len()]);
            }
        }
        assert forall|i: int, j: int| 0 <= i < j < c.len() implies rank(c[i].1, c[i].2) <= rank(
            c[j].1,
            c[j].2,
        ) by {
            if j < a.len() {
                assert(c[i] == a[i] && c[j] == a[j]);
            } else if i < a.len() {
                assert(c[i] == a[i] && c[j] == b[j - a.len()]);
            } else {
                assert(c[i] == b[i - a.len()] && c[j] == b[j - a.len()]);
            }
        }
    }
}

/// The qualifying addresses are offered private before public, and within
/// a class smaller subnets (longer prefixes) first.
pub proof fn lemma_ranked_order(s: Seq<InterfaceAddr>)
    ensures
        forall|i: int, j: int|
            0 <= i < j < ranked(s).len() ==> offered_before(ranked(s)[i], ranked(s)[j]),
{
    lemma_ranked_upto_sorted(s, 46);
    let r = ranked(s);
    assert forall|i: int, j: int| 0 <= i < j < r.len() implies offered_before(r[i], r[j]) by {
        assert(rank(r[i].1, r[i].2) <= rank(r[j].1, r[j].2));
        assert(8 <= r[i].2 <= 30 && 8 <= r[j].2 <= 30);
    }
}

pub open spec fn cand_view(c: Candidate) -> (Seq<char>, u32, nat) {
    (c.name@, c.ip, c.prefix as nat)
}

fn candidate_of(a: &InterfaceAddr) -> (r: Option<Candidate>)
    ensures
        r is Some <==> cand_of(*a) is Some,
        r matches Some(c) ==> cand_of(*a) == Some(cand_view(c)),
{
    if skip_interface(a.name.as_str()) {
        return None;
    }
    match (a.ip, a.netmask) {
        (Some(ip), Some(m)) => {
            let o = crate::ipv4::ipv4_octets(ip);
            if o[0] == 127 || (o[0] == 169 && o[1] == 254) || ip == 0 {
                return None;
            }
            let p = mask_to_prefix(m);
            if p < 8 || p > 30 {
                return None;
            }
            Some(Candidate { name: a.name.clone(), ip, prefix: p })
        },
        _ => None,
    }
}

/// The qualifying interface addresses, best candidate first.
pub fn select_candidates(addrs: &[InterfaceAddr]) -> (r: Vec<Candidate>)
    ensures
        r@.map_values(|c: Candidate| cand_view(c)) == ranked(addrs@),
        forall|i: int, j: int|
            0 <= i < j < r@.len() ==> (rfc1918(r@[i].ip) || !rfc1918(r@[j].ip)) && (rfc1918(
                r@[i].ip,
            ) == rfc1918(r@[j].ip) ==> r@[i].prefix >= r@[j].prefix),
{
    let mut out: Vec<Candidate> = Vec::new();
    let mut k: u8 = 0;
    while k < 46
        invariant
            k <= 46,
            out@.map_values(|c: Candidate| cand_view(c)) == ranked_upto(addrs@, k as nat),
        decreases 46 - k,
    {
        let ghost before = out@.map_values(|c: Candidate| cand_view(c));
        let mut i: usize = 0;
        while i < addrs.len()
            invariant
                k < 46,
                i <= addrs@.len(),
                out@.map_values(|c: Candidate| cand_view(c)) == before + with_rank(
                    addrs@.take(i as int),
                    k as nat,
                ),
            decreases addrs.len() - i,
        {
            assert(addrs@.take(i + 1).drop_last() =~= addrs@.take(i as int));
            match candidate_of(&addrs[i]) {
                Some(c) => {
                    let class: u8 = if is_rfc1918(c.ip) {
                        0
                    } else {
                        23
                    };
                    if class + (30 - c.prefix) == k {
                        let ghost cv = cand_view(c);
                        let ghost pre = out@;
                        out.push(c);
                        assert(out@.map_values(|c: Candidate| cand_view(c)) =~= pre.map_values(
                            |c: Candidate| cand_view(c),
                        ).push(cv));
                    }
                },
                None => {},
            }
            i = i + 1;
        }
        assert(addrs@.take(addrs.len() as int) =~= addrs@);
        k = k + 1;
    }
    proof {
        lemma_ranked_order(addrs@);
        let rk = ranked(addrs@);
        assert forall|i: int, j: int| 0 <= i < j < out@.len() implies (rfc1918(out@[i].ip)
            || !rfc1918(out@[j].ip)) && (rfc1918(out@[i].ip) == rfc1918(out@[j].ip)
            ==> out@[i].prefix >= out@[j].prefix) by {
            assert(cand_view(out@[i]) == rk[i]);
            assert(cand_view(out@[j]) == rk[j]);
            assert(offered_before(rk[i], rk[j]));
        }
    }
    out
}

/// `n` is the network offered for candidate `c` (name, address, prefix):
/// its subnet, host count and the conventional gateway, with the given SSID
/// and search domain.
pub open spec fn offered(
    n: NetworkInfo,
    c: (Seq<char>, u32, nat),
    search_domain: Option<Seq<char>>,
    ssid: Option<Seq<char>>,
) -> bool {
    enriched(
        n,
        c.0,
        ipv4_text(c.1),
        cidr_text(net_base(c.1 as nat, c.2), c.2),
        c.2 as u8,
        if size_for(c.2) > 1 {
            Some(ipv4_text((net_base(c.1 as nat, c.2) + 1) as u32))
        } else {
            None
        },
        hosts_for(c.2) as u32,
        search_domain,
        ssid,
    )
}

/// The network offered for a candidate: its subnet, host count and the
/// conventional gateway, with the detected SSID and search domain.
pub fn candidate_network(c: &Candidate, ssid: Option<String>, search_domain: Option<String>) -> (r:
    Option<NetworkInfo>)
    ensures
        r is Some <==> c.prefix <= 32,
        r matches Some(n) ==> offered(
            n,
            cand_view(*c),
            opt_seq(search_domain),
            opt_seq(ssid),
        ),
{
    let net = match Ipv4Net::new(c.ip, c.prefix) {
        Some(n) => n,
        None => return None,
    };
    let hc = network_host_count(net);
    let gw = match guess_gateway(net) {
        Some(g) => Some(ipv4_to_string(g)),
        None => None,
    };
    let cidr = cidr_string(&net);
    Some(enrich_network(c.name.clone(), ipv4_to_string(c.ip), cidr, c.prefix, gw, hc, search_domain, ssid))
}

/// A network fit to be listed for scanning: a prefix between /8 and /30, a
/// CIDR text with its `/`, and a local address.
pub open spec fn listable(n: NetworkInfo) -> bool {
    &&& 8 <= n.prefix <= 30
    &&& n.cidr@.contains('/')
    &&& n.local_ip@.len() > 0
}

/// The SSID detected for an interface, when one was.
pub open spec fn ssid_for(ssids: Map<Seq<char>, Seq<char>>, name: Seq<char>) -> Option<Seq<char>> {
    if ssids.contains_key(name) {
        Some(ssids[name])
    } else {
        None
    }
}

proof fn lemma_with_rank_prefixes(s: Seq<InterfaceAddr>, k: nat)
    ensures
        forall|i: int|
            0 <= i < with_rank(s, k).len() ==> 8 <= (#[trigger] with_rank(s, k)[i]).2 <= 30,
    decreases s.len(),
{
    if s.len() > 0 {
        lemma_with_rank_prefixes(s.drop_last(), k);
        let r = with_rank(s.drop_last(), k);
        assert forall|i: int| 0 <= i < with_rank(s, k).len() implies 8 <= (
        #[trigger] with_rank(s, k)[i]).2 <= 30 by {
            if i < r.len() {
                assert(with_rank(s, k)[i] == r[i]);
            }
        }
    }
}

proof fn lemma_ranked_prefixes(s: Seq<InterfaceAddr>, k: nat)
    ensures
        forall|i: int|
            0 <= i < ranked_upto(s, k).len() ==> 8 <= (#[trigger] ranked_upto(s, k)[i]).2 <= 30,
    decreases k,
{
    if k > 0 {
        lemma_ranked_prefixes(s, (k - 1) as nat);
        lemma_with_rank_prefixes(s, (k - 1) as nat);
        let a = ranked_upto(s, (k - 1) as nat);
        let b = with_rank(s, (k - 1) as nat);
        assert forall|i: int| 0 <= i < ranked_upto(s, k).len() implies 8 <= (
        #[trigger] ranked_upto(s, k)[i]).2 <= 30 by {
            if i < a.len() {
                assert(ranked_upto(s, k)[i] == a[i]);
            } else {
                assert(ranked_upto(s, k)[i] == b[i - a.len()]);
            }
        }
    }
}

/// Every scannable IPv4 network of the given interface addresses, best
/// candidate first; `ssids` holds the SSID detected for each interface that
/// has one.
pub fn list_networks(
    addrs: &[InterfaceAddr],
    ssids: &TextMap,
    search_domain: Option<String>,
) -> (r: Vec<NetworkInfo>)
    ensures
        r@.len() == ranked(addrs@).len(),
        forall|i: int|
            0 <= i < r@.len() ==> offered(
                #[trigger] r@[i],
                ranked(addrs@)[i],
                opt_seq(search_domain),
                ssid_for(ssids@, ranked(addrs@)[i].0),
            ),
        forall|i: int| 0 <= i < r@.len() ==> listable(#[trigger] r@[i]),
        forall|i: int, j: int|
            0 <= i < j < r@.len() ==> offered_before(ranked(addrs@)[i], ranked(addrs@)[j]),
        forall|i: int, j: int|
            0 <= i < j < r@.len() ==> (rfc1918(ranked(addrs@)[i].1) == rfc1918(ranked(addrs@)[j].1)
                ==> r@[i].prefix >= r@[j].prefix),
{
    let cands = select_candidates(addrs);
    let ghost rk = ranked(addrs@);
    proof {
        lemma_ranked_prefixes(addrs@, 46);
        lemma_ranked_order(addrs@);
    }
    let mut out: Vec<NetworkInfo> = Vec::new();
    for i in 0..cands.len()
        invariant
            rk == ranked(addrs@),
            cands@.map_values(|c: Candidate| cand_view(c)) == rk,
            forall|j: int| 0 <= j < rk.len() ==> 8 <= (#[trigger] rk[j]).2 <= 30,
            out@.len() == i,
            forall|j: int|
                0 <= j < i ==> offered(
                    #[trigger] out@[j],
                    rk[j],
                    opt_seq(search_domain),
                    ssid_for(ssids@, rk[j].0),
                ),
            forall|j: int| 0 <= j < i ==> listable(#[trigger] out@[j]),
            forall|j: int| 0 <= j < i ==> (#[trigger] out@[j]).prefix == rk[j].2,
            forall|x: int, y: int|
                0 <= x < y < rk.len() ==> offered_before(rk[x], rk[y]),
    {
        let c = &cands[i];
        assert(cand_view(*c) == rk[i as int]);
        let ssid = match ssids.get(c.name.as_str()) {
            Some(s) => Some(s.clone()),
            None => None,
        };
        let n = candidate_network(c, ssid, copy_opt(&search_domain));
        match n {
            Some(n) => {
                proof {
                    let b = net_base(c.ip as nat, c.prefix as nat);
                    let t = ipv4_text(b as u32);
                    assert(n.cidr@[t.len() as int] == '/');
                    assert(ipv4_text(c.ip).len() > 0);
                }
                out.push(n);
            },
            None => {},
        }
    }
    proof {
        assert forall|x: int, y: int| 0 <= x < y < out@.len() implies (rfc1918(rk[x].1) == rfc1918(
            rk[y].1,
        ) ==> out@[x].prefix >= out@[y].prefix) by {
            assert(offered_before(rk[x], rk[y]));
            assert(out@[x].prefix == rk[x].2 && out@[y].prefix == rk[y].2);
        }
    }
    out
}

pub open spec fn no_network_message() -> Seq<char> {
    "No suitable IPv4 network interface found"@
}

/// The network scanned by default: the best of the listed networks, the
/// listing's own error when listing failed.
pub fn detect_network(networks: Result<Vec<NetworkInfo>, String>) -> (r: Result<NetworkInfo, String>)
    ensures
        networks matches Err(e) ==> r == Err::<NetworkInfo, String>(e),
        networks matches Ok(v) ==> (v@.len() > 0 ==> r == Ok::<NetworkInfo, String>(v@[0])),
        networks matches Ok(v) ==> (v@.len() == 0 ==> (r matches Err(e) && e@ == no_network_message())),
        networks matches Ok(v) && (forall|i: int| 0 <= i < v@.len() ==> listable(#[trigger] v@[i]))
            ==> (r matches Ok(n) ==> listable(n)),
{
    match networks {
        Err(e) => Err(e),
        Ok(mut v) => {
            if v.len() > 0 {
                Ok(v.remove(0))
            } else {
                let m = "No suitable IPv4 network interface found";
                proof {
                    reveal_strlit("No suitable IPv4 network interface found");
                }
                Err(m.to_string())
            }
        },
    }
}

// ---------------------------------------------------------------------------
// A caller's selection
// ---------------------------------------------------------------------------

/// The gateway kept for a network: the given one when it is IPv4 text inside
/// the subnet, otherwise the first host.
pub open spec fn kept_gateway(given: Option<Seq<char>>, a: u32, p: nat) -> nat {
    let fallback = net_base(a as nat, p) + 1;
    match given {
        Some(g) => match parse_ipv4(g) {
            Some(x) => if same_net(a as nat, p, x as nat) {
                x as nat
            } else {
                fallback
            },
            None => fallback,
        },
        None => fallback,
    }
}

/// `r` is `info` re-derived from the network `a/p` and local address `l`:
/// subnet, prefix, host count and gateway from the network; the detected
/// SSID (else the given one) and the given search domain (else the detected
/// one) feed medium, fingerprint and automatic name; the given display name,
/// external address and stored id are kept.
pub open spec fn sanitized(
    r: NetworkInfo,
    info: NetworkInfo,
    a: u32,
    p: nat,
    l: u32,
    det_ssid: Option<Seq<char>>,
    det_sd: Option<Seq<char>>,
) -> bool {
    let base = net_base(a as nat, p);
    let cidr = cidr_text(base, p);
    let gws = Some(ipv4_text(kept_gateway(opt_seq(info.gateway), a, p) as u32));
    let sd = match opt_seq(info.search_domain) {
        Some(d) => Some(d),
        None => det_sd,
    };
    let ssid = match det_ssid {
        Some(s) => Some(s),
        None => opt_seq(info.ssid),
    };
    let iface = info.interface_name@;
    &&& r.interface_name@ == iface
    &&& r.local_ip@ == ipv4_text(l)
    &&& r.cidr@ == cidr
    &&& r.prefix == p
    &&& opt_seq(r.gateway) == gws
    &&& r.host_count == hosts_for(p)
    &&& opt_seq(r.search_domain) == sd
    &&& opt_seq(r.ssid) == ssid
    &&& r.media@ == media_of(iface, ssid is Some)
    &&& r.fingerprint@ == fingerprint_of(r.media@, ssid, sd, iface, cidr, gws)
    &&& r.auto_name@ == auto_name_of(ssid, sd, iface, cidr)
    &&& opt_seq(r.display_name) == (if info.display_name is Some {
        opt_seq(info.display_name)
    } else {
        Some(auto_name_of(det_ssid, sd, iface, cidr))
    })
    &&& opt_seq(r.external_ip) == opt_seq(info.external_ip)
    &&& r.db_id == info.db_id
}

pub open spec fn invalid_cidr_message(cidr: Seq<char>, e: Seq<char>) -> Seq<char> {
    "Invalid CIDR "@ + cidr + ": "@ + e
}

pub open spec fn invalid_local_message(local: Seq<char>) -> Seq<char> {
    "Invalid local IP "@ + local + ": invalid IPv4 address syntax"@
}

pub open spec fn outside_message(local: Seq<char>, cidr: Seq<char>) -> Seq<char> {
    "Local IP "@ + local + " is not inside subnet "@ + cidr
}

pub open spec fn prefix_message(p: nat) -> Seq<char> {
    "Unsupported prefix length /"@ + dec_string(p)
}

/// Re-derives a caller's network selection, given how its CIDR text parsed
/// (`network`) and what detection found for SSID and search domain.
pub fn sanitize_with_network(
    info: NetworkInfo,
    network: Result<Ipv4Net, String>,
    detected_ssid: Option<String>,
    detected_search_domain: Option<String>,
) -> (r: Result<NetworkInfo, String>)
    ensures
        network matches Err(e) ==> (r matches Err(m) && m@ == invalid_cidr_message(
            info.cidr@,
            e@,
        )),
        network matches Ok(n) ==> ({
            let a = n.addr_spec();
            let p = n.prefix_spec();
            match parse_ipv4(info.local_ip@) {
                None => r matches Err(m) && m@ == invalid_local_message(info.local_ip@),
                Some(l) => if !same_net(a as nat, p, l as nat) {
                    r matches Err(m) && m@ == outside_message(info.local_ip@, info.cidr@)
                } else if !(8 <= p <= 30) {
                    r matches Err(m) && m@ == prefix_message(p)
                } else {
                    r matches Ok(v) && sanitized(
                        v,
                        info,
                        a,
                        p,
                        l,
                        opt_seq(detected_ssid),
                        opt_seq(detected_search_domain),
                    )
                },
            }
        }),
{
    let net = match network {
        Ok(n) => n,
        Err(e) => {
            let mut m: Vec<char> = Vec::new();
            extend_str(&mut m, "Invalid CIDR ");
            extend_str(&mut m, info.cidr.as_str());
            extend_str(&mut m, ": ");
            extend_str(&mut m, e.as_str());
            return Err(string_of(m.as_slice()));
        },
    };
    let local = match parse_ipv4_str(info.local_ip.as_str()) {
        Some(l) => l,
        None => {
            let mut m: Vec<char> = Vec::new();
            extend_str(&mut m, "Invalid local IP ");
            extend_str(&mut m, info.local_ip.as_str());
            extend_str(&mut m, ": invalid IPv4 address syntax");
            return Err(string_of(m.as_slice()));
        },
    };
    if !net.contains(local) {
        let mut m: Vec<char> = Vec::new();
        extend_str(&mut m, "Local IP ");
        extend_str(&mut m, info.local_ip.as_str());
        extend_str(&mut m, " is not inside subnet ");
        extend_str(&mut m, info.cidr.as_str());
        return Err(string_of(m.as_slice()));
    }
    let prefix = net.prefix();
    if prefix < 8 || prefix > 30 {
        let mut m: Vec<char> = Vec::new();
        extend_str(&mut m, "Unsupported prefix length /");
        push_decimal(&mut m, prefix as u64);
        assert(m@ =~= prefix_message(prefix as nat));
        return Err(string_of(m.as_slice()));
    }
    let base = net.network();
    proof {
        crate::ipv4::lemma_net_bounds(net.addr_spec(), prefix as nat);
        crate::ipv4::lemma_block_bounds(prefix as nat);
    }
    let given = match &info.gateway {
        Some(g) => match parse_ipv4_str(g.as_str()) {
            Some(x) => if net.contains(x) {
                Some(x)
            } else {
                None
            },
            None => None,
        },
        None => None,
    };
    let gw: u32 = match given {
        Some(x) => x,
        None => base + 1,
    };
    let cidr = cidr_string(&net);
    let search_domain = match &info.search_domain {
        Some(d) => Some(d.clone()),
        None => detected_search_domain,
    };
    let hc = network_host_count(net);
    let mut enriched = enrich_network(
        info.interface_name.clone(),
        ipv4_to_string(local),
        cidr,
        prefix,
        Some(ipv4_to_string(gw)),
        hc,
        search_domain,
        detected_ssid,
    );
    if enriched.ssid.is_none() {
        enriched.ssid = copy_opt(&info.ssid);
        match &info.ssid {
            Some(ssid) => {
                enriched.media = classify_media(
                    enriched.interface_name.as_str(),
                    Some(ssid.as_str()),
                ).to_owned();
                enriched.fingerprint = fingerprint(
                    enriched.media.as_str(),
                    Some(ssid.as_str()),
                    as_str_opt(&enriched.search_domain),
                    enriched.interface_name.as_str(),
                    enriched.cidr.as_str(),
                    as_str_opt(&enriched.gateway),
                );
                enriched.auto_name = auto_name(
                    Some(ssid.as_str()),
                    as_str_opt(&enriched.search_domain),
                    enriched.interface_name.as_str(),
                    enriched.cidr.as_str(),
                );
            },
            None => {},
        }
    }
    if info.display_name.is_some() {
        enriched.display_name = copy_opt(&info.display_name);
    }
    if info.external_ip.is_some() {
        enriched.external_ip = copy_opt(&info.external_ip);
    }
    enriched.db_id = info.db_id;
    Ok(enriched)
}

/// Validate a caller-supplied network selection and normalize derived
/// fields; `detected_ssid` and `detected_search_domain` are what detection
/// found on this machine.
pub fn sanitize_network(
    info: NetworkInfo,
    detected_ssid: Option<String>,
    detected_search_domain: Option<String>,
) -> (r: Result<NetworkInfo, String>)
    ensures
        cidr_parse(info.cidr@) matches Err(e) ==> (r matches Err(m) && m@ == invalid_cidr_message(
            info.cidr@,
            e,
        )),
        cidr_parse(info.cidr@) matches Ok(n) ==> ({
            let a = n.0;
            let p = n.1 as nat;
            match parse_ipv4(info.local_ip@) {
                None => r matches Err(m) && m@ == invalid_local_message(info.local_ip@),
                Some(l) => if !same_net(a as nat, p, l as nat) {
                    r matches Err(m) && m@ == outside_message(info.local_ip@, info.cidr@)
                } else if !(8 <= p <= 30) {
                    r matches Err(m) && m@ == prefix_message(p)
                } else {
                    r matches Ok(v) && sanitized(
                        v,
                        info,
                        a,
                        p,
                        l,
                        opt_seq(detected_ssid),
                        opt_seq(detected_search_domain),
                    )
                },
            }
        }),
{
    let net = parse_network(info.cidr.as_str());
    sanitize_with_network(info, net, detected_ssid, detected_search_domain)
}

// ---------------------------------------------------------------------------
// Hosts to probe
// ---------------------------------------------------------------------------

/// Every address of the network but its first (network) and last
/// (broadcast) address, in increasing order.
pub open spec fn inner_hosts(a: u32, p: nat) -> Seq<u32> {
    let base = net_base(a as nat, p);
    let last = net_last(a as nat, p);
    let count: nat = if last >= base + 2 {
        (last - base - 1) as nat
    } else {
        0
    };
    Seq::new(count, |i: int| (base + 1 + i) as u32)
}

/// The hosts probed lie strictly between the network's first and last
/// address, in increasing order.
pub proof fn lemma_inner_hosts_inside(a: u32, p: nat)
    requires
        p <= 32,
    ensures
        forall|i: int|
            0 <= i < inner_hosts(a, p).len() ==> net_base(a as nat, p) < #[trigger] inner_hosts(a, p)[i]
                < net_last(a as nat, p),
        forall|i: int, j: int|
            0 <= i < j < inner_hosts(a, p).len() ==> inner_hosts(a, p)[i] < inner_hosts(a, p)[j],
{
    crate::ipv4::lemma_net_bounds(a, p);
}

/// A network within the scan limit has as many inner hosts as its prefix
/// allows.
proof fn lemma_inner_hosts_count(a: u32, p: nat)
    requires
        p <= 32,
        hosts_for(p) <= MAX_SCAN_HOSTS,
    ensures
        inner_hosts(a, p).len() == hosts_for(p),
        inner_hosts(a, p).len() <= MAX_SCAN_HOSTS,
{
    crate::ipv4::lemma_block_bounds(p);
    crate::ipv4::lemma_net_bounds(a, p);
}

pub open spec fn oversized_message(cidr: Seq<char>, host_count: nat) -> Seq<char> {
    "Subnet "@ + cidr + " has "@ + dec_string(host_count) + " hosts (max 1024). Narrower networks are required for a full scan."@
}

/// The hosts to probe, given how the network's CIDR text parsed.
pub fn hosts_with_network(info: &NetworkInfo, network: Result<Ipv4Net, String>) -> (r: Result<
    Vec<u32>,
    String,
>)
    ensures
        network matches Err(e) ==> (r matches Err(m) && m@ == invalid_cidr_message(
            info.cidr@,
            e@,
        )),
        network matches Ok(n) ==> (if hosts_for(n.prefix_spec()) > MAX_SCAN_HOSTS {
            r matches Err(m) && m@ == oversized_message(info.cidr@, hosts_for(n.prefix_spec()))
        } else if parse_ipv4(info.local_ip@) is None {
            r matches Err(m) && m@ == "Invalid local IP: invalid IPv4 address syntax"@
        } else {
            r matches Ok(h) && h@ == inner_hosts(n.addr_spec(), n.prefix_spec())
        }),
        r matches Ok(h) ==> h@.len() <= MAX_SCAN_HOSTS,
{
    let net = match network {
        Ok(n) => n,
        Err(e) => {
            let mut m: Vec<char> = Vec::new();
            extend_str(&mut m, "Invalid CIDR ");
            extend_str(&mut m, info.cidr.as_str());
            extend_str(&mut m, ": ");
            extend_str(&mut m, e.as_str());
            return Err(string_of(m.as_slice()));
        },
    };
    let size = network_host_count(net);
    if size > MAX_SCAN_HOSTS {
        let mut m: Vec<char> = Vec::new();
        extend_str(&mut m, "Subnet ");
        extend_str(&mut m, info.cidr.as_str());
        extend_str(&mut m, " has ");
        push_decimal(&mut m, size as u64);
        extend_str(&mut m, " hosts (max 1024). Narrower networks are required for a full scan.");
        return Err(string_of(m.as_slice()));
    }
    if parse_ipv4_str(info.local_ip.as_str()).is_none() {
        return Err("Invalid local IP: invalid IPv4 address syntax".to_owned());
    }
    let p = net.prefix();
    proof {
        crate::ipv4::lemma_net_bounds(net.addr_spec(), p as nat);
        lemma_inner_hosts_count(net.addr_spec(), p as nat);
    }
    let base = net.network();
    let last = net.broadcast();
    let mut hosts: Vec<u32> = Vec::new();
    if last as u64 >= base as u64 + 2 {
        let mut x: u32 = base + 1;
        while x < last
            invariant
                base < x <= last,
                hosts@ == inner_hosts(net.addr_spec(), net.prefix_spec()).take(x - base - 1),
                base == net.base_spec(),
                last == net.last_spec(),
                last >= base + 2,
            decreases last - x,
        {
            hosts.push(x);
            assert(hosts@ =~= inner_hosts(net.addr_spec(), net.prefix_spec()).take(x - base));
            x = x + 1;
        }
        assert(hosts@ =~= inner_hosts(net.addr_spec(), net.prefix_spec()));
    } else {
        assert(hosts@ =~= inner_hosts(net.addr_spec(), net.prefix_spec()));
    }
    Ok(hosts)
}

/// The hosts to probe on a network: all but its network and broadcast
/// addresses. A subnet with more than `MAX_SCAN_HOSTS` usable hosts (wider
/// than /22) is refused, whatever the caller's host count says.
pub fn hosts_to_scan(info: &NetworkInfo) -> (r: Result<Vec<u32>, String>)
    ensures
        cidr_parse(info.cidr@) matches Err(e) ==> (r matches Err(m) && m@ == invalid_cidr_message(
            info.cidr@,
            e,
        )),
        cidr_parse(info.cidr@) matches Ok(n) ==> (if hosts_for(n.1 as nat) > MAX_SCAN_HOSTS {
            r matches Err(m) && m@ == oversized_message(info.cidr@, hosts_for(n.1 as nat))
        } else if parse_ipv4(info.local_ip@) is None {
            r matches Err(m) && m@ == "Invalid local IP: invalid IPv4 address syntax"@
        } else {
            r matches Ok(h) && h@ == inner_hosts(n.0, n.1 as nat)
        }),
        r matches Ok(h) ==> h@.len() <= MAX_SCAN_HOSTS,
{
    let net = parse_network(info.cidr.as_str());
    hosts_with_network(info, net)
}

} // verus!
