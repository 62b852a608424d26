//! DHCP discover-only diagnostics: the DHCPDISCOVER packet, the reading of
//! DHCPOFFER / DHCPNAK replies, and the verdict of a probe.
//!
//! Only DHCPDISCOVER is ever built, never DHCPREQUEST, so probing does not
//! accept or replace the machine's lease.

use vstd::prelude::*;
use vstd::utf8::{valid_utf8, decode_utf8};
use crate::text::{chars_of, string_of, trim, trimmed};
use crate::ipv4::{from_octets, ipv4_from_octets, ipv4_text, ipv4_to_string};
use rand::RngCore;

verus! {

pub const DHCP_SERVER_PORT: u16 = 67;

pub const DHCP_CLIENT_PORT: u16 = 68;

pub const BOOTREQUEST: u8 = 1;

pub const BOOTREPLY: u8 = 2;

pub const HTYPE_ETHERNET: u8 = 1;

pub const DHCPDISCOVER: u8 = 1;

pub const DHCPOFFER: u8 = 2;

pub const DHCPNAK: u8 = 6;

pub const OPT_MESSAGE_TYPE: u8 = 53;

pub const OPT_SERVER_ID: u8 = 54;

pub const OPT_LEASE_TIME: u8 = 51;

pub const OPT_SUBNET_MASK: u8 = 1;

pub const OPT_ROUTER: u8 = 3;

pub const OPT_DNS: u8 = 6;

pub const OPT_DOMAIN: u8 = 15;

pub const OPT_PARAM_REQUEST: u8 = 55;

pub const OPT_END: u8 = 255;

/// The four bytes that open the options area (RFC 2131).
pub open spec fn magic_cookie() -> Seq<u8> {
    seq![0x63u8, 0x82u8, 0x53u8, 0x63u8]
}

/// The four bytes of the magic cookie.
pub fn magic_cookie_bytes() -> (r: [u8; 4])
    ensures
        r@ == magic_cookie(),
{
    let r: [u8; 4] = [0x63, 0x82, 0x53, 0x63];
    assert(r@ =~= magic_cookie());
    r
}

/// Why the probe may need elevated privileges, and why it takes no lease.
pub const PRIVILEGE_NOTE: &'static str = "This test binds UDP port 68 briefly and only sends DHCPDISCOVER (no REQUEST), so it will not take a lease. Binding port 68 often requires administrator / root privileges on macOS and Linux.";

pub fn privilege_note() -> (s: String)
    ensures
        s@ == PRIVILEGE_NOTE@,
{
    PRIVILEGE_NOTE.to_owned()
}

// ---------------------------------------------------------------------------
// DHCPDISCOVER
// ---------------------------------------------------------------------------

/// Byte `k` of the big-endian encoding of `x`.
pub open spec fn be_byte(x: u32, k: int) -> u8 {
    if k == 0 {
        (x as nat / 16777216) as u8
    } else if k == 1 {
        ((x as nat / 65536) % 256) as u8
    } else if k == 2 {
        ((x as nat / 256) % 256) as u8
    } else {
        (x as nat % 256) as u8
    }
}

/// Byte `i` of the DHCPDISCOVER packet for transaction `xid` and hardware
/// address `mac`: a BOOTREQUEST header for Ethernet with the broadcast flag,
/// the magic cookie, message type DISCOVER, a parameter request for subnet
/// mask, router, DNS and domain, the end option, zero padding to 300 bytes.
pub open spec fn discover_byte(xid: u32, mac: Seq<u8>, i: int) -> u8 {
    if i == 0 {
        BOOTREQUEST
    } else if i == 1 {
        HTYPE_ETHERNET
    } else if i == 2 {
        6
    } else if 4 <= i < 8 {
        be_byte(xid, i - 4)
    } else if i == 10 {
        0x80
    } else if 28 <= i < 34 {
        mac[i - 28]
    } else if 236 <= i < 240 {
        magic_cookie()[i - 236]
    } else if i == 240 {
        OPT_MESSAGE_TYPE
    } else if i == 241 {
        1
    } else if i == 242 {
        DHCPDISCOVER
    } else if i == 243 {
        OPT_PARAM_REQUEST
    } else if i == 244 {
        4
    } else if i == 245 {
        OPT_SUBNET_MASK
    } else if i == 246 {
        OPT_ROUTER
    } else if i == 247 {
        OPT_DNS
    } else if i == 248 {
        OPT_DOMAIN
    } else if i == 249 {
        OPT_END
    } else {
        0
    }
}

pub open spec fn discover_packet(xid: u32, mac: Seq<u8>) -> Seq<u8> {
    Seq::new(300, |i: int| discover_byte(xid, mac, i))
}

/// The DHCPDISCOVER packet for transaction `xid` from hardware address `mac`.
pub fn build_discover(xid: u32, mac: &[u8; 6]) -> (pkt: Vec<u8>)
    ensures
        pkt@ == discover_packet(xid, mac@),
{
    let mut pkt: Vec<u8> = Vec::new();
    for i in 0..240usize
        invariant
            pkt@.len() == i,
            forall|k: int| 0 <= k < i ==> pkt@[k] == 0,
    {
        pkt.push(0);
    }
    pkt.set(0, BOOTREQUEST);
    pkt.set(1, HTYPE_ETHERNET);
    pkt.set(2, 6);
    pkt.set(4, (xid / 16777216) as u8);
    pkt.set(5, ((xid / 65536) % 256) as u8);
    pkt.set(6, ((xid / 256) % 256) as u8);
    pkt.set(7, (xid % 256) as u8);
    pkt.set(10, 0x80);
    for k in 0..6usize
        invariant
            pkt@.len() == 240,
            forall|j: int|
                0 <= j < 240 && !(28 + k <= j < 34) && !(236 <= j < 240) ==> pkt@[j]
                    == discover_byte(xid, mac@, j),
    {
        pkt.set(28 + k, mac[k]);
    }
    let cookie = magic_cookie_bytes();
    for k in 0..4usize
        invariant
            pkt@.len() == 240,
            cookie@ == magic_cookie(),
            forall|j: int|
                0 <= j < 240 && !(236 + k <= j < 240) ==> pkt@[j] == discover_byte(xid, mac@, j),
    {
        pkt.set(236 + k, cookie[k]);
    }
    pkt.push(OPT_MESSAGE_TYPE);
    pkt.push(1);
    pkt.push(DHCPDISCOVER);
    pkt.push(OPT_PARAM_REQUEST);
    pkt.push(4);
    pkt.push(OPT_SUBNET_MASK);
    pkt.push(OPT_ROUTER);
    pkt.push(OPT_DNS);
    pkt.push(OPT_DOMAIN);
    pkt.push(OPT_END);
    while pkt.len() < 300
        invariant
            250 <= pkt@.len() <= 300,
            forall|j: int| 0 <= j < pkt@.len() ==> pkt@[j] == discover_byte(xid, mac@, j),
        decreases 300 - pkt@.len(),
    {
        pkt.push(0);
    }
    assert(pkt@ =~= discover_packet(xid, mac@));
    pkt
}

// ---------------------------------------------------------------------------
// Replies
// ---------------------------------------------------------------------------

/// The big-endian 32-bit value at `b[i..i + 4]`.
pub open spec fn be32(b: Seq<u8>, i: int) -> u32 {
    from_octets(b[i] as nat, b[i + 1] as nat, b[i + 2] as nat, b[i + 3] as nat) as u32
}

/// What the options of a reply say so far.
#[verifier::ext_equal]
pub ghost struct OptFields {
    pub msg_type: Option<u8>,
    pub server_id: Option<u32>,
    pub lease: Option<u32>,
    pub mask: Option<u32>,
    pub router: Option<u32>,
    pub dns: Seq<u32>,
    pub domain: Option<Seq<char>>,
}

pub open spec fn no_fields() -> OptFields {
    OptFields {
        msg_type: None,
        server_id: None,
        lease: None,
        mask: None,
        router: None,
        dns: Seq::empty(),
        domain: None,
    }
}

/// The addresses of a DNS option: one per complete group of four bytes.
pub open spec fn chunks4(v: Seq<u8>) -> Seq<u32> {
    Seq::new(v.len() / 4, |k: int| be32(v, 4 * k))
}

/// The effect of one option on what is known: a later option of the same
/// kind overrides (DNS servers accumulate); an option of the wrong length,
/// an undecodable or blank domain, or an unknown code changes nothing.
pub open spec fn apply_option(f: OptFields, code: u8, v: Seq<u8>) -> OptFields {
    if code == OPT_MESSAGE_TYPE && v.len() == 1 {
        OptFields { msg_type: Some(v[0]), ..f }
    } else if code == OPT_SERVER_ID && v.len() == 4 {
        OptFields { server_id: Some(be32(v, 0)), ..f }
    } else if code == OPT_LEASE_TIME && v.len() == 4 {
        OptFields { lease: Some(be32(v, 0)), ..f }
    } else if code == OPT_SUBNET_MASK && v.len() == 4 {
        OptFields { mask: Some(be32(v, 0)), ..f }
    } else if code == OPT_ROUTER && v.len() >= 4 {
        OptFields { router: Some(be32(v, 0)), ..f }
    } else if code == OPT_DNS {
        OptFields { dns: f.dns + chunks4(v), ..f }
    } else if code == OPT_DOMAIN && valid_utf8(v) && trim(decode_utf8(v)).len() > 0 {
        OptFields { domain: Some(trim(decode_utf8(v))), ..f }
    } else {
        f
    }
}

/// The option area from offset `i` on: pad bytes are skipped, the end
/// option or a truncated option stops the walk, every other option is
/// `code, length, value`.
pub open spec fn scan_options(d: Seq<u8>, i: int, f: OptFields) -> OptFields
    decreases d.len() - i,
{
    if i < 0 || i >= d.len() || d[i] == OPT_END {
        f
    } else if d[i] == 0 {
        scan_options(d, i + 1, f)
    } else if i + 1 >= d.len() || i + 2 + d[i + 1] > d.len() {
        f
    } else {
        let l = d[i + 1] as int;
        scan_options(d, i + 2 + l, apply_option(f, d[i], d.subrange(i + 2, i + 2 + l)))
    }
}

/// A reply to a DISCOVER, as read from its bytes.
#[derive(Debug, Clone)]
pub struct DhcpOffer {
    pub server_ip: Option<String>,
    pub offered_ip: String,
    pub lease_seconds: Option<u32>,
    pub subnet_mask: Option<String>,
    pub gateway: Option<String>,
    pub dns_servers: Vec<String>,
    pub domain: Option<String>,
    /// Time from sending the DISCOVER to receiving this reply, in nanoseconds.
    pub elapsed_ns: u64,
    pub message_type: String,
}

pub open spec fn opt_text(o: Option<String>) -> Option<Seq<char>> {
    match o {
        Some(s) => Some(s@),
        None => None,
    }
}

pub open spec fn opt_ip_text(o: Option<u32>) -> Option<Seq<char>> {
    match o {
        Some(x) => Some(ipv4_text(x)),
        None => None,
    }
}

/// The reply's header and options pass the checks of a reply to our DISCOVER.
pub open spec fn reply_header_ok(d: Seq<u8>, xid: u32) -> bool {
    &&& d.len() >= 240
    &&& d[0] == BOOTREPLY
    &&& be32(d, 4) == xid
    &&& d.subrange(236, 240) == magic_cookie()
}

/// The options of a reply.
pub open spec fn reply_fields(d: Seq<u8>) -> OptFields {
    scan_options(d, 240, no_fields())
}

/// The message type name of a reply: OFFER, NAK, or none for anything else.
pub open spec fn message_kind(t: Option<u8>) -> Option<Seq<char>> {
    match t {
        Some(v) => if v == DHCPOFFER {
            Some("OFFER"@)
        } else if v == DHCPNAK {
            Some("NAK"@)
        } else {
            None
        },
        None => None,
    }
}

/// A reply is reported when its header is ours, its type is OFFER or NAK,
/// and an OFFER names a non-zero address.
pub open spec fn offer_accepted(d: Seq<u8>, xid: u32) -> bool {
    &&& reply_header_ok(d, xid)
    &&& message_kind(reply_fields(d).msg_type) is Some
    &&& !(reply_fields(d).msg_type == Some(DHCPOFFER) && be32(d, 16) == 0)
}

/// The server reported for a reply is the one its server-identifier option
/// names, whatever the header's `siaddr` holds; `siaddr` is reported only
/// when no such option was given, and only when it is not 0.0.0.0.
pub proof fn lemma_server_preference(o: DhcpOffer, d: Seq<u8>, elapsed_ns: u64)
    requires
        offer_matches(o, d, elapsed_ns),
    ensures
        reply_fields(d).server_id matches Some(s) ==> opt_text(o.server_ip) == Some(ipv4_text(s)),
        reply_fields(d).server_id is None && be32(d, 20) != 0 ==> opt_text(o.server_ip) == Some(
            ipv4_text(be32(d, 20)),
        ),
        reply_fields(d).server_id is None && be32(d, 20) == 0 ==> o.server_ip is None,
{
}

/// Reading the options of a reply whose options are a message type, a
/// four-byte server identifier and the end mark: the identifier is the
/// four bytes after its code and length.
pub proof fn lemma_server_option_bytes(d: Seq<u8>)
    requires
        d.len() == 250,
        d[240] == OPT_MESSAGE_TYPE,
        d[241] == 1,
        d[243] == OPT_SERVER_ID,
        d[244] == 4,
        d[249] == OPT_END,
    ensures
        reply_fields(d).msg_type == Some(d[242]),
        reply_fields(d).server_id == Some(be32(d, 245)),
{
    let f0 = no_fields();
    let f1 = apply_option(f0, d[240], d.subrange(242, 243));
    let f2 = apply_option(f1, d[243], d.subrange(245, 249));
    assert(d.subrange(242, 243)[0] == d[242]);
    assert(be32(d.subrange(245, 249), 0) == be32(d, 245));
    assert(scan_options(d, 249, f2) == f2);
    assert(scan_options(d, 243, f1) == scan_options(d, 249, f2));
    assert(scan_options(d, 240, f0) == scan_options(d, 243, f1));
}

/// An offer read from a reply whose options are a message type, a four-byte
/// server identifier and the end mark reports the identifier's address as
/// its server, whatever the header's `siaddr` holds.
pub proof fn lemma_offer_reports_identified_server(o: DhcpOffer, d: Seq<u8>, elapsed_ns: u64)
    requires
        offer_matches(o, d, elapsed_ns),
        d.len() == 250,
        d[240] == OPT_MESSAGE_TYPE,
        d[241] == 1,
        d[243] == OPT_SERVER_ID,
        d[244] == 4,
        d[249] == OPT_END,
    ensures
        opt_text(o.server_ip) == Some(ipv4_text(be32(d, 245))),
{
    lemma_server_option_bytes(d);
    lemma_server_preference(o, d, elapsed_ns);
}

/// A DISCOVER carries its transaction id where replies echo it, and a
/// DISCOVER (our own, heard back on the wire) is never taken for a reply.
pub proof fn lemma_discover_round_trip(xid: u32, mac: Seq<u8>, other: u32)
    ensures
        be32(discover_packet(xid, mac), 4) == xid,
        !offer_accepted(discover_packet(xid, mac), other),
{
    crate::ipv4::lemma_octets_of(xid);
    let p = discover_packet(xid, mac);
    assert(p[4] == be_byte(xid, 0));
    assert(p[5] == be_byte(xid, 1));
    assert(p[6] == be_byte(xid, 2));
    assert(p[7] == be_byte(xid, 3));
    assert(p[0] == BOOTREQUEST);
}

/// The reported server: the server-identifier option, else a non-zero
/// `siaddr` header field.
pub open spec fn server_of(d: Seq<u8>) -> Option<Seq<char>> {
    match reply_fields(d).server_id {
        Some(s) => Some(ipv4_text(s)),
        None => if be32(d, 20) != 0 {
            Some(ipv4_text(be32(d, 20)))
        } else {
            None
        },
    }
}

/// What `parse_offer` reports of an accepted reply.
pub open spec fn offer_matches(o: DhcpOffer, d: Seq<u8>, elapsed_ns: u64) -> bool {
    let f = reply_fields(d);
    &&& o.message_type@ == message_kind(f.msg_type).unwrap()
    &&& o.offered_ip@ == ipv4_text(be32(d, 16))
    &&& opt_text(o.server_ip) == server_of(d)
    &&& o.lease_seconds == f.lease
    &&& opt_text(o.subnet_mask) == opt_ip_text(f.mask)
    &&& opt_text(o.gateway) == opt_ip_text(f.router)
    &&& o.dns_servers@.len() == f.dns.len()
    &&& forall|k: int| 0 <= k < f.dns.len() ==> #[trigger] o.dns_servers@[k]@ == ipv4_text(f.dns[k])
    &&& opt_text(o.domain) == f.domain
    &&& o.elapsed_ns == elapsed_ns
}

/// `std::str::from_utf8`.
/// Claims: `Some` exactly when the bytes are valid UTF-8 (vstd's
/// `valid_utf8`), and then the text holds the decoded characters.
#[verifier::external_body]
fn utf8_str(bytes: &[u8]) -> (r: Option<&str>)
    ensures
        r is Some <==> valid_utf8(bytes@),
        r matches Some(s) ==> s@ == decode_utf8(bytes@),
{
    std::str::from_utf8(bytes).ok()
}

fn be32_at(d: &[u8], i: usize) -> (r: u32)
    requires
        i + 4 <= d@.len(),
    ensures
        r == be32(d@, i as int),
{
    ipv4_from_octets(d[i], d[i + 1], d[i + 2], d[i + 3])
}

/// Exec copy of the option state.
struct Fields {
    msg_type: Option<u8>,
    server_id: Option<u32>,
    lease: Option<u32>,
    mask: Option<u32>,
    router: Option<u32>,
    dns: Vec<u32>,
    domain: Option<Vec<char>>,
}

spec fn fields_view(f: Fields) -> OptFields {
    OptFields {
        msg_type: f.msg_type,
        server_id: f.server_id,
        lease: f.lease,
        mask: f.mask,
        router: f.router,
        dns: f.dns@,
        domain: match f.domain {
            Some(v) => Some(v@),
            None => None,
        },
    }
}

fn apply_option_exec(f: &mut Fields, code: u8, v: &[u8])
    ensures
        fields_view(*final(f)) == apply_option(fields_view(*old(f)), code, v@),
{
    if code == OPT_MESSAGE_TYPE && v.len() == 1 {
        f.msg_type = Some(v[0]);
    } else if code == OPT_SERVER_ID && v.len() == 4 {
        f.server_id = Some(be32_at(v, 0));
    } else if code == OPT_LEASE_TIME && v.len() == 4 {
        f.lease = Some(be32_at(v, 0));
    } else if code == OPT_SUBNET_MASK && v.len() == 4 {
        f.mask = Some(be32_at(v, 0));
    } else if code == OPT_ROUTER && v.len() >= 4 {
        f.router = Some(be32_at(v, 0));
    } else if code == OPT_DNS {
        let ghost start = f.dns@;
        let n = v.len() / 4;
        for k in 0..n
            invariant
                n == v@.len() / 4,
                f.dns@ == start + chunks4(v@).take(k as int),
                f.msg_type == old(f).msg_type,
                f.server_id == old(f).server_id,
                f.lease == old(f).lease,
                f.mask == old(f).mask,
                f.router == old(f).router,
                f.domain == old(f).domain,
        {
            assert(4 * k + 4 <= v@.len()) by (nonlinear_arith)
                requires
                    k < n,
                    n == v@.len() / 4,
            ;
            let vl = v.len();
            assert(4 * k + 4 <= vl);
            let idx: usize = 4 * k;
            f.dns.push(be32_at(v, idx));
            assert(chunks4(v@).take(k + 1) =~= chunks4(v@).take(k as int).push(be32(v@, 4 * k)));
        }
        assert(chunks4(v@).take(n as int) =~= chunks4(v@));
    } else if code == OPT_DOMAIN {
        match utf8_str(v) {
            Some(s) => {
                let c = chars_of(s);
                let t = trimmed(c.as_slice());
                if t.len() > 0 {
                    let mut d: Vec<char> = Vec::new();
                    crate::text::extend_chars(&mut d, t);
                    assert(d@ =~= t@);
                    f.domain = Some(d);
                }
            },
            None => {},
        }
    }
    proof {
        let a = apply_option(fields_view(*old(f)), code, v@);
        let b = fields_view(*f);
        assert(a.msg_type == b.msg_type);
        assert(a.server_id == b.server_id);
        assert(a.lease == b.lease);
        assert(a.mask == b.mask);
        assert(a.router == b.router);
        assert(a.dns =~= b.dns);
        assert(a.domain == b.domain);
    }
}

fn ip_strings(v: &Vec<u32>) -> (r: Vec<String>)
    ensures
        r@.len() == v@.len(),
        forall|k: int| 0 <= k < v@.len() ==> #[trigger] r@[k]@ == ipv4_text(v@[k]),
{
    let mut r: Vec<String> = Vec::new();
    for k in 0..v.len()
        invariant
            r@.len() == k,
            forall|j: int| 0 <= j < k ==> #[trigger] r@[j]@ == ipv4_text(v@[j]),
    {
        r.push(ipv4_to_string(v[k]));
    }
    r
}

fn opt_ip_string(o: Option<u32>) -> (r: Option<String>)
    ensures
        opt_text(r) == opt_ip_text(o),
{
    match o {
        Some(x) => Some(ipv4_to_string(x)),
        None => None,
    }
}

/// Reads a reply to the DISCOVER with transaction `expected_xid`, received
/// `elapsed_ns` nanoseconds after sending.
pub fn parse_offer(data: &[u8], expected_xid: u32, elapsed_ns: u64) -> (r: Option<DhcpOffer>)
    ensures
        r is Some <==> offer_accepted(data@, expected_xid),
        r matches Some(o) ==> offer_matches(o, data@, elapsed_ns),
{
    if data.len() < 240 {
        return None;
    }
    if data[0] != BOOTREPLY {
        return None;
    }
    let xid = be32_at(data, 4);
    if xid != expected_xid {
        return None;
    }
    let cookie = magic_cookie_bytes();
    if data[236] != cookie[0] || data[237] != cookie[1] || data[238] != cookie[2] || data[239]
        != cookie[3] {
        proof {
            if data@.subrange(236, 240) == magic_cookie() {
                assert(data@.subrange(236, 240)[0] == data@[236]);
                assert(data@.subrange(236, 240)[1] == data@[237]);
                assert(data@.subrange(236, 240)[2] == data@[238]);
                assert(data@.subrange(236, 240)[3] == data@[239]);
            }
        }
        return None;
    }
    assert(data@.subrange(236, 240) =~= magic_cookie());
    let offered = be32_at(data, 16);
    let siaddr = be32_at(data, 20);
    let mut f = Fields {
        msg_type: None,
        server_id: None,
        lease: None,
        mask: None,
        router: None,
        dns: Vec::new(),
        domain: None,
    };
    assert(fields_view(f) =~= no_fields());
    let mut i: usize = 240;
    while i < data.len()
        invariant_except_break
            240 <= i,
            scan_options(data@, 240, no_fields()) == scan_options(data@, i as int, fields_view(f)),
        ensures
            scan_options(data@, 240, no_fields()) == fields_view(f),
        decreases data.len() - i,
    {
        let code = data[i];
        if code == OPT_END {
            break;
        }
        if code == 0 {
            i = i + 1;
            continue;
        }
        if i + 1 >= data.len() {
            break;
        }
        let len = data[i + 1] as usize;
        if len > data.len() - i - 2 {
            break;
        }
        let val = &data[i + 2..i + 2 + len];
        assert(val@ =~= data@.subrange(i + 2, i + 2 + len));
        apply_option_exec(&mut f, code, val);
        i = i + 2 + len;
    }
    let message_type = match f.msg_type {
        Some(t) => {
            if t == DHCPOFFER {
                "OFFER".to_owned()
            } else if t == DHCPNAK {
                "NAK".to_owned()
            } else {
                return None;
            }
        },
        None => return None,
    };
    if f.msg_type == Some(DHCPOFFER) && offered == 0 {
        return None;
    }
    let server_ip = match f.server_id {
        Some(s) => Some(ipv4_to_string(s)),
        None => {
            if siaddr == 0 {
                None
            } else {
                Some(ipv4_to_string(siaddr))
            }
        },
    };
    let dns_servers = ip_strings(&f.dns);
    let domain = match &f.domain {
        Some(d) => Some(string_of(d.as_slice())),
        None => None,
    };
    Some(
        DhcpOffer {
            server_ip,
            offered_ip: ipv4_to_string(offered),
            lease_seconds: f.lease,
            subnet_mask: opt_ip_string(f.mask),
            gateway: opt_ip_string(f.router),
            dns_servers,
            domain,
            elapsed_ns,
            message_type,
        },
    )
}

// ---------------------------------------------------------------------------
// A discover probe
// ---------------------------------------------------------------------------

/// A random 32-bit value from rand's thread-local generator
/// (`rand::thread_rng().next_u32()`). Nothing is claimed of the value.
#[verifier::external_body]
fn random_u32() -> (r: u32) {
    rand::thread_rng().next_u32()
}

/// The locally administered hardware address used when the interface's own
/// address is not known.
pub open spec fn fallback_mac() -> Seq<u8> {
    seq![0x02u8, 0x00u8, 0x00u8, 0x00u8, 0x00u8, 0x01u8]
}

/// The outcome of a discover probe.
#[derive(Debug, Clone)]
pub struct DhcpDiscoverResult {
    pub success: bool,
    pub privilege_note: String,
    pub timeout_ms: u32,
    pub offers: Vec<DhcpOffer>,
    pub error: Option<String>,
}

/// A probe in progress: the transaction id, the offers kept so far, and
/// whether a NAK was seen.
pub struct DiscoverSession {
    pub xid: u32,
    pub offers: Vec<DhcpOffer>,
    pub saw_nak: bool,
}

pub open spec fn nak_message() -> Seq<char> {
    "DHCP server responded with NAK (no offer)."@
}

pub open spec fn timeout_message() -> Seq<char> {
    "No DHCP offer received before timeout."@
}

impl DiscoverSession {
    /// Starts a probe with a random transaction id; returns the session and
    /// the DISCOVER packet to broadcast from `mac_hint` (or the fallback
    /// address).
    pub fn start(mac_hint: Option<[u8; 6]>) -> (r: (DiscoverSession, Vec<u8>))
        ensures
            r.0.offers@.len() == 0,
            !r.0.saw_nak,
            r.1@ == discover_packet(
                r.0.xid,
                match mac_hint {
                    Some(m) => m@,
                    None => fallback_mac(),
                },
            ),
    {
        let mac: [u8; 6] = match mac_hint {
            Some(m) => m,
            None => [0x02, 0x00, 0x00, 0x00, 0x00, 0x01],
        };
        assert(mac_hint is None ==> mac@ =~= fallback_mac());
        let xid = random_u32();
        let packet = build_discover(xid, &mac);
        (DiscoverSession { xid, offers: Vec::new(), saw_nak: false }, packet)
    }

    /// Takes in one received datagram: a NAK for our transaction is
    /// remembered, an accepted OFFER is kept, anything else is ignored.
    #[verifier::rlimit(40)]
    pub fn on_reply(&mut self, data: &[u8], elapsed_ns: u64)
        ensures
            final(self).xid == old(self).xid,
            !offer_accepted(data@, old(self).xid) ==> final(self).offers@ == old(self).offers@
                && final(self).saw_nak == old(self).saw_nak,
            offer_accepted(data@, old(self).xid) && reply_fields(data@).msg_type == Some(DHCPNAK)
                ==> final(self).offers@ == old(self).offers@ && final(self).saw_nak,
            offer_accepted(data@, old(self).xid) && reply_fields(data@).msg_type == Some(DHCPOFFER)
                ==> final(self).saw_nak == old(self).saw_nak && final(self).offers@.len()
                == old(self).offers@.len() + 1 && final(self).offers@.take(
                old(self).offers@.len() as int,
            ) == old(self).offers@ && offer_matches(
                final(self).offers@.last(),
                data@,
                elapsed_ns,
            ),
    {
        match parse_offer(data, self.xid, elapsed_ns) {
            Some(offer) => {
                let kind = chars_of(offer.message_type.as_str());
                let nak = chars_of("NAK");
                let is_nak = crate::text::chars_eq(kind.as_slice(), nak.as_slice());
                proof {
                    reveal_strlit("NAK");
                    reveal_strlit("OFFER");
                    assert(offer.message_type@ == message_kind(
                        reply_fields(data@).msg_type,
                    ).unwrap());
                    if reply_fields(data@).msg_type == Some(DHCPOFFER) {
                        assert(kind@ == "OFFER"@);
                        assert(kind@.len() == 5);
                        assert(nak@.len() == 3);
                        assert(!is_nak);
                    } else {
                        assert(kind@ == "NAK"@);
                        assert(is_nak);
                    }
                }
                if is_nak {
                    self.saw_nak = true;
                } else {
                    let ghost before = self.offers@;
                    let ghost og = offer;
                    assert(offer_matches(og, data@, elapsed_ns));
                    self.offers.push(offer);
                    assert(self.offers@.take(before.len() as int) =~= before);
                    assert(self.offers@.last() == og);
                }
            },
            None => {},
        }
    }

    /// The verdict once the wait is over: success when an offer was kept,
    /// otherwise an error that tells a NAK apart from silence.
    pub fn finish(self, timeout_ms: u32) -> (r: DhcpDiscoverResult)
        ensures
            r.success == (self.offers@.len() > 0),
            r.privilege_note@ == PRIVILEGE_NOTE@,
            r.timeout_ms == timeout_ms,
            r.offers@ == self.offers@,
            self.offers@.len() > 0 ==> r.error is None,
            self.offers@.len() == 0 && self.saw_nak ==> (r.error matches Some(e) && e@
                == nak_message()),
            self.offers@.len() == 0 && !self.saw_nak ==> (r.error matches Some(e) && e@
                == timeout_message()),
    {
        let note = privilege_note();
        if self.offers.len() == 0 {
            let error = if self.saw_nak {
                "DHCP server responded with NAK (no offer).".to_owned()
            } else {
                "No DHCP offer received before timeout.".to_owned()
            };
            DhcpDiscoverResult {
                success: false,
                privilege_note: note,
                timeout_ms,
                offers: self.offers,
                error: Some(error),
            }
        } else {
            DhcpDiscoverResult {
                success: true,
                privilege_note: note,
                timeout_ms,
                offers: self.offers,
                error: None,
            }
        }
    }

    /// The verdict when a socket operation failed: unsuccessful, with the
    /// offers kept so far and the error text.
    pub fn fail(self, timeout_ms: u32, error: String) -> (r: DhcpDiscoverResult)
        ensures
            !r.success,
            r.privilege_note@ == PRIVILEGE_NOTE@,
            r.timeout_ms == timeout_ms,
            r.offers@ == self.offers@,
            (r.error matches Some(e) && e@ == error@),
    {
        DhcpDiscoverResult {
            success: false,
            privilege_note: privilege_note(),
            timeout_ms,
            offers: self.offers,
            error: Some(error),
        }
    }
}

} // verus!
