//! Network identity: media classification, the fingerprint that scopes
//! device caches and renames, friendly auto-names, the readers of the
//! platform tools' output for the Wi-Fi SSID and the DNS search domain, and
//! the plausibility check of a reported external address.

use vstd::prelude::*;
use crate::text::{
    chars_eq, chars_of, contains_chars, contains_seq, extend_chars, extend_str, is_hex,
    is_hex_char, lines, lines_of, lower_all, lower_seq, split_chars, split_on, starts_with,
    starts_with_chars, string_of, trim, trimmed, views_of, words, words_of,
};
use crate::neighbors::{find_char, first_index};
use crate::ipv4::{parse_ipv4, parse_ipv4_chars};

verus! {

// ---------------------------------------------------------------------------
// Media, fingerprint, auto-name
// ---------------------------------------------------------------------------

/// The medium of an interface: Wi-Fi when an SSID is known or the name says
/// so, Ethernet by the common Ethernet name prefixes, otherwise unknown.
pub open spec fn media_of(interface: Seq<char>, has_ssid: bool) -> Seq<char> {
    let l = lower_seq(interface);
    if has_ssid {
        "wifi"@
    } else if starts_with(l, "wl"@) || contains_seq(l, "wlan"@) || contains_seq(l, "wifi"@)
        || contains_seq(l, "wi-fi"@) {
        "wifi"@
    } else if starts_with(l, "eth"@) || starts_with(l, "enp"@) || starts_with(l, "ens"@)
        || starts_with(l, "eno"@) || starts_with(l, "em"@) || contains_seq(l, "ethernet"@) {
        "ethernet"@
    } else {
        "unknown"@
    }
}

fn has_prefix(l: &[char], p: &str) -> (b: bool)
    ensures
        b == starts_with(l@, p@),
{
    let pc = chars_of(p);
    starts_with_chars(l, pc.as_slice())
}

fn has_infix(l: &[char], p: &str) -> (b: bool)
    ensures
        b == contains_seq(l@, p@),
{
    let pc = chars_of(p);
    contains_chars(l, pc.as_slice())
}

pub fn classify_media(interface: &str, ssid: Option<&str>) -> (r: &'static str)
    ensures
        r@ == media_of(interface@, ssid is Some),
{
    if ssid.is_some() {
        return "wifi";
    }
    let c = chars_of(interface);
    let l = lower_all(c.as_slice());
    let ls = l.as_slice();
    if has_prefix(ls, "wl") || has_infix(ls, "wlan") || has_infix(ls, "wifi") || has_infix(
        ls,
        "wi-fi",
    ) {
        return "wifi";
    }
    if has_prefix(ls, "eth") || has_prefix(ls, "enp") || has_prefix(ls, "ens") || has_prefix(
        ls,
        "eno",
    ) || has_prefix(ls, "em") || has_infix(ls, "ethernet") {
        return "ethernet";
    }
    "unknown"
}

pub open spec fn nonempty(o: Option<Seq<char>>) -> Option<Seq<char>> {
    match o {
        Some(s) => if s.len() > 0 {
            Some(s)
        } else {
            None
        },
        None => None,
    }
}

pub open spec fn opt_view(o: Option<&str>) -> Option<Seq<char>> {
    match o {
        Some(s) => Some(s@),
        None => None,
    }
}

/// Identity key of a network: the SSID when known, else the DNS search
/// domain (both lower-cased), else medium and interface — always followed
/// by CIDR and gateway.
pub open spec fn fingerprint_of(
    media: Seq<char>,
    ssid: Option<Seq<char>>,
    domain: Option<Seq<char>>,
    interface: Seq<char>,
    cidr: Seq<char>,
    gateway: Option<Seq<char>>,
) -> Seq<char> {
    let gw = match gateway {
        Some(g) => g,
        None => Seq::empty(),
    };
    let tail = "|"@ + cidr + "|"@ + gw;
    match nonempty(ssid) {
        Some(s) => "wifi:"@ + lower_seq(s) + tail,
        None => match nonempty(domain) {
            Some(d) => "lan:"@ + lower_seq(d) + tail,
            None => media + ":"@ + interface + tail,
        },
    }
}

/// Networks that differ only in their subnet get different identity keys,
/// so identical SSIDs (or search domains) on different LANs stay apart.
pub proof fn lemma_fingerprint_separates_subnets(
    media: Seq<char>,
    ssid: Option<Seq<char>>,
    domain: Option<Seq<char>>,
    interface: Seq<char>,
    cidr1: Seq<char>,
    cidr2: Seq<char>,
    gateway: Option<Seq<char>>,
)
    requires
        cidr1 != cidr2,
    ensures
        fingerprint_of(media, ssid, domain, interface, cidr1, gateway) != fingerprint_of(
            media,
            ssid,
            domain,
            interface,
            cidr2,
            gateway,
        ),
{
    reveal_strlit("|");
    let gw = match gateway {
        Some(g) => g,
        None => Seq::<char>::empty(),
    };
    let t1 = "|"@ + cidr1 + "|"@ + gw;
    let t2 = "|"@ + cidr2 + "|"@ + gw;
    let head = match nonempty(ssid) {
        Some(s) => "wifi:"@ + lower_seq(s),
        None => match nonempty(domain) {
            Some(d) => "lan:"@ + lower_seq(d),
            None => media + ":"@ + interface,
        },
    };
    assert(fingerprint_of(media, ssid, domain, interface, cidr1, gateway) == head + t1);
    assert(fingerprint_of(media, ssid, domain, interface, cidr2, gateway) == head + t2);
    if head + t1 == head + t2 {
        assert((head + t1).skip(head.len() as int) =~= t1);
        assert((head + t2).skip(head.len() as int) =~= t2);
        assert(t1.len() == t2.len());
        assert(cidr1.len() == cidr2.len());
        assert(t1.subrange(1, 1 + cidr1.len() as int) =~= cidr1);
        assert(t2.subrange(1, 1 + cidr2.len() as int) =~= cidr2);
    }
}

/// Stable-ish identity key used to reattach renames and scope device caches.
pub fn fingerprint(
    media: &str,
    ssid: Option<&str>,
    search_domain: Option<&str>,
    interface: &str,
    cidr: &str,
    gateway: Option<&str>,
) -> (r: String)
    ensures
        r@ == fingerprint_of(
            media@,
            opt_view(ssid),
            opt_view(search_domain),
            interface@,
            cidr@,
            opt_view(gateway),
        ),
{
    let mut out: Vec<char> = Vec::new();
    let s = match ssid {
        Some(x) => {
            let c = chars_of(x);
            if c.len() > 0 {
                Some(c)
            } else {
                None
            }
        },
        None => None,
    };
    let d = match search_domain {
        Some(x) => {
            let c = chars_of(x);
            if c.len() > 0 {
                Some(c)
            } else {
                None
            }
        },
        None => None,
    };
    match s {
        Some(c) => {
            extend_str(&mut out, "wifi:");
            let l = lower_all(c.as_slice());
            extend_chars(&mut out, l.as_slice());
        },
        None => match d {
            Some(c) => {
                extend_str(&mut out, "lan:");
                let l = lower_all(c.as_slice());
                extend_chars(&mut out, l.as_slice());
            },
            None => {
                extend_str(&mut out, media);
                extend_str(&mut out, ":");
                extend_str(&mut out, interface);
            },
        },
    }
    extend_str(&mut out, "|");
    extend_str(&mut out, cidr);
    extend_str(&mut out, "|");
    match gateway {
        Some(g) => extend_str(&mut out, g),
        None => {},
    }
    let ghost gw = match opt_view(gateway) {
        Some(g) => g,
        None => Seq::<char>::empty(),
    };
    assert(out@ =~= fingerprint_of(
        media@,
        opt_view(ssid),
        opt_view(search_domain),
        interface@,
        cidr@,
        opt_view(gateway),
    ));
    string_of(out.as_slice())
}

/// Friendly name of a network: the SSID, else the search domain, else
/// `interface (cidr)`.
pub open spec fn auto_name_of(
    ssid: Option<Seq<char>>,
    domain: Option<Seq<char>>,
    interface: Seq<char>,
    cidr: Seq<char>,
) -> Seq<char> {
    match nonempty(ssid) {
        Some(s) => s,
        None => match nonempty(domain) {
            Some(d) => d,
            None => interface + " ("@ + cidr + ")"@,
        },
    }
}

pub fn auto_name(
    ssid: Option<&str>,
    search_domain: Option<&str>,
    interface: &str,
    cidr: &str,
) -> (r: String)
    ensures
        r@ == auto_name_of(opt_view(ssid), opt_view(search_domain), interface@, cidr@),
{
    match ssid {
        Some(s) => {
            let c = chars_of(s);
            if c.len() > 0 {
                return s.to_owned();
            }
        },
        None => {},
    }
    match search_domain {
        Some(d) => {
            let c = chars_of(d);
            if c.len() > 0 {
                return d.to_owned();
            }
        },
        None => {},
    }
    let mut out: Vec<char> = Vec::new();
    extend_str(&mut out, interface);
    extend_str(&mut out, " (");
    extend_str(&mut out, cidr);
    extend_str(&mut out, ")");
    string_of(out.as_slice())
}

// ---------------------------------------------------------------------------
// Reading the platform tools' output
// ---------------------------------------------------------------------------

/// The first present element.
pub open spec fn first_some<A>(s: Seq<Option<A>>) -> Option<A>
    decreases s.len(),
{
    if s.len() == 0 {
        None
    } else {
        match first_some(s.drop_last()) {
            Some(x) => Some(x),
            None => s.last(),
        }
    }
}

proof fn lemma_first_some_prefix<A>(s: Seq<Option<A>>, n: int)
    requires
        0 <= n <= s.len(),
        first_some(s.take(n)) is Some,
    ensures
        first_some(s) == first_some(s.take(n)),
    decreases s.len(),
{
    if n < s.len() {
        assert(s.drop_last().take(n) =~= s.take(n));
        lemma_first_some_prefix(s.drop_last(), n);
    } else {
        assert(s.take(n) =~= s);
    }
}

/// The text after a prefix (`str::strip_prefix`).
pub open spec fn after_prefix(s: Seq<char>, p: Seq<char>) -> Option<Seq<char>> {
    if starts_with(s, p) {
        Some(s.skip(p.len() as int))
    } else {
        None
    }
}

/// The text after the first `:` (`str::split_once(':')`).
pub open spec fn after_colon(s: Seq<char>) -> Option<Seq<char>> {
    match first_index(s, ':') {
        Some(k) => Some(s.skip(k + 1)),
        None => None,
    }
}

/// The three fields of `a:b:rest` (`str::splitn(3, ':')` giving three parts).
pub open spec fn three_fields(s: Seq<char>) -> Option<(Seq<char>, Seq<char>, Seq<char>)> {
    match first_index(s, ':') {
        Some(k) => {
            let rest = s.skip(k + 1);
            match first_index(rest, ':') {
                Some(j) => Some((s.take(k), rest.take(j), rest.skip(j + 1))),
                None => None,
            }
        },
        None => None,
    }
}

/// What one line of a tool's output says: `Some(Some(v))` is the answer,
/// `Some(None)` ends the search without one, `None` moves to the next line.
pub enum LineFormat {
    /// macOS `ipconfig getsummary`: `SSID : name`.
    IpconfigSummary,
    /// NetworkManager `nmcli -t -f DEVICE,ACTIVE,SSID dev wifi` for an interface.
    Nmcli { interface: String },
    /// Windows `netsh wlan show interfaces`: `SSID : name` (not `BSSID`).
    Netsh,
    /// `/etc/resolv.conf`: `search` / `domain` lines.
    ResolvConf,
    /// Windows `ipconfig /all`: the DNS suffix lines.
    IpconfigAll,
}

pub open spec fn ipconfig_summary_line(l: Seq<char>) -> Option<Option<Seq<char>>> {
    let t = trim(l);
    match after_prefix(t, "SSID : "@) {
        Some(v) => match nonempty(Some(trim(v))) {
            Some(x) => Some(Some(x)),
            None => None,
        },
        None => match after_prefix(t, "SSID: "@) {
            Some(v) => match nonempty(Some(trim(v))) {
                Some(x) => Some(Some(x)),
                None => None,
            },
            None => None,
        },
    }
}

pub open spec fn nmcli_line(l: Seq<char>, interface: Seq<char>) -> Option<Option<Seq<char>>> {
    match three_fields(l) {
        Some(f) => if f.0 == interface && f.1 == "yes"@ && trim(f.2).len() > 0 {
            Some(Some(trim(f.2)))
        } else {
            None
        },
        None => None,
    }
}

pub open spec fn netsh_line(l: Seq<char>) -> Option<Option<Seq<char>>> {
    let t = trim(l);
    let low = lower_seq(t);
    if starts_with(low, "ssid"@) && !starts_with(low, "bssid"@) {
        match after_colon(t) {
            Some(v) => if trim(v).len() > 0 {
                Some(Some(trim(v)))
            } else {
                None
            },
            None => None,
        }
    } else {
        None
    }
}

pub open spec fn resolv_conf_line(l: Seq<char>) -> Option<Option<Seq<char>>> {
    let t = trim(l);
    let rest = match after_prefix(t, "search "@) {
        Some(r) => Some(r),
        None => after_prefix(t, "domain "@),
    };
    match rest {
        Some(r) => {
            let w = words(r);
            if w.len() == 0 {
                Some(None)
            } else if trim(w[0]).len() > 0 && trim(w[0]) != "."@ {
                Some(Some(trim(w[0])))
            } else {
                None
            }
        },
        None => None,
    }
}

pub open spec fn ipconfig_all_line(l: Seq<char>) -> Option<Option<Seq<char>>> {
    let low = lower_seq(l);
    if contains_seq(low, "connection-specific dns suffix"@) || contains_seq(
        low,
        "primary dns suffix"@,
    ) {
        match after_colon(l) {
            Some(v) => if trim(v).len() > 0 {
                Some(Some(trim(v)))
            } else {
                None
            },
            None => None,
        }
    } else {
        None
    }
}

pub open spec fn line_of(f: LineFormat, l: Seq<char>) -> Option<Option<Seq<char>>> {
    match f {
        LineFormat::IpconfigSummary => ipconfig_summary_line(l),
        LineFormat::Nmcli { interface } => nmcli_line(l, interface@),
        LineFormat::Netsh => netsh_line(l),
        LineFormat::ResolvConf => resolv_conf_line(l),
        LineFormat::IpconfigAll => ipconfig_all_line(l),
    }
}

/// The answer of the first deciding line of `out`.
pub open spec fn read_lines(f: LineFormat, out: Seq<char>) -> Option<Seq<char>> {
    match first_some(lines(out).map_values(|l: Seq<char>| line_of(f, l))) {
        Some(d) => d,
        None => None,
    }
}

fn strip_prefix_exec<'a>(s: &'a [char], p: &str) -> (r: Option<&'a [char]>)
    ensures
        r is Some <==> after_prefix(s@, p@) is Some,
        r matches Some(v) ==> after_prefix(s@, p@) == Some(v@),
{
    let pc = chars_of(p);
    if starts_with_chars(s, pc.as_slice()) {
        let n = s.len();
        let k = pc.len();
        let v = &s[k..n];
        assert(v@ =~= s@.skip(k as int));
        Some(v)
    } else {
        None
    }
}

fn after_colon_exec(s: &[char]) -> (r: Option<&[char]>)
    ensures
        r is Some <==> after_colon(s@) is Some,
        r matches Some(v) ==> after_colon(s@) == Some(v@),
{
    match find_char(s, ':') {
        Some(k) => {
            let n = s.len();
            let v = &s[k + 1..n];
            assert(v@ =~= s@.skip(k + 1));
            Some(v)
        },
        None => None,
    }
}

fn owned(s: &[char]) -> (r: Vec<char>)
    ensures
        r@ == s@,
{
    let mut v: Vec<char> = Vec::new();
    extend_chars(&mut v, s);
    assert(v@ =~= s@);
    v
}

fn nonempty_trimmed(v: &[char]) -> (r: Option<Vec<char>>)
    ensures
        r is Some <==> trim(v@).len() > 0,
        r matches Some(x) ==> x@ == trim(v@),
{
    let t = trimmed(v);
    if t.len() > 0 {
        Some(owned(t))
    } else {
        None
    }
}

fn line_exec(f: &LineFormat, l: &[char]) -> (r: Option<Option<Vec<char>>>)
    ensures
        match r {
            Some(Some(v)) => line_of(*f, l@) == Some(Some(v@)),
            Some(None) => line_of(*f, l@) == Some(None::<Seq<char>>),
            None => line_of(*f, l@) is None,
        },
{
    match f {
        LineFormat::IpconfigSummary => {
            let t = trimmed(l);
            match strip_prefix_exec(t, "SSID : ") {
                Some(v) => match nonempty_trimmed(v) {
                    Some(x) => Some(Some(x)),
                    None => None,
                },
                None => match strip_prefix_exec(t, "SSID: ") {
                    Some(v) => match nonempty_trimmed(v) {
                        Some(x) => Some(Some(x)),
                        None => None,
                    },
                    None => None,
                },
            }
        },
        LineFormat::Nmcli { interface } => {
            let k = match find_char(l, ':') {
                Some(k) => k,
                None => return None,
            };
            let n = l.len();
            let rest = &l[k + 1..n];
            assert(rest@ =~= l@.skip(k + 1));
            let j = match find_char(rest, ':') {
                Some(j) => j,
                None => return None,
            };
            let a = &l[0..k];
            assert(a@ =~= l@.take(k as int));
            let b = &rest[0..j];
            assert(b@ =~= rest@.take(j as int));
            let m = rest.len();
            let c = &rest[j + 1..m];
            assert(c@ =~= rest@.skip(j + 1));
            let iface = chars_of(interface.as_str());
            let yes = chars_of("yes");
            if chars_eq(a, iface.as_slice()) && chars_eq(b, yes.as_slice()) {
                match nonempty_trimmed(c) {
                    Some(x) => Some(Some(x)),
                    None => None,
                }
            } else {
                None
            }
        },
        LineFormat::Netsh => {
            let t = trimmed(l);
            let low = lower_all(t);
            let ls = low.as_slice();
            if has_prefix(ls, "ssid") && !has_prefix(ls, "bssid") {
                match after_colon_exec(t) {
                    Some(v) => match nonempty_trimmed(v) {
                        Some(x) => Some(Some(x)),
                        None => None,
                    },
                    None => None,
                }
            } else {
                None
            }
        },
        LineFormat::ResolvConf => {
            let t = trimmed(l);
            let rest = match strip_prefix_exec(t, "search ") {
                Some(r) => Some(r),
                None => strip_prefix_exec(t, "domain "),
            };
            match rest {
                Some(r) => {
                    let w = words_of(r);
                    if w.len() == 0 {
                        return Some(None);
                    }
                    assert(views_of(w@)[0] == w@[0]@);
                    let d = trimmed(w[0].as_slice());
                    let dot: [char; 1] = ['.'];
                    let dot_s: &[char] = &dot;
                    proof {
                        reveal_strlit(".");
                    }
                    assert(dot_s@ =~= "."@);
                    if d.len() > 0 && !chars_eq(d, dot_s) {
                        Some(Some(owned(d)))
                    } else {
                        None
                    }
                },
                None => None,
            }
        },
        LineFormat::IpconfigAll => {
            let low = lower_all(l);
            let ls = low.as_slice();
            if has_infix(ls, "connection-specific dns suffix") || has_infix(
                ls,
                "primary dns suffix",
            ) {
                match after_colon_exec(l) {
                    Some(v) => match nonempty_trimmed(v) {
                        Some(x) => Some(Some(x)),
                        None => None,
                    },
                    None => None,
                }
            } else {
                None
            }
        },
    }
}

/// The answer of the first deciding line of `out`, in the given format.
pub fn read_tool_output(f: &LineFormat, out: &str) -> (r: Option<String>)
    ensures
        r is Some <==> read_lines(*f, out@) is Some,
        r matches Some(v) ==> read_lines(*f, out@) == Some(v@),
{
    let c = chars_of(out);
    let ls = lines_of(c.as_slice());
    let ghost vs = views_of(ls@);
    let ghost ds = vs.map_values(|l: Seq<char>| line_of(*f, l));
    let mut i: usize = 0;
    while i < ls.len()
        invariant
            i <= ls@.len(),
            vs == views_of(ls@),
            vs == lines(out@),
            ds == vs.map_values(|l: Seq<char>| line_of(*f, l)),
            first_some(ds.take(i as int)) is None,
        decreases ls.len() - i,
    {
        let r = line_exec(f, ls[i].as_slice());
        proof {
            assert(ds.take(i + 1).drop_last() =~= ds.take(i as int));
            assert(ds[i as int] == line_of(*f, ls@[i as int]@));
        }
        match r {
            Some(d) => {
                proof {
                    lemma_first_some_prefix(ds, i + 1);
                }
                return match d {
                    Some(v) => Some(string_of(v.as_slice())),
                    None => None,
                };
            },
            None => {},
        }
        i = i + 1;
    }
    assert(ds.take(ls.len() as int) =~= ds);
    None
}

pub open spec fn networksetup_ssid(out: Seq<char>) -> Option<Seq<char>> {
    match after_prefix(out, "Current Wi-Fi Network: "@) {
        Some(v) => if trim(v).len() > 0 && !contains_seq(trim(v), "not associated"@) {
            Some(trim(v))
        } else {
            None
        },
        None => None,
    }
}

/// The SSID in macOS `networksetup -getairportnetwork` output.
fn ssid_from_networksetup(out: &str) -> (r: Option<String>)
    ensures
        r is Some <==> networksetup_ssid(out@) is Some,
        r matches Some(v) ==> networksetup_ssid(out@) == Some(v@),
{
    let c = chars_of(out);
    match strip_prefix_exec(c.as_slice(), "Current Wi-Fi Network: ") {
        Some(v) => {
            let t = trimmed(v);
            if t.len() > 0 && !has_infix(t, "not associated") {
                Some(string_of(t))
            } else {
                None
            }
        },
        None => None,
    }
}

/// The output of a tool that prints just the value (`iwgetid -r`), trimmed,
/// when not blank.
fn trimmed_value(out: &str) -> (r: Option<String>)
    ensures
        r is Some <==> trim(out@).len() > 0,
        r matches Some(v) ==> v@ == trim(out@),
{
    let c = chars_of(out);
    match nonempty_trimmed(c.as_slice()) {
        Some(v) => Some(string_of(v.as_slice())),
        None => None,
    }
}

/// The tools that can name the Wi-Fi network an interface is joined to.
#[derive(PartialEq, Eq, Structural, Clone, Copy, Debug)]
pub enum SsidTool {
    /// macOS `networksetup -getairportnetwork <interface>`.
    Networksetup,
    /// macOS `ipconfig getsummary <interface>`.
    IpconfigSummary,
    /// Linux `iwgetid -r [interface]`.
    Iwgetid,
    /// Linux `nmcli -t -f DEVICE,ACTIVE,SSID dev wifi`.
    Nmcli,
    /// Windows `netsh wlan show interfaces`.
    Netsh,
}

/// The answer of the first deciding line among `decisions`.
pub open spec fn first_answer(decisions: Seq<Option<Option<Seq<char>>>>) -> Option<Seq<char>> {
    match first_some(decisions) {
        Some(d) => d,
        None => None,
    }
}

/// The SSID that `tool`'s output (if it printed anything) names for
/// `interface`.
pub open spec fn ssid_from(interface: Seq<char>, tool: SsidTool, out: Option<Seq<char>>) -> Option<
    Seq<char>,
> {
    match out {
        None => None,
        Some(o) => match tool {
            SsidTool::Networksetup => networksetup_ssid(o),
            SsidTool::IpconfigSummary => read_lines(LineFormat::IpconfigSummary, o),
            SsidTool::Iwgetid => if trim(o).len() > 0 {
                Some(trim(o))
            } else {
                None
            },
            SsidTool::Nmcli => first_answer(
                lines(o).map_values(|l: Seq<char>| nmcli_line(l, interface)),
            ),
            SsidTool::Netsh => read_lines(LineFormat::Netsh, o),
        },
    }
}

/// Best-effort Wi-Fi SSID for `interface`, from what `tool` printed (`None`
/// when it could not be run or printed nothing).
pub fn detect_ssid(interface: &str, tool: SsidTool, output: Option<&str>) -> (r: Option<String>)
    ensures
        r is Some <==> ssid_from(interface@, tool, opt_view(output)) is Some,
        r matches Some(v) ==> ssid_from(interface@, tool, opt_view(output)) == Some(v@),
{
    let out = match output {
        Some(o) => o,
        None => return None,
    };
    match tool {
        SsidTool::Networksetup => ssid_from_networksetup(out),
        SsidTool::IpconfigSummary => read_tool_output(&LineFormat::IpconfigSummary, out),
        SsidTool::Iwgetid => trimmed_value(out),
        SsidTool::Nmcli => {
            let ic = chars_of(interface);
            let f = LineFormat::Nmcli { interface: string_of(ic.as_slice()) };
            let r = read_tool_output(&f, out);
            proof {
                assert(lines(out@).map_values(|l: Seq<char>| line_of(f, l)) =~= lines(
                    out@,
                ).map_values(|l: Seq<char>| nmcli_line(l, interface@)));
            }
            r
        },
        SsidTool::Netsh => read_tool_output(&LineFormat::Netsh, out),
    }
}

// ---------------------------------------------------------------------------
// Address plausibility
// ---------------------------------------------------------------------------

pub open spec fn colon() -> Seq<char> {
    seq![':']
}

/// One group of an IPv6 address: one to four hex digits.
pub open spec fn hex_group(g: Seq<char>) -> bool {
    1 <= g.len() <= 4 && forall|i: int| 0 <= i < g.len() ==> is_hex(#[trigger] g[i])
}

/// How many 16-bit groups a `:`-separated list stands for, when every item
/// is a hex group — except that the last may be a dotted IPv4 address
/// (counting two) when `v4_last` allows it. An empty text stands for none.
pub open spec fn list_groups(s: Seq<char>, v4_last: bool) -> Option<nat> {
    if s.len() == 0 {
        Some(0)
    } else {
        let items = split_on(s, colon());
        let n = items.len();
        if (forall|i: int| 0 <= i < n - 1 ==> hex_group(#[trigger] items[i])) {
            if hex_group(items[n - 1]) {
                Some(n)
            } else if v4_last && parse_ipv4(items[n - 1]) is Some {
                Some(n + 1)
            } else {
                None
            }
        } else {
            None
        }
    }
}

/// Index of the first occurrence of `::`.
pub open spec fn first_double_colon(s: Seq<char>) -> Option<int>
    decreases s.len(),
{
    if s.len() < 2 {
        None
    } else {
        match first_double_colon(s.drop_last()) {
            Some(k) => Some(k),
            None => if s[s.len() - 2] == ':' && s[s.len() - 1] == ':' {
                Some(s.len() - 2)
            } else {
                None
            },
        }
    }
}

/// IPv6 text as `Ipv6Addr::from_str` accepts it: eight groups, the last two
/// of which may be written as a dotted IPv4 address; or one `::` standing
/// for at least one zero group, with at most seven groups around it and an
/// IPv4 tail allowed only after it.
pub open spec fn ipv6_ok(s: Seq<char>) -> bool {
    match first_double_colon(s) {
        None => list_groups(s, true) == Some(8nat),
        Some(k) => match (list_groups(s.take(k), false), list_groups(s.skip(k + 2), true)) {
            (Some(a), Some(b)) => a + b <= 7,
            _ => false,
        },
    }
}

/// Text that parses as an IPv4 or IPv6 address.
pub open spec fn plausible_ip(s: Seq<char>) -> bool {
    parse_ipv4(s) is Some || ipv6_ok(s)
}

fn hex_group_exec(g: &[char]) -> (b: bool)
    ensures
        b == hex_group(g@),
{
    if g.len() < 1 || g.len() > 4 {
        return false;
    }
    let mut i: usize = 0;
    while i < g.len()
        invariant
            i <= g@.len(),
            forall|k: int| 0 <= k < i ==> is_hex(#[trigger] g@[k]),
        decreases g.len() - i,
    {
        if !is_hex_char(g[i]) {
            assert(!is_hex(g@[i as int]));
            return false;
        }
        i = i + 1;
    }
    true
}

fn list_groups_exec(s: &[char], v4_last: bool) -> (r: Option<u128>)
    ensures
        r is Some <==> list_groups(s@, v4_last) is Some,
        r matches Some(n) ==> list_groups(s@, v4_last) == Some(n as nat),
{
    if s.len() == 0 {
        return Some(0);
    }
    let sep: [char; 1] = [':'];
    let sep_s: &[char] = &sep;
    assert(sep_s@ =~= colon());
    let items = split_chars(s, sep_s);
    let ghost vs = views_of(items@);
    proof {
        crate::text::lemma_split_on_nonempty(s@, colon());
    }
    let n = items.len();
    let mut i: usize = 0;
    while i + 1 < n
        invariant
            n == items@.len(),
            n >= 1,
            i < n,
            s@.len() > 0,
            vs == views_of(items@),
            vs == split_on(s@, colon()),
            forall|k: int| 0 <= k < i ==> hex_group(#[trigger] vs[k]),
        decreases n - i,
    {
        assert(vs[i as int] == items@[i as int]@);
        if !hex_group_exec(items[i].as_slice()) {
            assert(!hex_group(vs[i as int]));
            assert(!(forall|k: int| 0 <= k < n - 1 ==> hex_group(#[trigger] vs[k])));
            assert(list_groups(s@, v4_last) is None);
            return None;
        }
        i = i + 1;
    }
    assert(vs[n - 1] == items@[n - 1]@);
    if hex_group_exec(items[n - 1].as_slice()) {
        Some(n as u128)
    } else if v4_last && parse_ipv4_chars(items[n - 1].as_slice()).is_some() {
        Some(n as u128 + 1)
    } else {
        None
    }
}

fn first_double_colon_exec(s: &[char]) -> (r: Option<usize>)
    ensures
        r matches Some(k) ==> first_double_colon(s@) == Some(k as int) && k + 2 <= s@.len(),
        r is None ==> first_double_colon(s@) is None,
{
    if s.len() < 2 {
        return None;
    }
    let mut i: usize = 0;
    while i < s.len() - 1
        invariant
            s@.len() >= 2,
            i <= s@.len() - 1,
            first_double_colon(s@.take(i + 1)) is None,
        decreases s.len() - i,
    {
        assert(s@.take(i + 2).drop_last() =~= s@.take(i + 1));
        if s[i] == ':' && s[i + 1] == ':' {
            proof {
                lemma_first_double_colon_prefix(s@, i + 2);
            }
            return Some(i);
        }
        i = i + 1;
    }
    assert(s@.take(i + 1) =~= s@);
    None
}

proof fn lemma_first_double_colon_prefix(s: Seq<char>, n: int)
    requires
        0 <= n <= s.len(),
        first_double_colon(s.take(n)) is Some,
    ensures
        first_double_colon(s) == first_double_colon(s.take(n)),
    decreases s.len(),
{
    if n < s.len() {
        assert(s.drop_last().take(n) =~= s.take(n));
        lemma_first_double_colon_prefix(s.drop_last(), n);
    } else {
        assert(s.take(n) =~= s);
    }
}

pub fn is_ipv6_text(s: &[char]) -> (b: bool)
    ensures
        b == ipv6_ok(s@),
{
    match first_double_colon_exec(s) {
        None => match list_groups_exec(s, true) {
            Some(n) => n == 8,
            None => false,
        },
        Some(k) => {
            let head = &s[0..k];
            assert(head@ =~= s@.take(k as int));
            let n = s.len();
            let tail = &s[k + 2..n];
            assert(tail@ =~= s@.skip(k + 2));
            match (list_groups_exec(head, false), list_groups_exec(tail, true)) {
                (Some(a), Some(b)) => a <= 7 && b <= 7 - a,
                _ => false,
            }
        },
    }
}

/// Whether `value` parses as an IPv4 or IPv6 address.
pub fn is_plausible_ip(value: &str) -> (b: bool)
    ensures
        b == plausible_ip(value@),
{
    let c = chars_of(value);
    parse_ipv4_chars(c.as_slice()).is_some() || is_ipv6_text(c.as_slice())
}

/// A reply of an external-address service: its trimmed text when that is
/// an IPv4 or IPv6 address.
pub fn plausible_reply(text: &str) -> (r: Option<String>)
    ensures
        r is Some <==> plausible_ip(trim(text@)),
        r matches Some(v) ==> v@ == trim(text@),
{
    let c = chars_of(text);
    let t = trimmed(c.as_slice());
    if parse_ipv4_chars(t).is_some() || is_ipv6_text(t) {
        Some(string_of(t))
    } else {
        None
    }
}

} // verus!
