//! The checks and labels of the DNS diagnostics tool, and the clean-up of
//! names that reverse lookups return.

use vstd::prelude::*;
use crate::text::{
    chars_eq, chars_of, extend_chars, extend_str, lower_all, lower_seq, string_of, trim, trimmed,
    upper, upper_char, upper_seq,
};
use crate::ipv4::{ipv4_text, push_ipv4};
use crate::identity::{is_ipv6_text, plausible_ip};
use crate::ipv4::parse_ipv4_chars;

verus! {

/// The resolver a query goes to: `None` for the system configuration (no
/// server, a blank one, or `system` in any case), else the trimmed text.
pub open spec fn server_choice(server: Option<Seq<char>>) -> Option<Seq<char>> {
    match server {
        Some(s) => if trim(s).len() == 0 || lower_seq(trim(s)) == "system"@ {
            None
        } else {
            Some(trim(s))
        },
        None => None,
    }
}

pub open spec fn opt_view(o: Option<&str>) -> Option<Seq<char>> {
    match o {
        Some(s) => Some(s@),
        None => None,
    }
}

pub fn normalize_server(server: Option<&str>) -> (r: Option<String>)
    ensures
        r is Some <==> server_choice(opt_view(server)) is Some,
        r matches Some(v) ==> server_choice(opt_view(server)) == Some(v@),
{
    let s = match server {
        Some(s) => s,
        None => return None,
    };
    let c = chars_of(s);
    let t = trimmed(c.as_slice());
    if t.len() == 0 {
        return None;
    }
    let l = lower_all(t);
    let sys = chars_of("system");
    if chars_eq(l.as_slice(), sys.as_slice()) {
        return None;
    }
    Some(string_of(t))
}

/// Resolver label shown in the UI: the chosen server, or `system`.
pub fn server_label(server: Option<&str>) -> (r: String)
    ensures
        r@ == match server_choice(opt_view(server)) {
            Some(v) => v,
            None => "system"@,
        },
{
    match normalize_server(server) {
        Some(v) => v,
        None => "system".to_owned(),
    }
}

/// The record types the DNS tool queries.
#[derive(Debug, Clone, Copy, PartialEq, Eq, Structural)]
pub enum RecordKind {
    A,
    Aaaa,
    Cname,
    Txt,
    Mx,
    Ns,
    Ptr,
}

pub open spec fn kind_name(k: RecordKind) -> Seq<char> {
    match k {
        RecordKind::A => "A"@,
        RecordKind::Aaaa => "AAAA"@,
        RecordKind::Cname => "CNAME"@,
        RecordKind::Txt => "TXT"@,
        RecordKind::Mx => "MX"@,
        RecordKind::Ns => "NS"@,
        RecordKind::Ptr => "PTR"@,
    }
}

/// The record type a name stands for: the kind whose name equals the
/// trimmed, upper-cased text.
pub open spec fn kind_of(v: Seq<char>) -> Option<RecordKind> {
    let u = upper_seq(trim(v));
    if u == "A"@ {
        Some(RecordKind::A)
    } else if u == "AAAA"@ {
        Some(RecordKind::Aaaa)
    } else if u == "CNAME"@ {
        Some(RecordKind::Cname)
    } else if u == "TXT"@ {
        Some(RecordKind::Txt)
    } else if u == "MX"@ {
        Some(RecordKind::Mx)
    } else if u == "NS"@ {
        Some(RecordKind::Ns)
    } else if u == "PTR"@ {
        Some(RecordKind::Ptr)
    } else {
        None
    }
}

/// The TYPE value a record kind has on the wire (RFC 1035 section 3.2.2;
/// AAAA from RFC 3596).
pub open spec fn type_code(k: RecordKind) -> nat {
    match k {
        RecordKind::A => 1,
        RecordKind::Ns => 2,
        RecordKind::Cname => 5,
        RecordKind::Ptr => 12,
        RecordKind::Mx => 15,
        RecordKind::Txt => 16,
        RecordKind::Aaaa => 28,
    }
}

/// The TYPE value of the DNS mnemonics the tool accepts (IANA DNS
/// parameters registry).
pub open spec fn mnemonic_code(m: Seq<char>) -> Option<nat> {
    if m == seq!['A'] {
        Some(1)
    } else if m == seq!['N', 'S'] {
        Some(2)
    } else if m == seq!['C', 'N', 'A', 'M', 'E'] {
        Some(5)
    } else if m == seq!['P', 'T', 'R'] {
        Some(12)
    } else if m == seq!['M', 'X'] {
        Some(15)
    } else if m == seq!['T', 'X', 'T'] {
        Some(16)
    } else if m == seq!['A', 'A', 'A', 'A'] {
        Some(28)
    } else {
        None
    }
}

/// A record-type text is accepted exactly when, trimmed and upper-cased,
/// it is one of the supported mnemonics, and it then stands for the kind
/// with that mnemonic's TYPE value; a kind's name is its own mnemonic.
pub proof fn lemma_record_kinds_are_dns_types(v: Seq<char>, k: RecordKind)
    ensures
        kind_of(v) matches Some(x) ==> mnemonic_code(upper_seq(trim(v))) == Some(type_code(x)),
        kind_of(v) is None ==> mnemonic_code(upper_seq(trim(v))) is None,
        mnemonic_code(kind_name(k)) == Some(type_code(k)),
{
    reveal_strlit("A");
    reveal_strlit("AAAA");
    reveal_strlit("CNAME");
    reveal_strlit("TXT");
    reveal_strlit("MX");
    reveal_strlit("NS");
    reveal_strlit("PTR");
    assert("A"@ =~= seq!['A']);
    assert("AAAA"@ =~= seq!['A', 'A', 'A', 'A']);
    assert("CNAME"@ =~= seq!['C', 'N', 'A', 'M', 'E']);
    assert("TXT"@ =~= seq!['T', 'X', 'T']);
    assert("MX"@ =~= seq!['M', 'X']);
    assert("NS"@ =~= seq!['N', 'S']);
    assert("PTR"@ =~= seq!['P', 'T', 'R']);
}

pub open spec fn unsupported_message(u: Seq<char>) -> Seq<char> {
    "Unsupported record type '"@ + u + "'. Use A, AAAA, CNAME, TXT, MX, NS, or PTR."@
}

fn upper_all(s: &[char]) -> (r: Vec<char>)
    ensures
        r@ == upper_seq(s@),
{
    let mut r: Vec<char> = Vec::new();
    for i in 0..s.len()
        invariant
            r@ == upper_seq(s@.take(i as int)),
    {
        r.push(upper_char(s[i]));
        assert(upper_seq(s@.take(i + 1)) =~= upper_seq(s@.take(i as int)).push(upper(s@[i as int])));
    }
    assert(s@.take(s.len() as int) =~= s@);
    r
}

fn is_word(u: &[char], w: &str) -> (b: bool)
    ensures
        b == (u@ == w@),
{
    let wc = chars_of(w);
    chars_eq(u, wc.as_slice())
}

pub fn parse_record_type(value: &str) -> (r: Result<RecordKind, String>)
    ensures
        kind_of(value@) matches Some(k) ==> r == Ok::<RecordKind, String>(k),
        kind_of(value@) is None ==> (r matches Err(e) && e@ == unsupported_message(
            upper_seq(trim(value@)),
        )),
{
    let c = chars_of(value);
    let t = trimmed(c.as_slice());
    let u = upper_all(t);
    let us = u.as_slice();
    if is_word(us, "A") {
        Ok(RecordKind::A)
    } else if is_word(us, "AAAA") {
        Ok(RecordKind::Aaaa)
    } else if is_word(us, "CNAME") {
        Ok(RecordKind::Cname)
    } else if is_word(us, "TXT") {
        Ok(RecordKind::Txt)
    } else if is_word(us, "MX") {
        Ok(RecordKind::Mx)
    } else if is_word(us, "NS") {
        Ok(RecordKind::Ns)
    } else if is_word(us, "PTR") {
        Ok(RecordKind::Ptr)
    } else {
        let mut m: Vec<char> = Vec::new();
        extend_str(&mut m, "Unsupported record type '");
        extend_chars(&mut m, us);
        extend_str(&mut m, "'. Use A, AAAA, CNAME, TXT, MX, NS, or PTR.");
        Err(string_of(m.as_slice()))
    }
}

pub fn record_type_name(kind: RecordKind) -> (r: &'static str)
    ensures
        r@ == kind_name(kind),
{
    match kind {
        RecordKind::A => "A",
        RecordKind::Aaaa => "AAAA",
        RecordKind::Cname => "CNAME",
        RecordKind::Txt => "TXT",
        RecordKind::Mx => "MX",
        RecordKind::Ns => "NS",
        RecordKind::Ptr => "PTR",
    }
}

/// The name with all trailing dots removed (`str::trim_end_matches('.')`).
pub open spec fn strip_dots(s: Seq<char>) -> Seq<char>
    decreases s.len(),
{
    if s.len() > 0 && s.last() == '.' {
        strip_dots(s.drop_last())
    } else {
        s
    }
}

fn strip_dots_exec(s: &[char]) -> (r: &[char])
    ensures
        r@ == strip_dots(s@),
{
    let mut n: usize = s.len();
    assert(s@.take(n as int) =~= s@);
    while n > 0 && s[n - 1] == '.'
        invariant
            n <= s@.len(),
            strip_dots(s@) == strip_dots(s@.take(n as int)),
        decreases n,
    {
        assert(s@.take(n as int).drop_last() =~= s@.take(n - 1));
        n = n - 1;
    }
    let r = &s[0..n];
    assert(r@ =~= s@.take(n as int));
    r
}

/// An answer name of a PTR query without its trailing dots, when not empty.
pub fn ptr_answer(name: &str) -> (r: Option<String>)
    ensures
        r is Some <==> strip_dots(name@).len() > 0,
        r matches Some(v) ==> v@ == strip_dots(name@),
{
    let c = chars_of(name);
    let t = strip_dots_exec(c.as_slice());
    if t.len() > 0 {
        Some(string_of(t))
    } else {
        None
    }
}

/// A host name from the system's reverse lookup of `ip`: without trailing
/// dots, and only when it is neither empty nor just the address again.
pub fn clean_reverse_name(name: &str, ip: u32) -> (r: Option<String>)
    ensures
        r is Some <==> (strip_dots(name@).len() > 0 && strip_dots(name@) != ipv4_text(ip)),
        r matches Some(v) ==> v@ == strip_dots(name@),
{
    let c = chars_of(name);
    let t = strip_dots_exec(c.as_slice());
    let mut ipt: Vec<char> = Vec::new();
    push_ipv4(&mut ipt, ip);
    assert(ipt@ =~= ipv4_text(ip));
    if t.len() == 0 || chars_eq(t, ipt.as_slice()) {
        None
    } else {
        Some(string_of(t))
    }
}

/// The host of a forward query, trimmed; a blank host is refused.
pub fn check_query_host(host: &str) -> (r: Result<String, String>)
    ensures
        trim(host@).len() > 0 ==> (r matches Ok(h) && h@ == trim(host@)),
        trim(host@).len() == 0 ==> (r matches Err(e) && e@ == "Hostname is required"@),
{
    let c = chars_of(host);
    let t = trimmed(c.as_slice());
    if t.len() == 0 {
        Err("Hostname is required".to_owned())
    } else {
        Ok(string_of(t))
    }
}

pub open spec fn invalid_ip_message(ip: Seq<char>) -> Seq<char> {
    "Invalid IP address "@ + ip + ": invalid IP address syntax"@
}

/// The address of a reverse query, trimmed; it must be IPv4 or IPv6 text.
pub fn check_reverse_target(ip: &str) -> (r: Result<String, String>)
    ensures
        plausible_ip(trim(ip@)) ==> (r matches Ok(v) && v@ == trim(ip@)),
        !plausible_ip(trim(ip@)) ==> (r matches Err(e) && e@ == invalid_ip_message(trim(ip@))),
{
    let c = chars_of(ip);
    let t = trimmed(c.as_slice());
    if parse_ipv4_chars(t).is_some() || is_ipv6_text(t) {
        Ok(string_of(t))
    } else {
        let mut m: Vec<char> = Vec::new();
        extend_str(&mut m, "Invalid IP address ");
        extend_chars(&mut m, t);
        extend_str(&mut m, ": invalid IP address syntax");
        Err(string_of(m.as_slice()))
    }
}

} // verus!
