//! Port lists for the TCP connect scan: the ports expression, the default
//! set, service names, and how a connect attempt maps to a port state.

use vstd::prelude::*;
use crate::text::{
    chars_of, dec_string, extend_chars, extend_str, parse_uint, parse_uint_chars, push_decimal,
    split_chars, split_on, string_of, trim, trimmed, views_of,
};
use crate::neighbors::{find_char, first_index};

verus! {

/// Most ports a single scan may cover.
pub const MAX_PORTS: usize = 1024;

/// Most ports a single `a-b` range may cover.
pub const MAX_RANGE: u32 = 512;

/// The "top services" port set used when no ports are given.
pub open spec fn default_ports_seq() -> Seq<u16> {
    seq![
        21u16, 22, 23, 25, 53, 80, 110, 111, 135, 139, 143, 443, 445, 993, 995, 1433, 1521, 3306,
        3389, 5432, 5900, 6379, 8080, 8443, 9100
    ]
}

pub fn default_ports() -> (r: Vec<u16>)
    ensures
        r@ == default_ports_seq(),
{
    let r: Vec<u16> = vec![
        21, 22, 23, 25, 53, 80, 110, 111, 135, 139, 143, 443, 445, 993, 995, 1433, 1521, 3306, 3389,
        5432, 5900, 6379, 8080, 8443, 9100,
    ];
    assert(r@ =~= default_ports_seq());
    r
}

pub open spec fn port_separators() -> Seq<char> {
    seq![',', ' ', ';']
}

pub open spec fn quoted(prefix: Seq<char>, part: Seq<char>, suffix: Seq<char>) -> Seq<char> {
    prefix + part + suffix
}

/// The ports `a..=b`.
pub open spec fn port_range(a: nat, b: nat) -> Seq<u16> {
    Seq::new((b + 1 - a) as nat, |i: int| (a + i) as u16)
}

/// The ports one comma/space/semicolon-separated part names, or the error
/// it raises. A blank part names none.
pub open spec fn part_ports(p0: Seq<char>) -> Result<Seq<u16>, Seq<char>> {
    let p = trim(p0);
    if p.len() == 0 {
        Ok(Seq::empty())
    } else {
        match first_index(p, '-') {
            Some(k) => {
                let a = parse_uint(trim(p.take(k)), 65535);
                let b = parse_uint(trim(p.skip(k + 1)), 65535);
                if a is None {
                    Err(quoted("Invalid port range start in '"@, p, "'"@))
                } else if b is None {
                    Err(quoted("Invalid port range end in '"@, p, "'"@))
                } else if a.unwrap() == 0 || b.unwrap() == 0 {
                    Err("Port 0 is not allowed"@)
                } else if b.unwrap() < a.unwrap() {
                    Err(quoted("Invalid port range '"@, p, "' (end < start)"@))
                } else if b.unwrap() - a.unwrap() + 1 > MAX_RANGE {
                    Err(quoted("Port range '"@, p, "' is too large (max 512 ports per range)"@))
                } else {
                    Ok(port_range(a.unwrap(), b.unwrap()))
                }
            },
            None => match parse_uint(p, 65535) {
                None => Err(quoted("Invalid port '"@, p, "'"@)),
                Some(v) => if v == 0 {
                    Err("Port 0 is not allowed"@)
                } else {
                    Ok(seq![v as u16])
                },
            },
        }
    }
}

/// The ports of all parts in order, or the error of the first bad part.
pub open spec fn collect_ports(ps: Seq<Seq<char>>) -> Result<Seq<u16>, Seq<char>>
    decreases ps.len(),
{
    if ps.len() == 0 {
        Ok(Seq::empty())
    } else {
        match collect_ports(ps.drop_last()) {
            Err(e) => Err(e),
            Ok(v) => match part_ports(ps.last()) {
                Err(e) => Err(e),
                Ok(w) => Ok(v + w),
            },
        }
    }
}

/// `r` lists, in increasing order and once each, exactly the ports of `v`.
pub open spec fn sorted_set_of(r: Seq<u16>, v: Seq<u16>) -> bool {
    &&& forall|i: int, j: int| 0 <= i < j < r.len() ==> r[i] < r[j]
    &&& forall|x: u16| r.contains(x) <==> v.contains(x)
}

/// How many distinct ports `v` names.
pub open spec fn distinct_count(v: Seq<u16>) -> nat {
    v.to_set().len()
}

pub open spec fn too_many_message(n: nat) -> Seq<char> {
    "Too many ports ("@ + dec_string(n) + "). Maximum is 1024."@
}

/// What a ports expression means: an empty or blank expression is the
/// default set; otherwise the parts separated by `,`, space or `;`, each a
/// port or an inclusive range `a-b`, collected without repetition.
pub open spec fn ports_spec_result(s: Seq<char>) -> Result<Seq<u16>, Seq<char>> {
    if trim(s).len() == 0 {
        Ok(default_ports_seq())
    } else {
        match collect_ports(split_on(trim(s), port_separators())) {
            Err(e) => Err(e),
            Ok(v) => if distinct_count(v) == 0 {
                Err("No ports to scan"@)
            } else if distinct_count(v) > MAX_PORTS {
                Err(too_many_message(distinct_count(v)))
            } else {
                Ok(v)
            },
        }
    }
}

fn message3(a: &str, p: &[char], b: &str) -> (r: String)
    ensures
        r@ == quoted(a@, p@, b@),
{
    let mut m: Vec<char> = Vec::new();
    extend_str(&mut m, a);
    extend_chars(&mut m, p);
    extend_str(&mut m, b);
    string_of(m.as_slice())
}

fn part_ports_exec(p0: &[char], out: &mut Vec<u16>) -> (r: Result<(), String>)
    ensures
        part_ports(p0@) matches Ok(w) ==> r is Ok && final(out)@ == old(out)@ + w,
        part_ports(p0@) matches Err(e) ==> (r matches Err(m) && m@ == e),
{
    let p = trimmed(p0);
    if p.len() == 0 {
        assert(old(out)@ + Seq::<u16>::empty() =~= old(out)@);
        return Ok(());
    }
    match find_char(p, '-') {
        Some(k) => {
            let head = trimmed(&p[0..k]);
            assert(p@.take(k as int) =~= p@.subrange(0, k as int));
            let n = p.len();
            let tail = trimmed(&p[k + 1..n]);
            assert(p@.skip(k + 1) =~= p@.subrange(k + 1, n as int));
            let a = match parse_uint_chars(head, 65535) {
                Some(v) => v,
                None => return Err(message3("Invalid port range start in '", p, "'")),
            };
            let b = match parse_uint_chars(tail, 65535) {
                Some(v) => v,
                None => return Err(message3("Invalid port range end in '", p, "'")),
            };
            if a == 0 || b == 0 {
                return Err("Port 0 is not allowed".to_owned());
            }
            if b < a {
                return Err(message3("Invalid port range '", p, "' (end < start)"));
            }
            if b - a + 1 > 512 {
                return Err(
                    message3("Port range '", p, "' is too large (max 512 ports per range)"),
                );
            }
            let ghost start = out@;
            let mut x: u64 = a;
            while x <= b
                invariant
                    a <= x <= b + 1,
                    b <= 65535,
                    out@ == start + port_range(a as nat, b as nat).take(x - a),
                decreases b + 1 - x,
            {
                out.push(x as u16);
                assert(port_range(a as nat, b as nat).take(x - a + 1) =~= port_range(
                    a as nat,
                    b as nat,
                ).take(x - a).push(x as u16));
                x = x + 1;
            }
            assert(port_range(a as nat, b as nat).take(b + 1 - a) =~= port_range(
                a as nat,
                b as nat,
            ));
            Ok(())
        },
        None => {
            match parse_uint_chars(p, 65535) {
                Some(v) => {
                    if v == 0 {
                        return Err("Port 0 is not allowed".to_owned());
                    }
                    out.push(v as u16);
                    assert(out@ =~= old(out)@ + seq![v as u16]);
                    Ok(())
                },
                None => Err(message3("Invalid port '", p, "'")),
            }
        },
    }
}

/// Parse a ports expression: `80`, `22,80,443`, `8000-8010`, or mixed; an
/// empty expression means the default set. The result is sorted, each port
/// once.
pub fn parse_ports_spec(spec: &str) -> (r: Result<Vec<u16>, String>)
    ensures
        ports_spec_result(spec@) matches Ok(v) ==> (r matches Ok(ps) && sorted_set_of(ps@, v)),
        ports_spec_result(spec@) matches Err(e) ==> (r matches Err(m) && m@ == e),
{
    let c = chars_of(spec);
    let t = trimmed(c.as_slice());
    if t.len() == 0 {
        let d = default_ports();
        proof {
            assert forall|i: int, j: int| 0 <= i < j < d@.len() implies d@[i] < d@[j] by {
                assert(d@ == default_ports_seq());
            }
        }
        return Ok(d);
    }
    let seps: [char; 3] = [',', ' ', ';'];
    let seps_s: &[char] = &seps;
    assert(seps_s@ =~= port_separators());
    let parts = split_chars(t, seps_s);
    let ghost ps = views_of(parts@);
    let mut all: Vec<u16> = Vec::new();
    let mut i: usize = 0;
    while i < parts.len()
        invariant
            i <= parts@.len(),
            ps == views_of(parts@),
            ps == split_on(t@, port_separators()),
            t@ == trim(spec@),
            t@.len() > 0,
            collect_ports(ps.take(i as int)) == Ok::<Seq<u16>, Seq<char>>(all@),
        decreases parts.len() - i,
    {
        assert(ps.take(i + 1).drop_last() =~= ps.take(i as int));
        assert(ps[i as int] == parts@[i as int]@);
        assert(ps.take(i + 1).last() == ps[i as int]);
        match part_ports_exec(parts[i].as_slice(), &mut all) {
            Ok(()) => {},
            Err(m) => {
                proof {
                    lemma_collect_err_prefix(ps, i + 1);
                    assert(ps.take(parts@.len() as int) =~= ps);
                }
                return Err(m);
            },
        }
        i = i + 1;
    }
    assert(ps.take(parts@.len() as int) =~= ps);
    // Mark the ports seen, then list them in increasing order.
    let mut seen: Vec<bool> = Vec::new();
    for k in 0..65536usize
        invariant
            seen@.len() == k,
            forall|j: int| 0 <= j < k ==> !seen@[j],
    {
        seen.push(false);
    }
    let mut count: usize = 0;
    assert(all@.take(0).to_set() =~= Set::<u16>::empty());
    for k in 0..all.len()
        invariant
            seen@.len() == 65536,
            forall|x: u16| #[trigger] seen@[x as int] <==> all@.take(k as int).contains(x),
            count == all@.take(k as int).to_set().len(),
            count <= k,
    {
        let p = all[k];
        proof {
            broadcast use vstd::seq_lib::seq_to_set_is_finite;

            let s0 = all@.take(k as int);
            let s1 = all@.take(k + 1);
            assert(s1 =~= s0.push(p));
            assert forall|x: u16| s1.contains(x) <==> (s0.contains(x) || x == p) by {
                if s1.contains(x) {
                    let j = choose|j: int| 0 <= j < s1.len() && s1[j] == x;
                    if j < k {
                        assert(s0[j] == x);
                    }
                }
                if s0.contains(x) {
                    let j = choose|j: int| 0 <= j < s0.len() && s0[j] == x;
                    assert(s1[j] == x);
                }
                if x == p {
                    assert(s1[k as int] == x);
                }
            }
            assert(s1.to_set() =~= s0.to_set().insert(p));
            all@.take(k as int).lemma_cardinality_of_set();
        }
        if !seen[p as usize] {
            seen.set(p as usize, true);
            count = count + 1;
        }
        proof {
            assert forall|x: u16| #[trigger] seen@[x as int] <==> all@.take(k + 1).contains(x) by {
                assert(all@.take(k + 1).contains(x) <==> all@.take(k + 1).to_set().contains(x));
                assert(all@.take(k as int).contains(x) <==> all@.take(k as int).to_set().contains(
                    x,
                ));
            }
        }
    }
    assert(all@.take(all.len() as int) =~= all@);
    if count == 0 {
        return Err("No ports to scan".to_owned());
    }
    if count > 1024 {
        let mut m: Vec<char> = Vec::new();
        extend_str(&mut m, "Too many ports (");
        push_decimal(&mut m, count as u64);
        extend_str(&mut m, "). Maximum is 1024.");
        assert(m@ =~= too_many_message(count as nat));
        return Err(string_of(m.as_slice()));
    }
    let mut out: Vec<u16> = Vec::new();
    let mut x: usize = 0;
    while x < 65536
        invariant
            x <= 65536,
            seen@.len() == 65536,
            forall|y: u16| #[trigger] seen@[y as int] <==> all@.contains(y),
            forall|i: int, j: int| 0 <= i < j < out@.len() ==> out@[i] < out@[j],
            forall|i: int| 0 <= i < out@.len() ==> out@[i] < x,
            forall|y: u16| out@.contains(y) <==> (y < x && all@.contains(y)),
        decreases 65536 - x,
    {
        if seen[x] {
            let ghost before = out@;
            out.push(x as u16);
            proof {
                assert forall|y: u16| out@.contains(y) <==> (y < x + 1 && all@.contains(y)) by {
                    if y == x {
                        assert(out@[out@.len() - 1] == y);
                    } else if out@.contains(y) {
                        let j = choose|j: int| 0 <= j < out@.len() && out@[j] == y;
                        assert(before[j] == y);
                    } else if y < x + 1 && all@.contains(y) {
                        assert(before.contains(y));
                        let j = choose|j: int| 0 <= j < before.len() && before[j] == y;
                        assert(out@[j] == y);
                    }
                }
            }
        } else {
            proof {
                assert forall|y: u16| out@.contains(y) <==> (y < x + 1 && all@.contains(y)) by {
                    if y == x {
                        assert(!seen@[y as int]);
                    }
                }
            }
        }
        x = x + 1;
    }
    Ok(out)
}

proof fn lemma_collect_err_prefix(ps: Seq<Seq<char>>, n: int)
    requires
        0 <= n <= ps.len(),
        collect_ports(ps.take(n)) is Err,
    ensures
        collect_ports(ps) == collect_ports(ps.take(n)),
    decreases ps.len(),
{
    if n < ps.len() {
        assert(ps.drop_last().take(n) =~= ps.take(n));
        lemma_collect_err_prefix(ps.drop_last(), n);
    } else {
        assert(ps.take(n) =~= ps);
    }
}

/// Service name of a well-known port.
pub open spec fn service_name(port: u16) -> Option<Seq<char>> {
    if port == 21 {
        Some("ftp"@)
    } else if port == 22 {
        Some("ssh"@)
    } else if port == 23 {
        Some("telnet"@)
    } else if port == 25 {
        Some("smtp"@)
    } else if port == 53 {
        Some("dns"@)
    } else if port == 80 {
        Some("http"@)
    } else if port == 110 {
        Some("pop3"@)
    } else if port == 111 {
        Some("rpcbind"@)
    } else if port == 135 {
        Some("msrpc"@)
    } else if port == 139 {
        Some("netbios-ssn"@)
    } else if port == 143 {
        Some("imap"@)
    } else if port == 443 {
        Some("https"@)
    } else if port == 445 {
        Some("smb"@)
    } else if port == 993 {
        Some("imaps"@)
    } else if port == 995 {
        Some("pop3s"@)
    } else if port == 1433 {
        Some("mssql"@)
    } else if port == 1521 {
        Some("oracle"@)
    } else if port == 3306 {
        Some("mysql"@)
    } else if port == 3389 {
        Some("rdp"@)
    } else if port == 5432 {
        Some("postgres"@)
    } else if port == 5900 {
        Some("vnc"@)
    } else if port == 6379 {
        Some("redis"@)
    } else if port == 8080 {
        Some("http-alt"@)
    } else if port == 8443 {
        Some("https-alt"@)
    } else if port == 9100 {
        Some("jetdirect"@)
    } else {
        None
    }
}

/// The port each service name the scanner reports stands for (the IANA
/// service name and port registry, with the scanner's short names: smb for
/// microsoft-ds, rdp for ms-wbt-server, vnc for rfb, postgres for
/// postgresql, http-alt and https-alt for 8080 and 8443, jetdirect for
/// 9100), listed by name.
pub open spec fn registered_port(name: Seq<char>) -> Option<u16> {
    if name == "dns"@ {
        Some(53u16)
    } else if name == "ftp"@ {
        Some(21u16)
    } else if name == "http"@ {
        Some(80u16)
    } else if name == "http-alt"@ {
        Some(8080u16)
    } else if name == "https"@ {
        Some(443u16)
    } else if name == "https-alt"@ {
        Some(8443u16)
    } else if name == "imap"@ {
        Some(143u16)
    } else if name == "imaps"@ {
        Some(993u16)
    } else if name == "jetdirect"@ {
        Some(9100u16)
    } else if name == "msrpc"@ {
        Some(135u16)
    } else if name == "mssql"@ {
        Some(1433u16)
    } else if name == "mysql"@ {
        Some(3306u16)
    } else if name == "netbios-ssn"@ {
        Some(139u16)
    } else if name == "oracle"@ {
        Some(1521u16)
    } else if name == "pop3"@ {
        Some(110u16)
    } else if name == "pop3s"@ {
        Some(995u16)
    } else if name == "postgres"@ {
        Some(5432u16)
    } else if name == "rdp"@ {
        Some(3389u16)
    } else if name == "redis"@ {
        Some(6379u16)
    } else if name == "rpcbind"@ {
        Some(111u16)
    } else if name == "smb"@ {
        Some(445u16)
    } else if name == "smtp"@ {
        Some(25u16)
    } else if name == "ssh"@ {
        Some(22u16)
    } else if name == "telnet"@ {
        Some(23u16)
    } else if name == "vnc"@ {
        Some(5900u16)
    } else {
        None
    }
}

/// A port is named by the service registered on that very port, and every
/// registered name is reported for its own port.
#[verifier::rlimit(60)]
pub proof fn lemma_service_names_are_registered(port: u16, name: Seq<char>)
    ensures
        service_name(port) matches Some(n) ==> registered_port(n) == Some(port),
        registered_port(name) matches Some(p) ==> service_name(p) == Some(name),
{
    reveal_strlit("dns");
    reveal_strlit("ftp");
    reveal_strlit("http");
    reveal_strlit("http-alt");
    reveal_strlit("https");
    reveal_strlit("https-alt");
    reveal_strlit("imap");
    reveal_strlit("imaps");
    reveal_strlit("jetdirect");
    reveal_strlit("msrpc");
    reveal_strlit("mssql");
    reveal_strlit("mysql");
    reveal_strlit("netbios-ssn");
    reveal_strlit("oracle");
    reveal_strlit("pop3");
    reveal_strlit("pop3s");
    reveal_strlit("postgres");
    reveal_strlit("rdp");
    reveal_strlit("redis");
    reveal_strlit("rpcbind");
    reveal_strlit("smb");
    reveal_strlit("smtp");
    reveal_strlit("ssh");
    reveal_strlit("telnet");
    reveal_strlit("vnc");
    assert("dns"@.len() == 3);
    assert("ftp"@.len() == 3);
    assert("http"@.len() == 4);
    assert("http-alt"@.len() == 8);
    assert("https"@.len() == 5);
    assert("https-alt"@.len() == 9);
    assert("imap"@.len() == 4);
    assert("imaps"@.len() == 5);
    assert("jetdirect"@.len() == 9);
    assert("msrpc"@.len() == 5);
    assert("mssql"@.len() == 5);
    assert("mysql"@.len() == 5);
    assert("netbios-ssn"@.len() == 11);
    assert("oracle"@.len() == 6);
    assert("pop3"@.len() == 4);
    assert("pop3s"@.len() == 5);
    assert("postgres"@.len() == 8);
    assert("rdp"@.len() == 3);
    assert("redis"@.len() == 5);
    assert("rpcbind"@.len() == 7);
    assert("smb"@.len() == 3);
    assert("smtp"@.len() == 4);
    assert("ssh"@.len() == 3);
    assert("telnet"@.len() == 6);
    assert("vnc"@.len() == 3);
    assert("ftp"@[0] != "dns"@[0]);
    assert("imap"@[0] != "http"@[0]);
    assert("imaps"@[0] != "https"@[0]);
    assert("jetdirect"@[0] != "https-alt"@[0]);
    assert("msrpc"@[0] != "https"@[0]);
    assert("msrpc"@[0] != "imaps"@[0]);
    assert("mssql"@[0] != "https"@[0]);
    assert("mssql"@[0] != "imaps"@[0]);
    assert("mssql"@[2] != "msrpc"@[2]);
    assert("mysql"@[0] != "https"@[0]);
    assert("mysql"@[0] != "imaps"@[0]);
    assert("mysql"@[1] != "msrpc"@[1]);
    assert("mysql"@[1] != "mssql"@[1]);
    assert("pop3"@[0] != "http"@[0]);
    assert("pop3"@[0] != "imap"@[0]);
    assert("pop3s"@[0] != "https"@[0]);
    assert("pop3s"@[0] != "imaps"@[0]);
    assert("pop3s"@[0] != "msrpc"@[0]);
    assert("pop3s"@[0] != "mssql"@[0]);
    assert("pop3s"@[0] != "mysql"@[0]);
    assert("postgres"@[0] != "http-alt"@[0]);
    assert("rdp"@[0] != "dns"@[0]);
    assert("rdp"@[0] != "ftp"@[0]);
    assert("redis"@[0] != "https"@[0]);
    assert("redis"@[0] != "imaps"@[0]);
    assert("redis"@[0] != "msrpc"@[0]);
    assert("redis"@[0] != "mssql"@[0]);
    assert("redis"@[0] != "mysql"@[0]);
    assert("redis"@[0] != "pop3s"@[0]);
    assert("smb"@[0] != "dns"@[0]);
    assert("smb"@[0] != "ftp"@[0]);
    assert("smb"@[0] != "rdp"@[0]);
    assert("smtp"@[0] != "http"@[0]);
    assert("smtp"@[0] != "imap"@[0]);
    assert("smtp"@[0] != "pop3"@[0]);
    assert("ssh"@[0] != "dns"@[0]);
    assert("ssh"@[0] != "ftp"@[0]);
    assert("ssh"@[0] != "rdp"@[0]);
    assert("ssh"@[1] != "smb"@[1]);
    assert("telnet"@[0] != "oracle"@[0]);
    assert("vnc"@[0] != "dns"@[0]);
    assert("vnc"@[0] != "ftp"@[0]);
    assert("vnc"@[0] != "rdp"@[0]);
    assert("vnc"@[0] != "smb"@[0]);
    assert("vnc"@[0] != "ssh"@[0]);
    assert(registered_port("dns"@) == Some(53u16));
    assert(registered_port("ftp"@) == Some(21u16));
    assert(registered_port("http"@) == Some(80u16));
    assert(registered_port("http-alt"@) == Some(8080u16));
    assert(registered_port("https"@) == Some(443u16));
    assert(registered_port("https-alt"@) == Some(8443u16));
    assert(registered_port("imap"@) == Some(143u16));
    assert(registered_port("imaps"@) == Some(993u16));
    assert(registered_port("jetdirect"@) == Some(9100u16));
    assert(registered_port("msrpc"@) == Some(135u16));
    assert(registered_port("mssql"@) == Some(1433u16));
    assert(registered_port("mysql"@) == Some(3306u16));
    assert(registered_port("netbios-ssn"@) == Some(139u16));
    assert(registered_port("oracle"@) == Some(1521u16));
    assert(registered_port("pop3"@) == Some(110u16));
    assert(registered_port("pop3s"@) == Some(995u16));
    assert(registered_port("postgres"@) == Some(5432u16));
    assert(registered_port("rdp"@) == Some(3389u16));
    assert(registered_port("redis"@) == Some(6379u16));
    assert(registered_port("rpcbind"@) == Some(111u16));
    assert(registered_port("smb"@) == Some(445u16));
    assert(registered_port("smtp"@) == Some(25u16));
    assert(registered_port("ssh"@) == Some(22u16));
    assert(registered_port("telnet"@) == Some(23u16));
    assert(registered_port("vnc"@) == Some(5900u16));
}

pub fn well_known_service(port: u16) -> (r: Option<&'static str>)
    ensures
        r is Some <==> service_name(port) is Some,
        r matches Some(s) ==> service_name(port) == Some(s@),
{
    match port {
        21 => Some("ftp"),
        22 => Some("ssh"),
        23 => Some("telnet"),
        25 => Some("smtp"),
        53 => Some("dns"),
        80 => Some("http"),
        110 => Some("pop3"),
        111 => Some("rpcbind"),
        135 => Some("msrpc"),
        139 => Some("netbios-ssn"),
        143 => Some("imap"),
        443 => Some("https"),
        445 => Some("smb"),
        993 => Some("imaps"),
        995 => Some("pop3s"),
        1433 => Some("mssql"),
        1521 => Some("oracle"),
        3306 => Some("mysql"),
        3389 => Some("rdp"),
        5432 => Some("postgres"),
        5900 => Some("vnc"),
        6379 => Some("redis"),
        8080 => Some("http-alt"),
        8443 => Some("https-alt"),
        9100 => Some("jetdirect"),
        _ => None,
    }
}

/// State of a probed port.
#[derive(Debug, Clone, Copy, PartialEq, Eq, Structural)]
pub enum PortState {
    Open,
    Closed,
    Filtered,
}

/// How a TCP connect attempt ended.
#[derive(Debug, Clone, Copy, PartialEq, Eq, Structural)]
pub enum ConnectOutcome {
    Connected,
    Refused,
    OtherError,
    TimedOut,
}

/// A completed connection means open, a refusal means closed; any other
/// error or a timeout means filtered.
pub fn port_state(o: ConnectOutcome) -> (s: PortState)
    ensures
        s == (match o {
            ConnectOutcome::Connected => PortState::Open,
            ConnectOutcome::Refused => PortState::Closed,
            _ => PortState::Filtered,
        }),
{
    match o {
        ConnectOutcome::Connected => PortState::Open,
        ConnectOutcome::Refused => PortState::Closed,
        _ => PortState::Filtered,
    }
}

/// How many of the probed ports are open.
pub fn count_open(states: &[PortState]) -> (n: u32)
    requires
        states@.len() <= u32::MAX,
    ensures
        n == states@.filter(|s: PortState| s == PortState::Open).len(),
{
    let mut n: u32 = 0;
    for i in 0..states.len()
        invariant
            states@.len() <= u32::MAX,
            n == states@.take(i as int).filter(|s: PortState| s == PortState::Open).len(),
            n <= i,
    {
        proof {
            assert(states@.take(i + 1).drop_last() =~= states@.take(i as int));
            reveal_with_fuel(Seq::<_>::filter, 1);
        }
        if states[i] == PortState::Open {
            n = n + 1;
        }
    }
    assert(states@.take(states.len() as int) =~= states@);
    n
}

} // verus!
