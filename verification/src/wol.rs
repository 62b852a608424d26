//! Wake-on-LAN: the magic packet and the checks that precede sending it.

use vstd::prelude::*;
use crate::text::{chars_of, extend_chars, extend_str, string_of, trim, trimmed};
use crate::ipv4::{ipv4_text, parse_ipv4, parse_ipv4_chars, push_ipv4};
use crate::neighbors::{
    colon_pairs, hex_upper, hex_val, lemma_hex_upper_is_hex, mac_norm, mac_octets, normalize_mac,
    octets_of_hex,
};
use crate::text::{is_hex, lemma_split_on_extend, lemma_split_on_sep, split_chars, split_on, upper};

verus! {

/// UDP port of the discard service, where magic packets go.
pub const WOL_PORT: u16 = 9;

/// The alternate port some stacks listen on for magic packets.
pub const WOL_ALT_PORT: u16 = 7;

/// Six `0xff` bytes, then the MAC address sixteen times.
pub open spec fn magic_packet_spec(mac: Seq<u8>) -> Seq<u8> {
    Seq::new(102, |i: int| if i < 6 { 0xffu8 } else { mac[(i - 6) % 6] })
}

pub fn magic_packet(mac: &[u8; 6]) -> (packet: [u8; 102])
    ensures
        packet@ == magic_packet_spec(mac@),
{
    let mut packet: [u8; 102] = [0; 102];
    for i in 0..102usize
        invariant
            forall|j: int| 0 <= j < i ==> packet@[j] == magic_packet_spec(mac@)[j],
    {
        if i < 6 {
            packet[i] = 0xff;
        } else {
            packet[i] = mac[(i - 6) % 6];
        }
    }
    assert(packet@ =~= magic_packet_spec(mac@));
    packet
}

// ---------------------------------------------------------------------------
// Octets of a normalized MAC address
// ---------------------------------------------------------------------------

pub open spec fn empty_message() -> Seq<char> {
    "cannot parse integer from empty string"@
}

pub open spec fn invalid_digit_message() -> Seq<char> {
    "invalid digit found in string"@
}

pub open spec fn overflow_message() -> Seq<char> {
    "number too large to fit in target type"@
}

/// Hex digits read left to right onto `acc` as `u8::from_str_radix` does:
/// the first non-digit is an invalid digit, a value above 255 overflows.
pub open spec fn hex_digits_u8(d: Seq<char>, acc: nat) -> Result<u8, Seq<char>>
    decreases d.len(),
{
    if d.len() == 0 {
        Ok(acc as u8)
    } else if !is_hex(d[0]) {
        Err(invalid_digit_message())
    } else if acc * 16 + hex_val(d[0]) > 255 {
        Err(overflow_message())
    } else {
        hex_digits_u8(d.drop_first(), acc * 16 + hex_val(d[0]))
    }
}

/// `u8::from_str_radix(part, 16)`, its error as the error's text.
pub open spec fn parse_octet(part: Seq<char>) -> Result<u8, Seq<char>> {
    if part.len() == 0 {
        Err(empty_message())
    } else if part == seq!['+'] || part == seq!['-'] {
        Err(invalid_digit_message())
    } else if part[0] == '+' {
        hex_digits_u8(part.drop_first(), 0)
    } else {
        hex_digits_u8(part, 0)
    }
}

pub open spec fn bad_octet_message(part: Seq<char>, e: Seq<char>) -> Seq<char> {
    "Invalid MAC octet '"@ + part + "': "@ + e
}

/// The octets of the `:`-separated parts, in order; the first part that
/// does not parse decides the error.
pub open spec fn octets_of_parts(parts: Seq<Seq<char>>) -> Result<Seq<u8>, Seq<char>>
    decreases parts.len(),
{
    if parts.len() == 0 {
        Ok(Seq::empty())
    } else {
        match octets_of_parts(parts.drop_last()) {
            Err(e) => Err(e),
            Ok(v) => match parse_octet(parts.last()) {
                Err(e) => Err(bad_octet_message(parts.last(), e)),
                Ok(b) => Ok(v.push(b)),
            },
        }
    }
}

/// The six octets of colon-separated hex text: each part in its place,
/// missing places zero.
pub open spec fn mac_bytes_of(text: Seq<char>) -> Result<Seq<u8>, Seq<char>> {
    match octets_of_parts(split_on(text, seq![':'])) {
        Err(e) => Err(e),
        Ok(v) => Ok(v + Seq::new((6 - v.len()) as nat, |i: int| 0u8)),
    }
}

fn hex_value(c: char) -> (v: u16)
    requires
        is_hex(c),
    ensures
        v == hex_val(c),
        v < 16,
{
    if '0' <= c && c <= '9' {
        (c as u16) - 48
    } else if 'A' <= c && c <= 'F' {
        (c as u16) - 55
    } else {
        (c as u16) - 87
    }
}

fn parse_octet_exec(part: &[char]) -> (r: Result<u8, &'static str>)
    ensures
        match r {
            Ok(b) => parse_octet(part@) == Ok::<u8, Seq<char>>(b),
            Err(e) => parse_octet(part@) == Err::<u8, Seq<char>>(e@),
        },
{
    proof {
        reveal_strlit("cannot parse integer from empty string");
        reveal_strlit("invalid digit found in string");
        reveal_strlit("number too large to fit in target type");
    }
    if part.len() == 0 {
        return Err("cannot parse integer from empty string");
    }
    if part.len() == 1 && (part[0] == '+' || part[0] == '-') {
        assert(part@ =~= seq![part@[0]]);
        return Err("invalid digit found in string");
    }
    proof {
        if part@ == seq!['+'] || part@ == seq!['-'] {
            assert(part@.len() == 1);
        }
    }
    let start: usize = if part[0] == '+' {
        1
    } else {
        0
    };
    let ghost digits = if part@[0] == '+' {
        part@.drop_first()
    } else {
        part@
    };
    assert(digits =~= part@.skip(start as int));
    assert(parse_octet(part@) == hex_digits_u8(digits, 0));
    let mut acc: u16 = 0;
    let mut i: usize = start;
    while i < part.len()
        invariant
            start <= i <= part@.len(),
            digits == part@.skip(start as int),
            acc <= 255,
            parse_octet(part@) == hex_digits_u8(digits, 0),
            hex_digits_u8(digits, 0) == hex_digits_u8(part@.skip(i as int), acc as nat),
        decreases part.len() - i,
    {
        assert(part@.skip(i as int)[0] == part@[i as int]);
        assert(part@.skip(i as int).drop_first() =~= part@.skip(i + 1));
        if !crate::text::is_hex_char(part[i]) {
            return Err("invalid digit found in string");
        }
        let v = hex_value(part[i]);
        if acc * 16 + v > 255 {
            return Err("number too large to fit in target type");
        }
        acc = acc * 16 + v;
        i = i + 1;
    }
    assert(part@.skip(i as int) =~= Seq::<char>::empty());
    Ok(acc as u8)
}

/// `mac_bytes`: the octets of a normalized MAC address `AA:BB:CC:DD:EE:FF`;
/// a part that is not hex is refused with the reason. At most six parts.
pub fn mac_bytes(normalized: &str) -> (r: Result<[u8; 6], String>)
    requires
        split_on(normalized@, seq![':']).len() <= 6,
    ensures
        match r {
            Ok(b) => mac_bytes_of(normalized@) == Ok::<Seq<u8>, Seq<char>>(b@),
            Err(e) => mac_bytes_of(normalized@) == Err::<Seq<u8>, Seq<char>>(e@),
        },
{
    let c = chars_of(normalized);
    let sep: [char; 1] = [':'];
    let sep_s: &[char] = &sep;
    assert(sep_s@ =~= seq![':']);
    let parts = split_chars(c.as_slice(), sep_s);
    let ghost ps = crate::text::views_of(parts@);
    let mut out: [u8; 6] = [0; 6];
    let mut i: usize = 0;
    while i < parts.len()
        invariant
            i <= parts@.len(),
            parts@.len() <= 6,
            ps == crate::text::views_of(parts@),
            ps == split_on(normalized@, seq![':']),
            octets_of_parts(ps.take(i as int)) matches Ok(v) && v.len() == i && (forall|k: int|
                0 <= k < i ==> out@[k] == v[k]),
            forall|k: int| i <= k < 6 ==> out@[k] == 0,
        decreases parts.len() - i,
    {
        assert(ps.take(i + 1).drop_last() =~= ps.take(i as int));
        assert(ps.take(i + 1).last() == parts@[i as int]@);
        match parse_octet_exec(parts[i].as_slice()) {
            Ok(b) => {
                out[i] = b;
            },
            Err(e) => {
                let mut m: Vec<char> = Vec::new();
                extend_str(&mut m, "Invalid MAC octet '");
                extend_chars(&mut m, parts[i].as_slice());
                extend_str(&mut m, "': ");
                extend_str(&mut m, e);
                proof {
                    lemma_octets_err_prefix(ps, i + 1);
                    assert(ps.take(parts@.len() as int) =~= ps);
                }
                return Err(string_of(m.as_slice()));
            },
        }
        i = i + 1;
    }
    assert(ps.take(parts@.len() as int) =~= ps);
    proof {
        let v = octets_of_parts(ps)->Ok_0;
        assert(out@ =~= v + Seq::new((6 - v.len()) as nat, |i: int| 0u8));
    }
    Ok(out)
}

proof fn lemma_octets_err_prefix(ps: Seq<Seq<char>>, n: int)
    requires
        0 <= n <= ps.len(),
        octets_of_parts(ps.take(n)) is Err,
    ensures
        octets_of_parts(ps) == octets_of_parts(ps.take(n)),
    decreases ps.len(),
{
    if n < ps.len() {
        assert(ps.drop_last().take(n) =~= ps.take(n));
        lemma_octets_err_prefix(ps.drop_last(), n);
    } else {
        assert(ps.take(n) =~= ps);
    }
}

proof fn lemma_hex_val_small(c: char)
    requires
        is_hex(c),
    ensures
        hex_val(c) < 16,
{
}

proof fn lemma_parse_pair(a: char, b: char)
    requires
        is_hex(a),
        is_hex(b),
        a != '+',
    ensures
        parse_octet(seq![a, b]) == Ok::<u8, Seq<char>>((hex_val(a) * 16 + hex_val(b)) as u8),
{
    lemma_hex_val_small(a);
    lemma_hex_val_small(b);
    let s = seq![a, b];
    assert(s.drop_first() =~= seq![b]);
    assert(seq![b].drop_first() =~= Seq::<char>::empty());
    assert(s != seq!['+']) by {
        assert(s.len() == 2);
    }
    assert(s != seq!['-']) by {
        assert(s.len() == 2);
    }
    assert(hex_digits_u8(seq![b], hex_val(a)) == hex_digits_u8(
        Seq::<char>::empty(),
        hex_val(a) * 16 + hex_val(b),
    ));
}

/// A normalized MAC address reads back as the octets of the address it
/// came from.
pub proof fn lemma_mac_bytes_of_normalized(s: Seq<char>)
    requires
        mac_norm(s) is Some,
    ensures
        split_on(mac_norm(s).unwrap(), seq![':']).len() == 6,
        mac_bytes_of(mac_norm(s).unwrap()) == Ok::<Seq<u8>, Seq<char>>(mac_octets(s).unwrap()),
{
    let h = hex_upper(s);
    lemma_hex_upper_is_hex(s);
    let colon = seq![':'];
    assert(colon.contains(':')) by {
        assert(colon[0] == ':');
    }
    assert forall|i: int| 0 <= i < 12 implies is_hex(#[trigger] h[i]) && !colon.contains(h[i]) by {
        if colon.contains(h[i]) {
            let k = choose|k: int| 0 <= k < colon.len() && colon[k] == h[i];
            assert(colon[k] == ':');
        }
    }
    let p0 = seq![h[0], h[1]];
    let p1 = seq![h[2], h[3]];
    let p2 = seq![h[4], h[5]];
    let p3 = seq![h[6], h[7]];
    let p4 = seq![h[8], h[9]];
    let p5 = seq![h[10], h[11]];
    let e = Seq::<char>::empty();
    assert(split_on(e, colon) =~= seq![e]);
    assert(forall|i: int| 0 <= i < p0.len() ==> !colon.contains(#[trigger] p0[i]));
    assert(forall|i: int| 0 <= i < p1.len() ==> !colon.contains(#[trigger] p1[i]));
    assert(forall|i: int| 0 <= i < p2.len() ==> !colon.contains(#[trigger] p2[i]));
    assert(forall|i: int| 0 <= i < p3.len() ==> !colon.contains(#[trigger] p3[i]));
    assert(forall|i: int| 0 <= i < p4.len() ==> !colon.contains(#[trigger] p4[i]));
    assert(forall|i: int| 0 <= i < p5.len() ==> !colon.contains(#[trigger] p5[i]));
    lemma_split_on_extend(e, p0, colon);
    assert(e + p0 =~= p0);
    let t0 = p0;
    lemma_split_on_sep(t0, ':', colon);
    let t1 = t0.push(':') + p1;
    lemma_split_on_extend(t0.push(':'), p1, colon);
    lemma_split_on_sep(t1, ':', colon);
    let t2 = t1.push(':') + p2;
    lemma_split_on_extend(t1.push(':'), p2, colon);
    lemma_split_on_sep(t2, ':', colon);
    let t3 = t2.push(':') + p3;
    lemma_split_on_extend(t2.push(':'), p3, colon);
    lemma_split_on_sep(t3, ':', colon);
    let t4 = t3.push(':') + p4;
    lemma_split_on_extend(t3.push(':'), p4, colon);
    lemma_split_on_sep(t4, ':', colon);
    let t5 = t4.push(':') + p5;
    lemma_split_on_extend(t4.push(':'), p5, colon);
    assert(t5 =~= colon_pairs(h));
    let parts = split_on(t5, colon);
    assert(parts =~= seq![p0, p1, p2, p3, p4, p5]);
    assert(h[0] != '+' && h[2] != '+' && h[4] != '+' && h[6] != '+' && h[8] != '+' && h[10] != '+');
    lemma_parse_pair(h[0], h[1]);
    lemma_parse_pair(h[2], h[3]);
    lemma_parse_pair(h[4], h[5]);
    lemma_parse_pair(h[6], h[7]);
    lemma_parse_pair(h[8], h[9]);
    lemma_parse_pair(h[10], h[11]);
    let o = octets_of_hex(h);
    assert(parts.take(0) =~= Seq::<Seq<char>>::empty());
    assert(parts.drop_last() =~= seq![p0, p1, p2, p3, p4]);
    assert(seq![p0, p1, p2, p3, p4].drop_last() =~= seq![p0, p1, p2, p3]);
    assert(seq![p0, p1, p2, p3].drop_last() =~= seq![p0, p1, p2]);
    assert(seq![p0, p1, p2].drop_last() =~= seq![p0, p1]);
    assert(seq![p0, p1].drop_last() =~= seq![p0]);
    assert(seq![p0].drop_last() =~= Seq::<Seq<char>>::empty());
    assert(o[0] == (hex_val(h[0]) * 16 + hex_val(h[1])) as u8);
    assert(o[1] == (hex_val(h[2]) * 16 + hex_val(h[3])) as u8);
    assert(o[2] == (hex_val(h[4]) * 16 + hex_val(h[5])) as u8);
    assert(o[3] == (hex_val(h[6]) * 16 + hex_val(h[7])) as u8);
    assert(o[4] == (hex_val(h[8]) * 16 + hex_val(h[9])) as u8);
    assert(o[5] == (hex_val(h[10]) * 16 + hex_val(h[11])) as u8);
    assert(octets_of_parts(Seq::<Seq<char>>::empty()) == Ok::<Seq<u8>, Seq<char>>(Seq::empty()));
    assert(seq![p0].last() == p0);
    assert(Seq::<u8>::empty().push(o[0]) =~= seq![o[0]]);
    assert(octets_of_parts(seq![p0]) == Ok::<Seq<u8>, Seq<char>>(seq![o[0]]));
    assert(octets_of_parts(seq![p0, p1]) == Ok::<Seq<u8>, Seq<char>>(seq![o[0]].push(o[1])));
    assert(octets_of_parts(seq![p0, p1, p2]) == Ok::<Seq<u8>, Seq<char>>(
        seq![o[0]].push(o[1]).push(o[2]),
    ));
    assert(octets_of_parts(seq![p0, p1, p2, p3]) == Ok::<Seq<u8>, Seq<char>>(
        seq![o[0]].push(o[1]).push(o[2]).push(o[3]),
    ));
    assert(octets_of_parts(seq![p0, p1, p2, p3, p4]) == Ok::<Seq<u8>, Seq<char>>(
        seq![o[0]].push(o[1]).push(o[2]).push(o[3]).push(o[4]),
    ));
    assert(octets_of_parts(parts) == Ok::<Seq<u8>, Seq<char>>(
        seq![o[0]].push(o[1]).push(o[2]).push(o[3]).push(o[4]).push(o[5]),
    ));
    assert(seq![o[0]].push(o[1]).push(o[2]).push(o[3]).push(o[4]).push(o[5]) + Seq::new(
        0,
        |i: int| 0u8,
    ) =~= o);
}

/// What is sent to wake a machine.
#[derive(Debug, Clone)]
pub struct WakePlan {
    /// The MAC address in `AA:BB:CC:DD:EE:FF` form.
    pub mac: String,
    pub packet: Vec<u8>,
    /// Destination IPv4 broadcast address.
    pub broadcast: u32,
}

/// The result reported after the packet was sent.
#[derive(Debug, Clone)]
pub struct WakeResult {
    pub success: bool,
    pub mac: String,
    pub broadcast: String,
    pub message: String,
}

/// The broadcast text given, trimmed, when it is not blank.
pub open spec fn given_broadcast(b: Option<Seq<char>>) -> Option<Seq<char>> {
    match b {
        Some(t) => if trim(t).len() > 0 {
            Some(trim(t))
        } else {
            None
        },
        None => None,
    }
}

pub open spec fn opt_str(o: Option<&str>) -> Option<Seq<char>> {
    match o {
        Some(s) => Some(s@),
        None => None,
    }
}

pub open spec fn invalid_mac_message(mac: Seq<char>) -> Seq<char> {
    "Invalid MAC address: "@ + mac
}

pub open spec fn invalid_broadcast_message(raw: Seq<char>) -> Seq<char> {
    "Invalid broadcast address "@ + raw + ": invalid IPv4 address syntax"@
}

/// Checks a wake request: the MAC must normalize, and a broadcast address,
/// when one is given and not blank, must be dotted-quad IPv4 text; without
/// one the limited broadcast address 255.255.255.255 is used.
pub fn plan_wake(mac: &str, broadcast: Option<&str>) -> (r: Result<WakePlan, String>)
    ensures
        mac_norm(mac@) is None ==> (r matches Err(e) && e@ == invalid_mac_message(mac@)),
        mac_norm(mac@) is Some ==> (given_broadcast(opt_str(broadcast)) matches Some(raw) ==> (
        parse_ipv4(raw) is None ==> (r matches Err(e) && e@ == invalid_broadcast_message(raw)))),
        r is Ok <==> (mac_norm(mac@) is Some && (given_broadcast(opt_str(broadcast)) matches Some(
            raw,
        ) ==> parse_ipv4(raw) is Some)),
        r matches Ok(p) ==> p.mac@ == mac_norm(mac@).unwrap() && p.packet@ == magic_packet_spec(
            mac_octets(mac@).unwrap(),
        ) && p.broadcast == match given_broadcast(opt_str(broadcast)) {
            Some(raw) => parse_ipv4(raw).unwrap(),
            None => 0xFFFF_FFFFu32,
        },
{
    let normalized = match normalize_mac(mac) {
        Some(n) => n,
        None => {
            let mut m: Vec<char> = Vec::new();
            extend_str(&mut m, "Invalid MAC address: ");
            extend_str(&mut m, mac);
            return Err(string_of(m.as_slice()));
        },
    };
    proof {
        lemma_mac_bytes_of_normalized(mac@);
    }
    let bytes = match mac_bytes(normalized.as_str()) {
        Ok(b) => b,
        Err(e) => return Err(e),
    };
    let packet = magic_packet(&bytes);
    let mut pv: Vec<u8> = Vec::new();
    for i in 0..102usize
        invariant
            pv@ == packet@.take(i as int),
    {
        pv.push(packet[i]);
        assert(packet@.take(i + 1) =~= pv@);
    }
    assert(packet@.take(102) =~= packet@);
    let bcast: u32 = match broadcast {
        Some(b) => {
            let c = chars_of(b);
            let t = trimmed(c.as_slice());
            if t.len() == 0 {
                0xFFFF_FFFF
            } else {
                match parse_ipv4_chars(t) {
                    Some(x) => x,
                    None => {
                        let mut m: Vec<char> = Vec::new();
                        extend_str(&mut m, "Invalid broadcast address ");
                        extend_chars(&mut m, t);
                        extend_str(&mut m, ": invalid IPv4 address syntax");
                        return Err(string_of(m.as_slice()));
                    },
                }
            }
        },
        None => 0xFFFF_FFFF,
    };
    Ok(WakePlan { mac: normalized, packet: pv, broadcast: bcast })
}

pub open spec fn sent_message(mac: Seq<char>, bcast: u32) -> Seq<char> {
    "Magic packet sent to "@ + mac + " via "@ + ipv4_text(bcast)
}

/// The report after the magic packet of `plan` was sent.
pub fn wake_result(plan: &WakePlan) -> (r: WakeResult)
    ensures
        r.success,
        r.mac@ == plan.mac@,
        r.broadcast@ == ipv4_text(plan.broadcast),
        r.message@ == sent_message(plan.mac@, plan.broadcast),
{
    let mut m: Vec<char> = Vec::new();
    extend_str(&mut m, "Magic packet sent to ");
    let mc = chars_of(plan.mac.as_str());
    extend_chars(&mut m, mc.as_slice());
    extend_str(&mut m, " via ");
    push_ipv4(&mut m, plan.broadcast);
    assert(m@ =~= sent_message(plan.mac@, plan.broadcast));
    let mut b: Vec<char> = Vec::new();
    push_ipv4(&mut b, plan.broadcast);
    assert(b@ =~= ipv4_text(plan.broadcast));
    WakeResult {
        success: true,
        mac: string_of(mc.as_slice()),
        broadcast: string_of(b.as_slice()),
        message: string_of(m.as_slice()),
    }
}

} // verus!
