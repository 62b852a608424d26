//! MAC address normalization and the parsers of the operating systems'
//! neighbor (ARP) tables. Each parser maps IPv4 text to a normalized MAC;
//! a later line overrides an earlier one for the same address text.

use vstd::prelude::*;
use crate::text::{
    chars_eq, chars_of, is_hex, is_hex_char, lines, lines_of, string_of, upper, upper_char, views_of,
    words, words_of,
};
use crate::ipv4::{parse_ipv4, parse_ipv4_chars};
use crate::textmap::TextMap;

verus! {

// ---------------------------------------------------------------------------
// MAC addresses
// ---------------------------------------------------------------------------

/// The hexadecimal digits of `s`, in order, upper-cased.
pub open spec fn hex_upper(s: Seq<char>) -> Seq<char>
    decreases s.len(),
{
    if s.len() == 0 {
        Seq::<char>::empty()
    } else if is_hex(s.last()) {
        hex_upper(s.drop_last()).push(upper(s.last()))
    } else {
        hex_upper(s.drop_last())
    }
}

/// Twelve hex digits written as `AA:BB:CC:DD:EE:FF`.
pub open spec fn colon_pairs(c: Seq<char>) -> Seq<char> {
    seq![
        c[0], c[1], ':', c[2], c[3], ':', c[4], c[5], ':', c[6], c[7], ':', c[8], c[9], ':', c[10], c[11]
    ]
}

pub open spec fn all_zero(c: Seq<char>) -> bool {
    forall|i: int| 0 <= i < c.len() ==> #[trigger] c[i] == '0'
}

/// A MAC address in any common notation, normalized: its hex digits must
/// number exactly twelve and not all be zero; they are upper-cased and
/// grouped in colon-separated pairs.
pub open spec fn mac_norm(s: Seq<char>) -> Option<Seq<char>> {
    let h = hex_upper(s);
    if h.len() == 12 && !all_zero(h) {
        Some(colon_pairs(h))
    } else {
        None
    }
}

/// The hex digits of `s`, upper-cased (`mac_hex` of the text).
pub fn hex_digits_upper(s: &[char]) -> (r: Vec<char>)
    ensures
        r@ == hex_upper(s@),
{
    let mut r: Vec<char> = Vec::new();
    for i in 0..s.len()
        invariant
            r@ == hex_upper(s@.take(i as int)),
    {
        assert(s@.take(i + 1).drop_last() =~= s@.take(i as int));
        if is_hex_char(s[i]) {
            r.push(upper_char(s[i]));
        }
    }
    assert(s@.take(s.len() as int) =~= s@);
    r
}

pub fn normalize_mac_chars(s: &[char]) -> (r: Option<Vec<char>>)
    ensures
        r is Some <==> mac_norm(s@) is Some,
        r matches Some(v) ==> mac_norm(s@) == Some(v@),
{
    let h = hex_digits_upper(s);
    if h.len() != 12 {
        return None;
    }
    let mut zero = true;
    let mut i: usize = 0;
    while i < 12
        invariant
            h@.len() == 12,
            i <= 12,
            zero == (forall|k: int| 0 <= k < i ==> h@[k] == '0'),
        decreases 12 - i,
    {
        if h[i] != '0' {
            zero = false;
        }
        i = i + 1;
    }
    if zero {
        return None;
    }
    let v: Vec<char> = vec![
        h[0], h[1], ':', h[2], h[3], ':', h[4], h[5], ':', h[6], h[7], ':', h[8], h[9], ':', h[10],
        h[11],
    ];
    assert(v@ =~= colon_pairs(h@));
    Some(v)
}

/// Normalize MAC addresses from common OS formats into `AA:BB:CC:DD:EE:FF`.
pub fn normalize_mac(raw: &str) -> (r: Option<String>)
    ensures
        r is Some <==> mac_norm(raw@) is Some,
        r matches Some(v) ==> mac_norm(raw@) == Some(v@),
{
    let c = chars_of(raw);
    match normalize_mac_chars(c.as_slice()) {
        Some(v) => Some(string_of(v.as_slice())),
        None => None,
    }
}

/// The value of a hexadecimal digit.
pub open spec fn hex_val(c: char) -> nat {
    if '0' <= c <= '9' {
        ((c as u32) - ('0' as u32)) as nat
    } else if 'A' <= c <= 'F' {
        ((c as u32) - ('A' as u32) + 10) as nat
    } else {
        ((c as u32) - ('a' as u32) + 10) as nat
    }
}

/// The six octets of a MAC address whose hex digits are `h`.
pub open spec fn octets_of_hex(h: Seq<char>) -> Seq<u8> {
    Seq::new(6, |k: int| (hex_val(h[2 * k]) * 16 + hex_val(h[2 * k + 1])) as u8)
}

/// The octets of a MAC address in any notation `normalize_mac` accepts.
pub open spec fn mac_octets(s: Seq<char>) -> Option<Seq<u8>> {
    if mac_norm(s) is Some {
        Some(octets_of_hex(hex_upper(s)))
    } else {
        None
    }
}

/// The digits `hex_upper` keeps are hex digits without lower-case letters.
pub proof fn lemma_hex_upper_is_hex(s: Seq<char>)
    ensures
        forall|i: int| 0 <= i < hex_upper(s).len() ==> is_hex(#[trigger] hex_upper(s)[i]),
        forall|i: int| 0 <= i < hex_upper(s).len() ==> upper(#[trigger] hex_upper(s)[i]) == hex_upper(s)[i],
    decreases s.len(),
{
    if s.len() > 0 {
        lemma_hex_upper_is_hex(s.drop_last());
        let c = s.last();
        if is_hex(c) {
            lemma_upper_hex(c);
            let p = hex_upper(s.drop_last());
            assert(hex_upper(s) == p.push(upper(c)));
            assert forall|i: int| 0 <= i < hex_upper(s).len() implies is_hex(
                #[trigger] hex_upper(s)[i],
            ) && upper(hex_upper(s)[i]) == hex_upper(s)[i] by {
                if i < p.len() {
                    assert(hex_upper(s)[i] == p[i]);
                }
            }
        }
    }
}

proof fn lemma_upper_hex(c: char)
    requires
        is_hex(c),
    ensures
        is_hex(upper(c)),
        upper(upper(c)) == upper(c),
{
    if 'a' <= c && c <= 'z' {
        let u = ((c as u32) - 32) as char;
        assert(u as u32 == (c as u32) - 32);
    }
}

proof fn lemma_hex_upper_push(s: Seq<char>, c: char)
    ensures
        hex_upper(s.push(c)) == (if is_hex(c) {
            hex_upper(s).push(upper(c))
        } else {
            hex_upper(s)
        }),
{
    assert(s.push(c).drop_last() =~= s);
}

/// Twelve upper-case hex digits grouped in pairs have those digits as
/// their hex digits.
proof fn lemma_hex_upper_colon_pairs(h: Seq<char>)
    requires
        h.len() == 12,
        forall|i: int| 0 <= i < 12 ==> is_hex(#[trigger] h[i]) && upper(h[i]) == h[i],
    ensures
        hex_upper(colon_pairs(h)) == h,
{
    let cp = colon_pairs(h);
    assert(!is_hex(':'));
    let t0 = Seq::<char>::empty();
    assert(hex_upper(t0) =~= Seq::<char>::empty());
    let t1 = t0.push(h[0]);
    lemma_hex_upper_push(t0, h[0]);
    assert(is_hex(h[0]) && upper(h[0]) == h[0]);
    assert(hex_upper(t1) =~= h.take(1));
    let t2 = t1.push(h[1]);
    lemma_hex_upper_push(t1, h[1]);
    assert(is_hex(h[1]) && upper(h[1]) == h[1]);
    assert(hex_upper(t2) =~= h.take(2));
    let t3 = t2.push(':');
    lemma_hex_upper_push(t2, ':');
    assert(hex_upper(t3) =~= h.take(2));
    let t4 = t3.push(h[2]);
    lemma_hex_upper_push(t3, h[2]);
    assert(is_hex(h[2]) && upper(h[2]) == h[2]);
    assert(hex_upper(t4) =~= h.take(3));
    let t5 = t4.push(h[3]);
    lemma_hex_upper_push(t4, h[3]);
    assert(is_hex(h[3]) && upper(h[3]) == h[3]);
    assert(hex_upper(t5) =~= h.take(4));
    let t6 = t5.push(':');
    lemma_hex_upper_push(t5, ':');
    assert(hex_upper(t6) =~= h.take(4));
    let t7 = t6.push(h[4]);
    lemma_hex_upper_push(t6, h[4]);
    assert(is_hex(h[4]) && upper(h[4]) == h[4]);
    assert(hex_upper(t7) =~= h.take(5));
    let t8 = t7.push(h[5]);
    lemma_hex_upper_push(t7, h[5]);
    assert(is_hex(h[5]) && upper(h[5]) == h[5]);
    assert(hex_upper(t8) =~= h.take(6));
    let t9 = t8.push(':');
    lemma_hex_upper_push(t8, ':');
    assert(hex_upper(t9) =~= h.take(6));
    let t10 = t9.push(h[6]);
    lemma_hex_upper_push(t9, h[6]);
    assert(is_hex(h[6]) && upper(h[6]) == h[6]);
    assert(hex_upper(t10) =~= h.take(7));
    let t11 = t10.push(h[7]);
    lemma_hex_upper_push(t10, h[7]);
    assert(is_hex(h[7]) && upper(h[7]) == h[7]);
    assert(hex_upper(t11) =~= h.take(8));
    let t12 = t11.push(':');
    lemma_hex_upper_push(t11, ':');
    assert(hex_upper(t12) =~= h.take(8));
    let t13 = t12.push(h[8]);
    lemma_hex_upper_push(t12, h[8]);
    assert(is_hex(h[8]) && upper(h[8]) == h[8]);
    assert(hex_upper(t13) =~= h.take(9));
    let t14 = t13.push(h[9]);
    lemma_hex_upper_push(t13, h[9]);
    assert(is_hex(h[9]) && upper(h[9]) == h[9]);
    assert(hex_upper(t14) =~= h.take(10));
    let t15 = t14.push(':');
    lemma_hex_upper_push(t14, ':');
    assert(hex_upper(t15) =~= h.take(10));
    let t16 = t15.push(h[10]);
    lemma_hex_upper_push(t15, h[10]);
    assert(is_hex(h[10]) && upper(h[10]) == h[10]);
    assert(hex_upper(t16) =~= h.take(11));
    let t17 = t16.push(h[11]);
    lemma_hex_upper_push(t16, h[11]);
    assert(is_hex(h[11]) && upper(h[11]) == h[11]);
    assert(hex_upper(t17) =~= h.take(12));
    assert(t17 =~= cp);
    assert(h.take(12) =~= h);
}

/// A normalized MAC address normalizes to itself.
pub proof fn lemma_mac_norm_idempotent(s: Seq<char>)
    requires
        mac_norm(s) is Some,
    ensures
        hex_upper(mac_norm(s).unwrap()) == hex_upper(s),
        mac_norm(mac_norm(s).unwrap()) == mac_norm(s),
{
    let h = hex_upper(s);
    lemma_hex_upper_is_hex(s);
    assert forall|i: int| 0 <= i < 12 implies is_hex(#[trigger] h[i]) && upper(h[i]) == h[i] by {}
    lemma_hex_upper_colon_pairs(h);
}

// ---------------------------------------------------------------------------
// Searching
// ---------------------------------------------------------------------------

/// Index of the first element of `s` equal to `x`.
pub open spec fn first_index<A>(s: Seq<A>, x: A) -> Option<int>
    decreases s.len(),
{
    if s.len() == 0 {
        None
    } else {
        match first_index(s.drop_last(), x) {
            Some(i) => Some(i),
            None => if s.last() == x {
                Some(s.len() - 1)
            } else {
                None
            },
        }
    }
}

proof fn lemma_first_index_none<A>(s: Seq<A>, x: A)
    requires
        forall|k: int| 0 <= k < s.len() ==> s[k] != x,
    ensures
        first_index(s, x) is None,
    decreases s.len(),
{
    if s.len() > 0 {
        lemma_first_index_none(s.drop_last(), x);
    }
}

proof fn lemma_first_index_at<A>(s: Seq<A>, x: A, i: int)
    requires
        0 <= i < s.len(),
        s[i] == x,
        forall|k: int| 0 <= k < i ==> s[k] != x,
    ensures
        first_index(s, x) == Some(i),
    decreases s.len(),
{
    if i < s.len() - 1 {
        lemma_first_index_at(s.drop_last(), x, i);
    } else {
        lemma_first_index_none(s.drop_last(), x);
    }
}

/// First position of `c` in `s` (`str::find` with a character).
pub fn find_char(s: &[char], c: char) -> (r: Option<usize>)
    ensures
        r matches Some(i) ==> first_index(s@, c) == Some(i as int) && i < s@.len() && s@[i as int]
            == c,
        r is None ==> first_index(s@, c) is None,
{
    let mut i: usize = 0;
    while i < s.len()
        invariant
            i <= s.len(),
            forall|k: int| 0 <= k < i ==> s@[k] != c,
        decreases s.len() - i,
    {
        if s[i] == c {
            proof {
                lemma_first_index_at(s@, c, i as int);
            }
            return Some(i);
        }
        i = i + 1;
    }
    proof {
        lemma_first_index_none(s@, c);
    }
    None
}

fn find_word(ws: &Vec<Vec<char>>, w: &[char]) -> (r: Option<usize>)
    ensures
        r matches Some(i) ==> first_index(views_of(ws@), w@) == Some(i as int) && i < ws@.len(),
        r is None ==> first_index(views_of(ws@), w@) is None,
{
    let ghost vs = views_of(ws@);
    let mut i: usize = 0;
    while i < ws.len()
        invariant
            i <= ws@.len(),
            vs == views_of(ws@),
            forall|k: int| 0 <= k < i ==> vs[k] != w@,
        decreases ws.len() - i,
    {
        if chars_eq(ws[i].as_slice(), w) {
            proof {
                lemma_first_index_at(vs, w@, i as int);
            }
            return Some(i);
        }
        i = i + 1;
    }
    proof {
        lemma_first_index_none(vs, w@);
    }
    None
}

// ---------------------------------------------------------------------------
// Table rows
// ---------------------------------------------------------------------------

/// The map built by inserting each present entry in order.
pub open spec fn fold_entries(es: Seq<Option<(Seq<char>, Seq<char>)>>) -> Map<Seq<char>, Seq<char>>
    decreases es.len(),
{
    if es.len() == 0 {
        Map::empty()
    } else {
        match es.last() {
            Some(e) => fold_entries(es.drop_last()).insert(e.0, e.1),
            None => fold_entries(es.drop_last()),
        }
    }
}

/// Lines after the first (`lines().skip(1)`).
pub open spec fn after_header(ls: Seq<Seq<char>>) -> Seq<Seq<char>> {
    if ls.len() == 0 {
        ls
    } else {
        ls.drop_first()
    }
}

/// A `/proc/net/arp` row: address in column 1, hardware address in column 4.
pub open spec fn proc_arp_row(l: Seq<char>) -> Option<(Seq<char>, Seq<char>)> {
    let c = words(l);
    if c.len() >= 4 && mac_norm(c[3]) is Some {
        Some((c[0], mac_norm(c[3]).unwrap()))
    } else {
        None
    }
}

pub open spec fn lladdr() -> Seq<char> {
    seq!['l', 'l', 'a', 'd', 'd', 'r']
}

/// An `ip neigh show` row: at least five columns, an IPv4 address first,
/// and the MAC right after the first `lladdr` column.
pub open spec fn ip_neigh_row(l: Seq<char>) -> Option<(Seq<char>, Seq<char>)> {
    let c = words(l);
    if c.len() >= 5 && parse_ipv4(c[0]) is Some && first_index(c, lladdr()) is Some {
        let i = first_index(c, lladdr()).unwrap();
        if i + 1 < c.len() && mac_norm(c[i + 1]) is Some {
            Some((c[0], mac_norm(c[i + 1]).unwrap()))
        } else {
            None
        }
    } else {
        None
    }
}

/// The text between the first `(` and the next `)`, when it is an IPv4 address.
pub open spec fn ip_in_parens(l: Seq<char>) -> Option<Seq<char>> {
    match first_index(l, '(') {
        Some(i) => {
            let rest = l.skip(i + 1);
            match first_index(rest, ')') {
                Some(j) => {
                    let ip = rest.take(j);
                    if parse_ipv4(ip) is Some {
                        Some(ip)
                    } else {
                        None
                    }
                },
                None => None,
            }
        },
        None => None,
    }
}

/// The first whitespace-separated token that is a MAC address, normalized.
pub open spec fn first_mac(ws: Seq<Seq<char>>) -> Option<Seq<char>>
    decreases ws.len(),
{
    if ws.len() == 0 {
        None
    } else {
        match first_mac(ws.drop_last()) {
            Some(m) => Some(m),
            None => mac_norm(ws.last()),
        }
    }
}

/// The words after the first word `at` (none when there is no such word).
pub open spec fn after_at(ws: Seq<Seq<char>>) -> Seq<Seq<char>> {
    match first_index(ws, seq!['a', 't']) {
        Some(k) => ws.skip(k + 1),
        None => Seq::empty(),
    }
}

/// The MAC address a BSD `arp -an` line gives: the first word after `at`
/// that is a MAC address, normalized. The parenthesized IP address before
/// `at` is never read as one.
pub open spec fn line_mac(l: Seq<char>) -> Option<Seq<char>> {
    first_mac(after_at(words(l)))
}

/// A BSD `arp -an` row: `? (IP) at MAC ...`.
pub open spec fn bsd_arp_row(l: Seq<char>) -> Option<(Seq<char>, Seq<char>)> {
    match ip_in_parens(l) {
        Some(ip) => match line_mac(l) {
            Some(m) => Some((ip, m)),
            None => None,
        },
        None => None,
    }
}

/// A Windows `arp -a` row: IPv4 address, then the physical address.
pub open spec fn windows_arp_row(l: Seq<char>) -> Option<(Seq<char>, Seq<char>)> {
    let c = words(l);
    if c.len() >= 2 && parse_ipv4(c[0]) is Some && mac_norm(c[1]) is Some {
        Some((c[0], mac_norm(c[1]).unwrap()))
    } else {
        None
    }
}

pub open spec fn proc_arp_table(t: Seq<char>) -> Map<Seq<char>, Seq<char>> {
    fold_entries(after_header(lines(t)).map_values(|l: Seq<char>| proc_arp_row(l)))
}

pub open spec fn ip_neigh_table(t: Seq<char>) -> Map<Seq<char>, Seq<char>> {
    fold_entries(lines(t).map_values(|l: Seq<char>| ip_neigh_row(l)))
}

pub open spec fn bsd_arp_table(t: Seq<char>) -> Map<Seq<char>, Seq<char>> {
    fold_entries(lines(t).map_values(|l: Seq<char>| bsd_arp_row(l)))
}

pub open spec fn windows_arp_table(t: Seq<char>) -> Map<Seq<char>, Seq<char>> {
    fold_entries(lines(t).map_values(|l: Seq<char>| windows_arp_row(l)))
}

/// Which neighbor-table format a text is in.
#[derive(Clone, Copy, Debug, PartialEq, Eq, Structural)]
pub enum ArpFormat {
    ProcNetArp,
    IpNeigh,
    Bsd,
    Windows,
}

pub open spec fn row_of(f: ArpFormat, l: Seq<char>) -> Option<(Seq<char>, Seq<char>)> {
    match f {
        ArpFormat::ProcNetArp => proc_arp_row(l),
        ArpFormat::IpNeigh => ip_neigh_row(l),
        ArpFormat::Bsd => bsd_arp_row(l),
        ArpFormat::Windows => windows_arp_row(l),
    }
}

fn proc_arp_row_exec(l: &[char]) -> (r: Option<(String, String)>)
    ensures
        r is Some <==> proc_arp_row(l@) is Some,
        r matches Some(e) ==> proc_arp_row(l@) == Some((e.0@, e.1@)),
{
    let c = words_of(l);
    if c.len() < 4 {
        return None;
    }
    assert(views_of(c@)[3] == c@[3]@);
    match normalize_mac_chars(c[3].as_slice()) {
        Some(m) => {
            assert(views_of(c@)[0] == c@[0]@);
            Some((string_of(c[0].as_slice()), string_of(m.as_slice())))
        },
        None => None,
    }
}

fn ip_neigh_row_exec(l: &[char]) -> (r: Option<(String, String)>)
    ensures
        r is Some <==> ip_neigh_row(l@) is Some,
        r matches Some(e) ==> ip_neigh_row(l@) == Some((e.0@, e.1@)),
{
    let c = words_of(l);
    if c.len() < 5 {
        return None;
    }
    assert(views_of(c@)[0] == c@[0]@);
    if parse_ipv4_chars(c[0].as_slice()).is_none() {
        return None;
    }
    let kw: [char; 6] = ['l', 'l', 'a', 'd', 'd', 'r'];
    let kw_s: &[char] = &kw;
    assert(kw_s@ =~= lladdr());
    match find_word(&c, kw_s) {
        Some(i) => {
            if i + 1 >= c.len() {
                return None;
            }
            assert(views_of(c@)[i + 1] == c@[i + 1]@);
            match normalize_mac_chars(c[i + 1].as_slice()) {
                Some(m) => Some((string_of(c[0].as_slice()), string_of(m.as_slice()))),
                None => None,
            }
        },
        None => None,
    }
}

/// The IPv4 text inside the first parentheses of a line.
fn ip_in_parens_exec(l: &[char]) -> (r: Option<Vec<char>>)
    ensures
        r is Some <==> ip_in_parens(l@) is Some,
        r matches Some(v) ==> ip_in_parens(l@) == Some(v@),
{
    match find_char(l, '(') {
        Some(i) => {
            proof {
                lemma_first_index_bound(l@, '(');
            }
            let n = l.len();
            assert(i < n);
            let rest = &l[i + 1..n];
            assert(rest@ =~= l@.skip(i + 1));
            match find_char(rest, ')') {
                Some(j) => {
                    proof {
                        lemma_first_index_bound(rest@, ')');
                    }
                    let ip = &rest[0..j];
                    assert(ip@ =~= rest@.take(j as int));
                    if parse_ipv4_chars(ip).is_some() {
                        let mut v: Vec<char> = Vec::new();
                        crate::text::extend_chars(&mut v, ip);
                        assert(v@ =~= ip@);
                        Some(v)
                    } else {
                        None
                    }
                },
                None => None,
            }
        },
        None => None,
    }
}

proof fn lemma_first_index_bound<A>(s: Seq<A>, x: A)
    ensures
        first_index(s, x) matches Some(i) ==> 0 <= i < s.len() && s[i] == x,
    decreases s.len(),
{
    if s.len() > 0 {
        lemma_first_index_bound(s.drop_last(), x);
    }
}

fn first_mac_exec(ws: &[Vec<char>]) -> (r: Option<Vec<char>>)
    ensures
        r is Some <==> first_mac(views_of(ws@)) is Some,
        r matches Some(v) ==> first_mac(views_of(ws@)) == Some(v@),
{
    let ghost vs = views_of(ws@);
    let mut i: usize = 0;
    while i < ws.len()
        invariant
            i <= ws@.len(),
            vs == views_of(ws@),
            first_mac(vs.take(i as int)) is None,
        decreases ws.len() - i,
    {
        assert(vs.take(i + 1).drop_last() =~= vs.take(i as int));
        match normalize_mac_chars(ws[i].as_slice()) {
            Some(m) => {
                proof {
                    lemma_first_mac_prefix(vs, i + 1);
                }
                return Some(m);
            },
            None => {},
        }
        i = i + 1;
    }
    assert(vs.take(ws.len() as int) =~= vs);
    None
}

proof fn lemma_first_mac_prefix(s: Seq<Seq<char>>, n: int)
    requires
        0 <= n <= s.len(),
        first_mac(s.take(n)) is Some,
    ensures
        first_mac(s) == first_mac(s.take(n)),
    decreases s.len(),
{
    if n < s.len() {
        assert(s.drop_last().take(n) =~= s.take(n));
        lemma_first_mac_prefix(s.drop_last(), n);
    } else {
        assert(s.take(n) =~= s);
    }
}

fn line_mac_exec(l: &[char]) -> (r: Option<Vec<char>>)
    ensures
        r is Some <==> line_mac(l@) is Some,
        r matches Some(v) ==> line_mac(l@) == Some(v@),
{
    let ws = words_of(l);
    let ghost vs = views_of(ws@);
    let at: [char; 2] = ['a', 't'];
    let at_s: &[char] = &at;
    assert(at_s@ =~= seq!['a', 't']);
    let mut i: usize = 0;
    while i < ws.len()
        invariant
            i <= ws@.len(),
            vs == views_of(ws@),
            vs == words(l@),
            at_s@ == seq!['a', 't'],
            forall|k: int| 0 <= k < i ==> vs[k] != seq!['a', 't'],
        decreases ws.len() - i,
    {
        assert(vs[i as int] == ws@[i as int]@);
        if chars_eq(ws[i].as_slice(), at_s) {
            proof {
                lemma_first_index_at(vs, seq!['a', 't'], i as int);
                assert(after_at(vs) == vs.skip(i + 1));
            }
            let n = ws.len();
            let rest = &ws[i + 1..n];
            assert(views_of(rest@) =~= vs.skip(i + 1));
            return first_mac_exec(rest);
        }
        i = i + 1;
    }
    proof {
        lemma_first_index_none(vs, seq!['a', 't']);
        assert(after_at(vs) =~= Seq::<Seq<char>>::empty());
        assert(first_mac(Seq::<Seq<char>>::empty()) is None);
    }
    None
}

fn bsd_arp_row_exec(l: &[char]) -> (r: Option<(String, String)>)
    ensures
        r is Some <==> bsd_arp_row(l@) is Some,
        r matches Some(e) ==> bsd_arp_row(l@) == Some((e.0@, e.1@)),
{
    let ip = match ip_in_parens_exec(l) {
        Some(ip) => ip,
        None => return None,
    };
    match line_mac_exec(l) {
        Some(m) => Some((string_of(ip.as_slice()), string_of(m.as_slice()))),
        None => None,
    }
}

fn windows_arp_row_exec(l: &[char]) -> (r: Option<(String, String)>)
    ensures
        r is Some <==> windows_arp_row(l@) is Some,
        r matches Some(e) ==> windows_arp_row(l@) == Some((e.0@, e.1@)),
{
    let c = words_of(l);
    if c.len() < 2 {
        return None;
    }
    assert(views_of(c@)[0] == c@[0]@);
    assert(views_of(c@)[1] == c@[1]@);
    if parse_ipv4_chars(c[0].as_slice()).is_none() {
        return None;
    }
    match normalize_mac_chars(c[1].as_slice()) {
        Some(m) => Some((string_of(c[0].as_slice()), string_of(m.as_slice()))),
        None => None,
    }
}

fn row_exec(f: ArpFormat, l: &[char]) -> (r: Option<(String, String)>)
    ensures
        r is Some <==> row_of(f, l@) is Some,
        r matches Some(e) ==> row_of(f, l@) == Some((e.0@, e.1@)),
{
    match f {
        ArpFormat::ProcNetArp => proc_arp_row_exec(l),
        ArpFormat::IpNeigh => ip_neigh_row_exec(l),
        ArpFormat::Bsd => bsd_arp_row_exec(l),
        ArpFormat::Windows => windows_arp_row_exec(l),
    }
}

/// Folds the rows of `ls[from..]` into a table.
fn fold_rows(f: ArpFormat, ls: &Vec<Vec<char>>, from: usize) -> (m: TextMap)
    requires
        from <= ls@.len(),
    ensures
        m@ == fold_entries(views_of(ls@).skip(from as int).map_values(|l: Seq<char>| row_of(f, l))),
{
    let ghost vs = views_of(ls@).skip(from as int);
    let mut m = TextMap::new();
    let mut i: usize = from;
    while i < ls.len()
        invariant
            from <= i <= ls@.len(),
            vs == views_of(ls@).skip(from as int),
            m@ == fold_entries(vs.take(i - from).map_values(|l: Seq<char>| row_of(f, l))),
        decreases ls.len() - i,
    {
        let ghost before = vs.take(i - from).map_values(|l: Seq<char>| row_of(f, l));
        let r = row_exec(f, ls[i].as_slice());
        proof {
            assert(vs[i - from] == ls@[i as int]@);
            assert(vs.take(i - from + 1).map_values(|l: Seq<char>| row_of(f, l)) =~= before.push(
                row_of(f, ls@[i as int]@),
            ));
            assert(before.push(row_of(f, ls@[i as int]@)).drop_last() =~= before);
        }
        match r {
            Some(e) => {
                m.insert(e.0, e.1);
            },
            None => {},
        }
        i = i + 1;
    }
    assert(vs.take(ls.len() - from) =~= vs);
    m
}

/// The table a text of format `f` holds.
pub open spec fn arp_table(f: ArpFormat, text: Seq<char>) -> Map<Seq<char>, Seq<char>> {
    match f {
        ArpFormat::ProcNetArp => proc_arp_table(text),
        ArpFormat::IpNeigh => ip_neigh_table(text),
        ArpFormat::Bsd => bsd_arp_table(text),
        ArpFormat::Windows => windows_arp_table(text),
    }
}

/// Parses a neighbor table of the given format.
pub fn parse_table(f: ArpFormat, text: &str) -> (m: TextMap)
    ensures
        m@ == arp_table(f, text@),
{
    let c = chars_of(text);
    let ls = lines_of(c.as_slice());
    let from: usize = if f == ArpFormat::ProcNetArp && ls.len() > 0 {
        1
    } else {
        0
    };
    let m = fold_rows(f, &ls, from);
    proof {
        let vs = views_of(ls@);
        if from == 1 {
            assert(vs.skip(1) =~= after_header(lines(text@)));
        } else {
            assert(vs.skip(0) =~= vs);
            if f == ArpFormat::ProcNetArp {
                assert(vs.len() == 0);
                assert(after_header(lines(text@)) =~= vs);
            }
        }
        let g = |l: Seq<char>| row_of(f, l);
        assert(vs.skip(from as int).map_values(g) =~= match f {
            ArpFormat::ProcNetArp => after_header(lines(text@)).map_values(
                |l: Seq<char>| proc_arp_row(l),
            ),
            ArpFormat::IpNeigh => lines(text@).map_values(|l: Seq<char>| ip_neigh_row(l)),
            ArpFormat::Bsd => lines(text@).map_values(|l: Seq<char>| bsd_arp_row(l)),
            ArpFormat::Windows => lines(text@).map_values(|l: Seq<char>| windows_arp_row(l)),
        });
    }
    m
}

pub open spec fn source_views(s: Seq<(ArpFormat, Option<String>)>) -> Seq<
    (ArpFormat, Option<Seq<char>>),
> {
    s.map_values(
        |p: (ArpFormat, Option<String>)|
            (
                p.0,
                match p.1 {
                    Some(t) => Some(t@),
                    None => None,
                },
            ),
    )
}

/// The table of the first source that could be read (`Some` output), or the
/// empty table when none could.
pub open spec fn neighbors_from(sources: Seq<(ArpFormat, Option<Seq<char>>)>) -> Map<
    Seq<char>,
    Seq<char>,
>
    decreases sources.len(),
{
    if sources.len() == 0 {
        Map::empty()
    } else {
        match sources[0].1 {
            Some(t) => arp_table(sources[0].0, t),
            None => neighbors_from(sources.drop_first()),
        }
    }
}

/// The OS neighbor table: keys are IPv4 strings, values are normalized MAC
/// strings. `sources` are the platform's readers in order of preference,
/// each with what it read (`None` when it could not be read); the first one
/// that was read decides.
pub fn read_neighbors(sources: &[(ArpFormat, Option<String>)]) -> (m: TextMap)
    ensures
        m@ == neighbors_from(source_views(sources@)),
{
    let ghost sv = source_views(sources@);
    assert(sv.skip(0) =~= sv);
    let mut i: usize = 0;
    while i < sources.len()
        invariant
            i <= sources@.len(),
            sv == source_views(sources@),
            neighbors_from(sv) == neighbors_from(sv.skip(i as int)),
        decreases sources.len() - i,
    {
        assert(sv.skip(i as int)[0] == sv[i as int]);
        match &sources[i].1 {
            Some(t) => {
                return parse_table(sources[i].0, t.as_str());
            },
            None => {},
        }
        assert(sv.skip(i as int).drop_first() =~= sv.skip(i + 1));
        i = i + 1;
    }
    TextMap::new()
}

/// Parse `/proc/net/arp` text into IP → MAC.
pub fn parse_proc_arp(content: &str) -> (m: TextMap)
    ensures
        m@ == proc_arp_table(content@),
{
    parse_table(ArpFormat::ProcNetArp, content)
}

/// Parse `ip neigh show` text into IP → MAC.
pub fn parse_ip_neigh(text: &str) -> (m: TextMap)
    ensures
        m@ == ip_neigh_table(text@),
{
    parse_table(ArpFormat::IpNeigh, text)
}

/// Parse BSD-style `arp -an` output into IP → MAC.
pub fn parse_bsd_arp(text: &str) -> (m: TextMap)
    ensures
        m@ == bsd_arp_table(text@),
{
    parse_table(ArpFormat::Bsd, text)
}

/// Parse Windows `arp -a` text into IP → MAC.
pub fn parse_windows_arp(text: &str) -> (m: TextMap)
    ensures
        m@ == windows_arp_table(text@),
{
    parse_table(ArpFormat::Windows, text)
}

/// The IPv4 text inside the first parentheses of `line`.
pub fn extract_ip_in_parens(line: &str) -> (r: Option<String>)
    ensures
        r is Some <==> ip_in_parens(line@) is Some,
        r matches Some(v) ==> ip_in_parens(line@) == Some(v@),
{
    let c = chars_of(line);
    match ip_in_parens_exec(c.as_slice()) {
        Some(v) => Some(string_of(v.as_slice())),
        None => None,
    }
}

/// The MAC address of a BSD `arp -an` line: the first word after `at` that
/// is a MAC address, normalized.
pub fn extract_mac(line: &str) -> (r: Option<String>)
    ensures
        r is Some <==> line_mac(line@) is Some,
        r matches Some(v) ==> line_mac(line@) == Some(v@),
{
    let c = chars_of(line);
    match line_mac_exec(c.as_slice()) {
        Some(v) => Some(string_of(v.as_slice())),
        None => None,
    }
}

} // verus!
