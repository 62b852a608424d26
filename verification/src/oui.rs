//! Vendor lookup from a MAC address through the IEEE OUI table: the table
//! text has one `AA:BB:CC<TAB>Vendor` assignment per line.

use vstd::prelude::*;
use std::collections::HashMap;
use crate::text::{chars_of, is_hex, lines, lines_of, string_of, views_of};
use crate::neighbors::{
    find_char, first_index, hex_digits_upper, hex_upper, hex_val, lemma_mac_norm_idempotent, mac_norm,
};

verus! {

broadcast use vstd::std_specs::hash::group_hash_axioms;

/// The 24-bit prefix written by three hex digit pairs.
pub open spec fn pairs_value(h: Seq<char>) -> nat {
    ((hex_val(h[0]) * 16 + hex_val(h[1])) * 16 + hex_val(h[2])) * 16 * 16 * 16 + ((hex_val(h[3])
        * 16 + hex_val(h[4])) * 16 + hex_val(h[5]))
}

/// The assignment prefix of a table key `HH:HH:HH` (hex digits in either
/// case).
pub open spec fn oui_key(t: Seq<char>) -> Option<nat> {
    if t.len() == 8 && is_hex(t[0]) && is_hex(t[1]) && t[2] == ':' && is_hex(t[3]) && is_hex(t[4])
        && t[5] == ':' && is_hex(t[6]) && is_hex(t[7]) {
        Some(pairs_value(seq![t[0], t[1], t[3], t[4], t[6], t[7]]))
    } else {
        None
    }
}

/// The assignment a table line makes: a non-empty line with a tab, the key
/// before the first tab and the vendor after it.
pub open spec fn oui_line(l: Seq<char>) -> Option<(nat, Seq<char>)> {
    if l.len() == 0 {
        None
    } else {
        match first_index(l, '\t') {
            Some(t) => match oui_key(l.take(t)) {
                Some(k) => Some((k, l.skip(t + 1))),
                None => None,
            },
            None => None,
        }
    }
}

/// The table a text denotes; a later line for the same prefix wins.
pub open spec fn oui_fold(ls: Seq<Seq<char>>) -> Map<nat, Seq<char>>
    decreases ls.len(),
{
    if ls.len() == 0 {
        Map::empty()
    } else {
        match oui_line(ls.last()) {
            Some(e) => oui_fold(ls.drop_last()).insert(e.0, e.1),
            None => oui_fold(ls.drop_last()),
        }
    }
}

pub open spec fn oui_table(text: Seq<char>) -> Map<nat, Seq<char>> {
    oui_fold(lines(text))
}

/// The prefix a MAC address in any notation belongs to: its first six hex
/// digits, when it has at least six.
pub open spec fn mac_prefix(mac: Seq<char>) -> Option<nat> {
    let h = hex_upper(mac);
    if h.len() >= 6 {
        Some(pairs_value(h))
    } else {
        None
    }
}

/// A MAC address and its normalized form belong to the same prefix, so
/// they have the same vendor.
pub proof fn lemma_vendor_of_normalized(mac: Seq<char>)
    requires
        mac_norm(mac) is Some,
    ensures
        mac_prefix(mac_norm(mac).unwrap()) == mac_prefix(mac),
{
    lemma_mac_norm_idempotent(mac);
}

/// An OUI table: assignment prefix to vendor name.
pub struct OuiTable {
    map: HashMap<u32, String>,
}

impl View for OuiTable {
    type V = Map<nat, Seq<char>>;

    closed spec fn view(&self) -> Map<nat, Seq<char>> {
        Map::new(
            |k: nat| k < 0x1000000 && self.map@.contains_key(k as u32),
            |k: nat| self.map@[k as u32]@,
        )
    }
}

fn hex_value(c: char) -> (v: u32)
    requires
        is_hex(c),
    ensures
        v == hex_val(c),
        v < 16,
{
    if '0' <= c && c <= '9' {
        (c as u32) - 48
    } else if 'A' <= c && c <= 'F' {
        (c as u32) - 55
    } else {
        (c as u32) - 87
    }
}

fn key_exec(t: &[char]) -> (r: Option<u32>)
    ensures
        r is Some <==> oui_key(t@) is Some,
        r matches Some(k) ==> oui_key(t@) == Some(k as nat) && k < 0x1000000,
{
    if t.len() != 8 {
        return None;
    }
    if !(crate::text::is_hex_char(t[0]) && crate::text::is_hex_char(t[1]) && t[2] == ':'
        && crate::text::is_hex_char(t[3]) && crate::text::is_hex_char(t[4]) && t[5] == ':'
        && crate::text::is_hex_char(t[6]) && crate::text::is_hex_char(t[7])) {
        return None;
    }
    let a = (hex_value(t[0]) * 16 + hex_value(t[1])) * 16 + hex_value(t[3]);
    let b = (hex_value(t[4]) * 16 + hex_value(t[6])) * 16 + hex_value(t[7]);
    assert(seq![t@[0], t@[1], t@[3], t@[4], t@[6], t@[7]][0] == t@[0]);
    Some(a * 4096 + b)
}

fn line_exec(l: &[char]) -> (r: Option<(u32, String)>)
    ensures
        r is Some <==> oui_line(l@) is Some,
        r matches Some(e) ==> oui_line(l@) == Some((e.0 as nat, e.1@)) && e.0 < 0x1000000,
{
    if l.len() == 0 {
        return None;
    }
    match find_char(l, '\t') {
        Some(t) => {
            let head = &l[0..t];
            assert(head@ =~= l@.take(t as int));
            match key_exec(head) {
                Some(k) => {
                    let n = l.len();
                    let rest = &l[t + 1..n];
                    assert(rest@ =~= l@.skip(t + 1));
                    Some((k, string_of(rest)))
                },
                None => None,
            }
        },
        None => None,
    }
}

impl OuiTable {
    /// Builds the table from its text.
    pub fn load(raw: &str) -> (t: OuiTable)
        ensures
            t@ == oui_table(raw@),
    {
        let c = chars_of(raw);
        let ls = lines_of(c.as_slice());
        let ghost vs = views_of(ls@);
        let mut map: HashMap<u32, String> = HashMap::new();
        for i in 0..ls.len()
            invariant
                vs == views_of(ls@),
                vs == lines(raw@),
                forall|k: u32| map@.contains_key(k) ==> k < 0x1000000,
                (OuiTable { map })@ == oui_fold(vs.take(i as int)),
        {
            let ghost before = map@;
            assert(vs.take(i + 1).drop_last() =~= vs.take(i as int));
            assert(vs[i as int] == ls@[i as int]@);
            match line_exec(ls[i].as_slice()) {
                Some(e) => {
                    let ghost ev = e.1@;
                    map.insert(e.0, e.1);
                    assert((OuiTable { map })@ =~= oui_fold(vs.take(i + 1)));
                },
                None => {
                    assert((OuiTable { map })@ =~= oui_fold(vs.take(i + 1)));
                },
            }
        }
        assert(vs.take(ls.len() as int) =~= vs);
        OuiTable { map }
    }

    /// Look up a vendor from a MAC address (any common delimiter).
    pub fn lookup(&self, mac: &str) -> (r: Option<String>)
        ensures
            r is Some <==> (mac_prefix(mac@) matches Some(k) && self@.contains_key(k)),
            r matches Some(v) ==> self@[mac_prefix(mac@).unwrap()] == v@,
    {
        let c = chars_of(mac);
        let h = hex_digits_upper(c.as_slice());
        if h.len() < 6 {
            return None;
        }
        proof {
            crate::neighbors::lemma_hex_upper_is_hex(c@);
        }
        let a = (hex_value(h[0]) * 16 + hex_value(h[1])) * 16 + hex_value(h[2]);
        let b = (hex_value(h[3]) * 16 + hex_value(h[4])) * 16 + hex_value(h[5]);
        let key: u32 = a * 4096 + b;
        match self.map.get(&key) {
            Some(v) => Some(v.clone()),
            None => None,
        }
    }
}

/// Look up a vendor from a MAC address (any common delimiter) in an OUI
/// table.
pub fn lookup_vendor(table: &OuiTable, mac: &str) -> (r: Option<String>)
    ensures
        r is Some <==> (mac_prefix(mac@) matches Some(k) && table@.contains_key(k)),
        r matches Some(v) ==> table@[mac_prefix(mac@).unwrap()] == v@,
{
    table.lookup(mac)
}

} // verus!
