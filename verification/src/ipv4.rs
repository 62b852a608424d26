//! IPv4 addresses as `u32` values (most significant octet first), their
//! dotted-quad text, and IPv4 networks given by an address and a prefix.

use vstd::prelude::*;
use vstd::arithmetic::power2::*;
use vstd::arithmetic::div_mod::*;
use crate::text::{
    all_digits, chars_of, dec_string, dec_value, is_digit, lemma_dec_string, lemma_split_on_extend,
    lemma_split_on_sep, parse_uint, parse_uint_chars, push_decimal, split_chars, split_on,
    string_of,
};

verus! {

// ---------------------------------------------------------------------------
// Octets and text
// ---------------------------------------------------------------------------

/// The address with octets `a.b.c.d`.
pub open spec fn from_octets(a: nat, b: nat, c: nat, d: nat) -> nat {
    a * 16777216 + b * 65536 + c * 256 + d
}

pub open spec fn octet0(x: u32) -> nat {
    x as nat / 16777216
}

pub open spec fn octet1(x: u32) -> nat {
    (x as nat / 65536) % 256
}

pub open spec fn octet2(x: u32) -> nat {
    (x as nat / 256) % 256
}

pub open spec fn octet3(x: u32) -> nat {
    x as nat % 256
}

proof fn lemma_octets_from(a: nat, b: nat, c: nat, d: nat)
    requires
        a < 256,
        b < 256,
        c < 256,
        d < 256,
    ensures
        from_octets(a, b, c, d) < 0x1_0000_0000,
        from_octets(a, b, c, d) / 16777216 == a,
        (from_octets(a, b, c, d) / 65536) % 256 == b,
        (from_octets(a, b, c, d) / 256) % 256 == c,
        from_octets(a, b, c, d) % 256 == d,
{
    let n = from_octets(a, b, c, d) as int;
    lemma_fundamental_div_mod_converse(n, 16777216, a as int, (b * 65536 + c * 256 + d) as int);
    lemma_fundamental_div_mod_converse(n, 65536, (a * 256 + b) as int, (c * 256 + d) as int);
    lemma_fundamental_div_mod_converse(
        (a * 256 + b) as int,
        256,
        a as int,
        b as int,
    );
    lemma_fundamental_div_mod_converse(n, 256, (a * 65536 + b * 256 + c) as int, d as int);
    lemma_fundamental_div_mod_converse(
        (a * 65536 + b * 256 + c) as int,
        256,
        (a * 256 + b) as int,
        c as int,
    );
}

/// `Ipv4Addr::new(a, b, c, d)` as a `u32`.
pub fn ipv4_from_octets(a: u8, b: u8, c: u8, d: u8) -> (r: u32)
    ensures
        r as nat == from_octets(a as nat, b as nat, c as nat, d as nat),
        octet0(r) == a,
        octet1(r) == b,
        octet2(r) == c,
        octet3(r) == d,
{
    proof {
        lemma_octets_from(a as nat, b as nat, c as nat, d as nat);
    }
    (a as u32) * 16777216 + (b as u32) * 65536 + (c as u32) * 256 + (d as u32)
}

/// The four octets of `x`, most significant first.
pub fn ipv4_octets(x: u32) -> (r: [u8; 4])
    ensures
        r[0] == octet0(x),
        r[1] == octet1(x),
        r[2] == octet2(x),
        r[3] == octet3(x),
{
    [(x / 16777216) as u8, ((x / 65536) % 256) as u8, ((x / 256) % 256) as u8, (x % 256) as u8]
}

pub open spec fn dot() -> Seq<char> {
    seq!['.']
}

/// The dotted-quad text of `x` (what `Ipv4Addr`'s `Display` writes).
pub open spec fn ipv4_text(x: u32) -> Seq<char> {
    dec_string(octet0(x)) + dot() + dec_string(octet1(x)) + dot() + dec_string(octet2(x)) + dot()
        + dec_string(octet3(x))
}

/// One dotted-quad group as `Ipv4Addr::from_str` accepts it: one to three
/// ASCII digits, no leading zero unless the group is `0`, value at most 255.
pub open spec fn octet_text_ok(g: Seq<char>) -> bool {
    &&& 1 <= g.len() <= 3
    &&& all_digits(g)
    &&& !(g.len() > 1 && g[0] == '0')
    &&& dec_value(g) <= 255
}

/// `Ipv4Addr::from_str`: exactly four valid groups separated by `.`.
pub open spec fn parse_ipv4(s: Seq<char>) -> Option<u32> {
    let g = split_on(s, dot());
    if g.len() == 4 && octet_text_ok(g[0]) && octet_text_ok(g[1]) && octet_text_ok(g[2])
        && octet_text_ok(g[3]) {
        Some(
            from_octets(dec_value(g[0]), dec_value(g[1]), dec_value(g[2]), dec_value(g[3])) as u32,
        )
    } else {
        None
    }
}

/// The four octets of an address rebuild it.
pub(crate) proof fn lemma_octets_of(x: u32)
    ensures
        octet0(x) < 256,
        octet1(x) < 256,
        octet2(x) < 256,
        octet3(x) < 256,
        from_octets(octet0(x), octet1(x), octet2(x), octet3(x)) == x,
{
    let n = x as nat;
    assert(n < 0x1_0000_0000);
    assert(n / 16777216 < 256) by (nonlinear_arith)
        requires
            n < 0x1_0000_0000,
    ;
    assert(from_octets(n / 16777216, (n / 65536) % 256, (n / 256) % 256, n % 256) == n)
        by (nonlinear_arith)
        requires
            n < 0x1_0000_0000,
    {
        assert(n == (n / 256) * 256 + n % 256);
        assert(n / 256 == ((n / 256) / 256) * 256 + (n / 256) % 256);
        assert((n / 256) / 256 == n / 65536);
        assert(n / 65536 == ((n / 65536) / 256) * 256 + (n / 65536) % 256);
        assert((n / 65536) / 256 == n / 16777216);
    }
}

proof fn lemma_no_dot(n: nat)
    ensures
        forall|i: int| 0 <= i < dec_string(n).len() ==> !dot().contains(#[trigger] dec_string(n)[i]),
{
    lemma_dec_string(n);
    assert forall|i: int| 0 <= i < dec_string(n).len() implies !dot().contains(
        #[trigger] dec_string(n)[i],
    ) by {
        assert(is_digit(dec_string(n)[i]));
        if dot().contains(dec_string(n)[i]) {
            let k = choose|k: int| 0 <= k < dot().len() && dot()[k] == dec_string(n)[i];
            assert(dot()[k] == '.');
        }
    }
}

proof fn lemma_octet_text(n: nat)
    requires
        n < 256,
    ensures
        octet_text_ok(dec_string(n)),
        dec_value(dec_string(n)) == n,
{
    lemma_dec_string(n);
}

/// The dotted-quad text of an address reads back as that address.
pub proof fn lemma_ipv4_text_roundtrip(x: u32)
    ensures
        parse_ipv4(ipv4_text(x)) == Some(x),
{
    lemma_octets_of(x);
    let d0 = dec_string(octet0(x));
    let d1 = dec_string(octet1(x));
    let d2 = dec_string(octet2(x));
    let d3 = dec_string(octet3(x));
    lemma_no_dot(octet0(x));
    lemma_no_dot(octet1(x));
    lemma_no_dot(octet2(x));
    lemma_no_dot(octet3(x));
    lemma_octet_text(octet0(x));
    lemma_octet_text(octet1(x));
    lemma_octet_text(octet2(x));
    lemma_octet_text(octet3(x));
    assert(dot().contains('.')) by {
        assert(dot()[0] == '.');
    }
    let e = Seq::<char>::empty();
    assert(split_on(e, dot()) =~= seq![e]);
    lemma_split_on_extend(e, d0, dot());
    assert(e + d0 =~= d0);
    let s1 = split_on(d0, dot());
    assert(s1 =~= seq![d0]);
    lemma_split_on_sep(d0, '.', dot());
    assert(d0 + dot() =~= d0.push('.'));
    lemma_split_on_extend(d0 + dot(), d1, dot());
    let s2 = split_on(d0 + dot() + d1, dot());
    assert(s2 =~= seq![d0, d1]);
    lemma_split_on_sep(d0 + dot() + d1, '.', dot());
    assert(d0 + dot() + d1 + dot() =~= (d0 + dot() + d1).push('.'));
    lemma_split_on_extend(d0 + dot() + d1 + dot(), d2, dot());
    let s3 = split_on(d0 + dot() + d1 + dot() + d2, dot());
    assert(s3 =~= seq![d0, d1, d2]);
    lemma_split_on_sep(d0 + dot() + d1 + dot() + d2, '.', dot());
    assert(d0 + dot() + d1 + dot() + d2 + dot() =~= (d0 + dot() + d1 + dot() + d2).push('.'));
    lemma_split_on_extend(d0 + dot() + d1 + dot() + d2 + dot(), d3, dot());
    let s4 = split_on(ipv4_text(x), dot());
    assert(s4 =~= seq![d0, d1, d2, d3]);
}

/// Distinct addresses have distinct dotted-quad texts.
pub proof fn lemma_ipv4_text_injective(x: u32, y: u32)
    requires
        x != y,
    ensures
        ipv4_text(x) != ipv4_text(y),
{
    lemma_ipv4_text_roundtrip(x);
    lemma_ipv4_text_roundtrip(y);
}

fn octet_of(g: &[char]) -> (r: Option<u8>)
    ensures
        r matches Some(v) ==> octet_text_ok(g@) && v as nat == dec_value(g@),
        r is None ==> !octet_text_ok(g@),
{
    if g.len() < 1 || g.len() > 3 {
        return None;
    }
    if g.len() > 1 && g[0] == '0' {
        return None;
    }
    let mut i: usize = 0;
    while i < g.len()
        invariant
            i <= g.len(),
            forall|k: int| 0 <= k < i ==> is_digit(#[trigger] g@[k]),
        decreases g.len() - i,
    {
        if !('0' <= g[i] && g[i] <= '9') {
            assert(!is_digit(g@[i as int]));
            return None;
        }
        i = i + 1;
    }
    assert(all_digits(g@));
    match parse_uint_chars(g, 255) {
        Some(v) => {
            assert(!(g@.len() > 0 && g@[0] == '+'));
            Some(v as u8)
        },
        None => {
            assert(!(g@.len() > 0 && g@[0] == '+'));
            None
        },
    }
}

/// Parses dotted-quad text as `Ipv4Addr::from_str` does.
pub fn parse_ipv4_chars(s: &[char]) -> (r: Option<u32>)
    ensures
        r == parse_ipv4(s@),
{
    let sep = ['.'];
    let sep_s: &[char] = &sep;
    assert(sep_s@ =~= dot());
    let groups = split_chars(s, sep_s);
    if groups.len() != 4 {
        return None;
    }
    assert(groups@[0]@ == split_on(s@, dot())[0]);
    assert(groups@[1]@ == split_on(s@, dot())[1]);
    assert(groups@[2]@ == split_on(s@, dot())[2]);
    assert(groups@[3]@ == split_on(s@, dot())[3]);
    let a = match octet_of(groups[0].as_slice()) {
        Some(v) => v,
        None => return None,
    };
    let b = match octet_of(groups[1].as_slice()) {
        Some(v) => v,
        None => return None,
    };
    let c = match octet_of(groups[2].as_slice()) {
        Some(v) => v,
        None => return None,
    };
    let d = match octet_of(groups[3].as_slice()) {
        Some(v) => v,
        None => return None,
    };
    Some(ipv4_from_octets(a, b, c, d))
}

/// Parses dotted-quad text as `Ipv4Addr::from_str` does.
pub fn parse_ipv4_str(s: &str) -> (r: Option<u32>)
    ensures
        r == parse_ipv4(s@),
{
    let c = chars_of(s);
    parse_ipv4_chars(c.as_slice())
}

/// Appends the dotted-quad text of `x`.
pub fn push_ipv4(out: &mut Vec<char>, x: u32)
    ensures
        final(out)@ == old(out)@ + ipv4_text(x),
{
    let o = ipv4_octets(x);
    push_decimal(out, o[0] as u64);
    out.push('.');
    push_decimal(out, o[1] as u64);
    out.push('.');
    push_decimal(out, o[2] as u64);
    out.push('.');
    push_decimal(out, o[3] as u64);
    assert(final(out)@ =~= old(out)@ + ipv4_text(x));
}

/// The dotted-quad text of `x` (`Ipv4Addr::to_string`).
pub fn ipv4_to_string(x: u32) -> (r: String)
    ensures
        r@ == ipv4_text(x),
{
    let mut v: Vec<char> = Vec::new();
    push_ipv4(&mut v, x);
    assert(v@ =~= ipv4_text(x));
    string_of(v.as_slice())
}

// ---------------------------------------------------------------------------
// Classification
// ---------------------------------------------------------------------------

/// Private-use ranges of RFC 1918: 10/8, 172.16/12, 192.168/16.
pub open spec fn rfc1918(x: u32) -> bool {
    ||| octet0(x) == 10
    ||| (octet0(x) == 172 && 16 <= octet1(x) <= 31)
    ||| (octet0(x) == 192 && octet1(x) == 168)
}

pub fn is_rfc1918(ip: u32) -> (b: bool)
    ensures
        b == rfc1918(ip),
{
    let o = ipv4_octets(ip);
    o[0] == 10 || (o[0] == 172 && 16 <= o[1] && o[1] <= 31) || (o[0] == 192 && o[1] == 168)
}

/// Number of set bits among the lowest `k` bits of `x`.
pub open spec fn ones(x: nat, k: nat) -> nat
    decreases k,
{
    if k == 0 {
        0
    } else {
        x % 2 + ones(x / 2, (k - 1) as nat)
    }
}

/// The prefix length of a netmask: its number of one bits.
pub fn mask_to_prefix(mask: u32) -> (p: u8)
    ensures
        p as nat == ones(mask as nat, 32),
{
    let mut v: u32 = mask;
    let mut n: u8 = 0;
    let mut k: u8 = 0;
    while k < 32
        invariant
            k <= 32,
            n <= k,
            n + ones(v as nat, (32 - k) as nat) == ones(mask as nat, 32),
        decreases 32 - k,
    {
        let bit = v % 2;
        assert(ones(v as nat, (32 - k) as nat) == v % 2 + ones(v as nat / 2, (32 - k - 1) as nat));
        n = n + (bit as u8);
        v = v / 2;
        k = k + 1;
    }
    n
}

// ---------------------------------------------------------------------------
// Networks
// ---------------------------------------------------------------------------

/// Number of addresses that share a prefix of length `p`.
pub open spec fn block(p: nat) -> nat {
    pow2((32 - p) as nat)
}

/// The lowest address of the network of `a` with prefix `p`.
pub open spec fn net_base(a: nat, p: nat) -> nat {
    (a / block(p)) * block(p)
}

/// The highest address of the network of `a` with prefix `p`.
pub open spec fn net_last(a: nat, p: nat) -> nat {
    (net_base(a, p) + block(p) - 1) as nat
}

/// `x` and `a` agree on their first `p` bits.
pub open spec fn same_net(a: nat, p: nat, x: nat) -> bool {
    x / block(p) == a / block(p)
}

/// `Ipv4Network::size` for prefix `p`: the number of addresses, except
/// that a /0 network reports `u32::MAX`.
pub open spec fn size_for(p: nat) -> nat {
    if p == 0 {
        0xFFFF_FFFF
    } else {
        block(p)
    }
}

/// Usable hosts for prefix `p`: the size less the network and broadcast
/// addresses, saturating at 0.
pub open spec fn hosts_for(p: nat) -> nat {
    if size_for(p) >= 2 {
        (size_for(p) - 2) as nat
    } else {
        0
    }
}

/// An IPv4 network: an address and a prefix length of at most 32.
#[derive(Clone, Copy, Debug)]
pub struct Ipv4Net {
    addr: u32,
    prefix: u8,
}

/// The size of a prefix's block of addresses.
pub proof fn lemma_block_bounds(p: nat)
    requires
        p <= 32,
    ensures
        1 <= block(p) <= 4294967296,
        block(p) * pow2(p) == 4294967296,
        p == 0 ==> block(p) == 4294967296,
        size_for(p) <= block(p),
        p <= 30 ==> block(p) >= 4,
{
    broadcast use {lemma_pow2_unfold, lemma_pow2_pos};

    if p < 30 {
        lemma_pow2_strictly_increases(2, (32 - p) as nat);
    }

    lemma2_to64();
    lemma_pow2_adds((32 - p) as nat, p);
    if p > 0 {
        lemma_pow2_strictly_increases((32 - p) as nat, 32);
    }
}

/// An address lies between its network's first and last address.
pub proof fn lemma_net_bounds(a: u32, p: nat)
    requires
        p <= 32,
    ensures
        net_base(a as nat, p) <= a,
        a <= net_last(a as nat, p),
        net_last(a as nat, p) <= 0xFFFF_FFFF,
        net_base(a as nat, p) % block(p) == 0,
        same_net(a as nat, p, net_base(a as nat, p)),
{
    lemma_block_bounds(p);
    let b = block(p);
    let x = a as nat;
    let q = x / b;
    let r = x % b;
    lemma_fundamental_div_mod(x as int, b as int);
    lemma_mod_bound(x as int, b as int);
    assert(q * b <= x) by (nonlinear_arith)
        requires
            x == b * q + r,
            r >= 0,
    ;
    assert(x < q * b + b) by (nonlinear_arith)
        requires
            x == b * q + r,
            r < b,
    ;
    assert(q < pow2(p)) by (nonlinear_arith)
        requires
            x < 4294967296,
            b * pow2(p) == 4294967296,
            q * b <= x,
            x < q * b + b,
            b >= 1,
    ;
    assert(q * b + b <= 4294967296) by (nonlinear_arith)
        requires
            q < pow2(p),
            b * pow2(p) == 4294967296,
            b >= 1,
    ;
    lemma_mod_multiples_basic(q as int, b as int);
    lemma_div_multiples_vanish(q as int, b as int);
}

impl Ipv4Net {
    #[verifier::type_invariant]
    spec fn inv(self) -> bool {
        self.prefix <= 32
    }

    pub closed spec fn addr_spec(self) -> u32 {
        self.addr
    }

    pub closed spec fn prefix_spec(self) -> nat {
        self.prefix as nat
    }

    fn from_parts(addr: u32, prefix: u8) -> (n: Ipv4Net)
        requires
            prefix <= 32,
        ensures
            n.addr_spec() == addr,
            n.prefix_spec() == prefix,
    {
        Ipv4Net { addr, prefix }
    }

    /// `Ipv4Network::new_checked`: `None` when the prefix is above 32.
    pub fn new(addr: u32, prefix: u8) -> (r: Option<Ipv4Net>)
        ensures
            r is Some <==> prefix <= 32,
            r matches Some(n) ==> n.addr_spec() == addr && n.prefix_spec() == prefix,
    {
        if prefix > 32 {
            None
        } else {
            Some(Ipv4Net { addr, prefix })
        }
    }

    pub fn addr(&self) -> (a: u32)
        ensures
            a == self.addr_spec(),
    {
        self.addr
    }

    pub fn prefix(&self) -> (p: u8)
        ensures
            p == self.prefix_spec(),
            p <= 32,
    {
        proof {
            use_type_invariant(self);
        }
        self.prefix
    }

    /// The lowest address of the network (`Ipv4Network::network`).
    pub open spec fn base_spec(self) -> nat {
        net_base(self.addr_spec() as nat, self.prefix_spec())
    }

    /// The highest address of the network (`Ipv4Network::broadcast`).
    pub open spec fn last_spec(self) -> nat {
        net_last(self.addr_spec() as nat, self.prefix_spec())
    }

    /// `Ipv4Network::size`: the number of addresses, except that a /0
    /// network reports `u32::MAX`.
    pub open spec fn size_spec(self) -> nat {
        size_for(self.prefix_spec())
    }

    /// `Ipv4Network::contains`.
    pub open spec fn contains_spec(self, x: u32) -> bool {
        same_net(self.addr_spec() as nat, self.prefix_spec(), x as nat)
    }

    fn block_size(&self) -> (b: u64)
        ensures
            b == block(self.prefix_spec()),
            1 <= b <= 4294967296,
    {
        proof {
            use_type_invariant(self);
            lemma_block_bounds(self.prefix as nat);
        }
        broadcast use {lemma_pow2_unfold, lemma_pow2_pos};

        let n: u8 = 32 - self.prefix;
        let mut b: u64 = 1;
        let mut k: u8 = 0;
        proof {
            lemma2_to64();
        }
        while k < n
            invariant
                k <= n,
                n == 32 - self.prefix_spec(),
                b == pow2(k as nat),
            decreases n - k,
        {
            proof {
                lemma2_to64();
                lemma_pow2_strictly_increases(k as nat, 32);
            }
            b = b * 2;
            k = k + 1;
        }
        b
    }

    pub fn network(&self) -> (r: u32)
        ensures
            r == self.base_spec(),
    {
        proof {
            use_type_invariant(self);
            lemma_net_bounds(self.addr, self.prefix as nat);
        }
        let b = self.block_size();
        let q = (self.addr as u64) / b;
        proof {
            assert(q * b <= self.addr);
        }
        (q * b) as u32
    }

    pub fn broadcast(&self) -> (r: u32)
        ensures
            r == self.last_spec(),
    {
        proof {
            use_type_invariant(self);
            lemma_net_bounds(self.addr, self.prefix as nat);
        }
        let b = self.block_size();
        let base = self.network() as u64;
        (base + b - 1) as u32
    }

    pub fn contains(&self, x: u32) -> (r: bool)
        ensures
            r == self.contains_spec(x),
    {
        let b = self.block_size();
        (x as u64) / b == (self.addr as u64) / b
    }

    pub fn size(&self) -> (r: u32)
        ensures
            r == self.size_spec(),
    {
        proof {
            use_type_invariant(self);
            lemma_block_bounds(self.prefix as nat);
            if self.prefix > 0 {
                lemma2_to64();
                lemma_pow2_strictly_increases((32 - self.prefix) as nat, 32);
            }
        }
        if self.prefix == 0 {
            0xFFFF_FFFF
        } else {
            self.block_size() as u32
        }
    }

    /// `Ipv4Network::nth`: the `n`-th address when `n` is below the size.
    pub fn nth(&self, n: u32) -> (r: Option<u32>)
        ensures
            r is Some <==> n < self.size_spec(),
            r matches Some(x) ==> x == self.base_spec() + n,
    {
        proof {
            use_type_invariant(self);
            lemma_net_bounds(self.addr, self.prefix as nat);
        }
        let size = self.size();
        proof {
            lemma_block_bounds(self.prefix as nat);
        }
        if n < size {
            let base = self.network();
            Some(base + n)
        } else {
            None
        }
    }
}

/// A parse result with its error text taken as characters.
pub open spec fn result_view(r: Result<(u32, u8), String>) -> Result<(u32, u8), Seq<char>> {
    match r {
        Ok(v) => Ok(v),
        Err(e) => Err(e@),
    }
}

/// The name for what `Ipv4Network::from_str` (ipnetwork) returns for a text:
/// the address and prefix it holds, or the text of its error.
pub uninterp spec fn cidr_parse(text: Seq<char>) -> Result<(u32, u8), Seq<char>>;

/// Parses CIDR text with ipnetwork's `Ipv4Network::from_str`.
/// Claims: the result is the named `cidr_parse` of the text, the error as its
/// `Display` text, and an accepted prefix is at most 32 (`Ipv4Network::new`
/// refuses larger ones).
#[verifier::external_body]
fn ipnetwork_from_str(text: &str) -> (r: Result<(u32, u8), String>)
    ensures
        cidr_parse(text@) == result_view(r),
        r matches Ok(v) ==> v.1 <= 32,
{
    match text.parse::<ipnetwork::Ipv4Network>() {
        Ok(n) => Ok((u32::from(n.ip()), n.prefix())),
        Err(e) => Err(e.to_string()),
    }
}

/// A network from its CIDR text, as ipnetwork parses it; the error is the
/// text of ipnetwork's error.
pub fn parse_network(text: &str) -> (r: Result<Ipv4Net, String>)
    ensures
        r matches Ok(n) ==> cidr_parse(text@) matches Ok(v) && v.0 == n.addr_spec() && v.1
            == n.prefix_spec(),
        r matches Err(e) ==> cidr_parse(text@) matches Err(m) && m == e@,
{
    match ipnetwork_from_str(text) {
        Ok(v) => Ok(Ipv4Net::from_parts(v.0, v.1)),
        Err(e) => Err(e),
    }
}

/// Common home-router convention: the first usable host of the network.
pub fn guess_gateway(network: Ipv4Net) -> (r: Option<u32>)
    ensures
        r is Some <==> 1 < network.size_spec(),
        r matches Some(g) ==> g == network.base_spec() + 1,
{
    network.nth(1)
}

/// Usable hosts of a network: its size less the network and broadcast
/// addresses, saturating at 0.
pub open spec fn host_count_of(n: Ipv4Net) -> nat {
    hosts_for(n.prefix_spec())
}

pub fn network_host_count(network: Ipv4Net) -> (r: u32)
    ensures
        r == host_count_of(network),
{
    network.size().saturating_sub(2)
}

} // verus!
