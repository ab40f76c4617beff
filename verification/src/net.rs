//! Addresses and networks as plain integers, their text forms, and the
//! parsers that read them.

use vstd::prelude::*;
use crate::text::{decimal, hex, join, u64_to_decimal, u64_to_hex, join_strings};
use vstd::arithmetic::power2::{pow2, lemma2_to64, lemma2_to64_rest, lemma_pow2_adds, lemma_pow2_unfold, lemma_pow2_pos, lemma_pow2_strictly_increases};
use vstd::arithmetic::div_mod::{lemma_fundamental_div_mod, lemma_mod_bound, lemma_mod_multiples_basic};

verus! {

/// An IP address: the 32 or 128 bits of an IPv4 or IPv6 address.
#[derive(Clone, Copy, Debug, PartialEq, Eq, Structural)]
pub enum Addr {
    V4(u32),
    V6(u128),
}

/// An IP network: an address and a prefix length. The address may carry
/// host bits below the prefix, as `ipnet::IpNet` allows.
#[derive(Clone, Copy, Debug, PartialEq, Eq, Structural)]
pub struct Net {
    pub addr: Addr,
    pub len: u8,
}

/// The number of bits of an address.
pub open spec fn addr_bits(a: Addr) -> u8 {
    match a {
        Addr::V4(_) => 32,
        Addr::V6(_) => 128,
    }
}

impl Net {
    /// The prefix length fits the family.
    pub open spec fn wf(self) -> bool {
        self.len <= addr_bits(self.addr)
    }

    pub open spec fn spec_max_prefix_len(self) -> u8 {
        addr_bits(self.addr)
    }

    /// The single-address network of `a` (`IpNet::from(IpAddr)`).
    pub fn from_addr(a: Addr) -> (r: Net)
        ensures
            r.wf(),
            r.addr == a,
            r.len == addr_bits(a),
    {
        match a {
            Addr::V4(_) => Net { addr: a, len: 32 },
            Addr::V6(_) => Net { addr: a, len: 128 },
        }
    }

    /// The largest prefix length of the family: 32 or 128.
    pub fn max_prefix_len(&self) -> (r: u8)
        ensures
            r == self.spec_max_prefix_len(),
    {
        match self.addr {
            Addr::V4(_) => 32,
            Addr::V6(_) => 128,
        }
    }

    pub fn is_v4(&self) -> (r: bool)
        ensures
            r <==> self.addr is V4,
    {
        match self.addr {
            Addr::V4(_) => true,
            Addr::V6(_) => false,
        }
    }
}

/// Dotted-quad form of an IPv4 address, as `Ipv4Addr` displays it.
pub open spec fn ipv4_text(a: u32) -> Seq<char> {
    decimal(((a >> 24u32) & 0xffu32) as nat) + seq!['.']
        + decimal(((a >> 16u32) & 0xffu32) as nat) + seq!['.']
        + decimal(((a >> 8u32) & 0xffu32) as nat) + seq!['.']
        + decimal((a & 0xffu32) as nat)
}

/// The eight 16-bit groups of an IPv6 address, most significant first.
pub open spec fn segments(a: u128) -> Seq<u16> {
    seq![
        ((a >> 112u128) & 0xffffu128) as u16,
        ((a >> 96u128) & 0xffffu128) as u16,
        ((a >> 80u128) & 0xffffu128) as u16,
        ((a >> 64u128) & 0xffffu128) as u16,
        ((a >> 48u128) & 0xffffu128) as u16,
        ((a >> 32u128) & 0xffffu128) as u16,
        ((a >> 16u128) & 0xffffu128) as u16,
        (a & 0xffffu128) as u16,
    ]
}

/// `::ffff:a.b.c.d`, an IPv4 address mapped into IPv6.
pub open spec fn is_ipv4_mapped(g: Seq<u16>) -> bool {
    &&& g.len() == 8
    &&& g[0] == 0 && g[1] == 0 && g[2] == 0 && g[3] == 0 && g[4] == 0
    &&& g[5] == 0xffff
}

/// Groups `start .. start + len` are all zero.
pub open spec fn is_zero_run(g: Seq<u16>, start: int, len: int) -> bool {
    &&& len >= 1
    &&& 0 <= start
    &&& start + len <= g.len()
    &&& forall|k: int| start <= k < start + len ==> g[k] == 0
}

/// `(start, len)` is the longest run of zero groups, the leftmost among
/// equally long ones; `(0, 0)` when no group is zero.
pub open spec fn is_first_longest_zero_run(g: Seq<u16>, start: int, len: int) -> bool {
    &&& (len == 0 && start == 0 && forall|k: int| 0 <= k < g.len() ==> g[k] != 0)
        || is_zero_run(g, start, len)
    &&& forall|s: int, l: int| #[trigger] is_zero_run(g, s, l) ==> l < len || (l == len && start <= s)
}

/// The run of zero groups that `::` replaces (if it is longer than one).
pub open spec fn zero_span(g: Seq<u16>) -> (int, int) {
    choose|sl: (int, int)| is_first_longest_zero_run(g, sl.0, sl.1)
}

/// Groups in lowercase hexadecimal, separated by colons.
pub open spec fn hex_groups(g: Seq<u16>) -> Seq<char> {
    join(g.map_values(|x: u16| hex(x as nat)), seq![':'])
}

/// The RFC 5952 text of an IPv6 address, as `Ipv6Addr` displays it: an
/// IPv4-mapped address as `::ffff:` and a dotted quad, otherwise the
/// groups in hex with the longest run of two or more zero groups (the
/// leftmost such run) written `::`.
pub open spec fn ipv6_text(a: u128) -> Seq<char> {
    let g = segments(a);
    if is_ipv4_mapped(g) {
        seq![':', ':', 'f', 'f', 'f', 'f', ':'] + ipv4_text((a & 0xffff_ffffu128) as u32)
    } else {
        let (s, l) = zero_span(g);
        if l > 1 {
            hex_groups(g.subrange(0, s)) + seq![':', ':'] + hex_groups(g.subrange(s + l, 8))
        } else {
            hex_groups(g)
        }
    }
}

/// The text form of an address.
pub open spec fn addr_text(a: Addr) -> Seq<char> {
    match a {
        Addr::V4(x) => ipv4_text(x),
        Addr::V6(x) => ipv6_text(x),
    }
}

/// The text form of a network, `addr/len`, as `IpNet` displays it.
pub open spec fn net_text(n: Net) -> Seq<char> {
    addr_text(n.addr) + seq!['/'] + decimal(n.len as nat)
}

/// How a network is written as an nftables set element: a single address
/// bare, anything wider as `addr/len`.
pub open spec fn key_text(n: Net) -> Seq<char> {
    if n.len == addr_bits(n.addr) {
        addr_text(n.addr)
    } else {
        net_text(n)
    }
}

pub fn ipv4_to_string(a: u32) -> (r: String)
    ensures
        r@ == ipv4_text(a),
{
    proof {
        reveal_strlit(".");
    }
    let mut s = u64_to_decimal(((a >> 24u32) & 0xffu32) as u64);
    s.append(".");
    s.append(u64_to_decimal(((a >> 16u32) & 0xffu32) as u64).as_str());
    s.append(".");
    s.append(u64_to_decimal(((a >> 8u32) & 0xffu32) as u64).as_str());
    s.append(".");
    s.append(u64_to_decimal((a & 0xffu32) as u64).as_str());
    s
}

fn segments_of(a: u128) -> (r: Vec<u16>)
    ensures
        r@ == segments(a),
{
    let r = vec![
        ((a >> 112u128) & 0xffffu128) as u16,
        ((a >> 96u128) & 0xffffu128) as u16,
        ((a >> 80u128) & 0xffffu128) as u16,
        ((a >> 64u128) & 0xffffu128) as u16,
        ((a >> 48u128) & 0xffffu128) as u16,
        ((a >> 32u128) & 0xffffu128) as u16,
        ((a >> 16u128) & 0xffffu128) as u16,
        (a & 0xffffu128) as u16,
    ];
    assert(r@ =~= segments(a));
    r
}

proof fn lemma_first_longest_unique(g: Seq<u16>, s1: int, l1: int, s2: int, l2: int)
    requires
        is_first_longest_zero_run(g, s1, l1),
        is_first_longest_zero_run(g, s2, l2),
    ensures
        s1 == s2 && l1 == l2,
{
    if l1 == 0 && s1 == 0 && forall|k: int| 0 <= k < g.len() ==> g[k] != 0 {
        if is_zero_run(g, s2, l2) {
            assert(g[s2] == 0);
        }
    } else if l2 == 0 && s2 == 0 && forall|k: int| 0 <= k < g.len() ==> g[k] != 0 {
        assert(g[s1] == 0);
    } else {
        assert(is_zero_run(g, s1, l1));
        assert(is_zero_run(g, s2, l2));
    }
}

/// Finds the run of zero groups that `::` stands for.
fn find_zero_span(g: &Vec<u16>) -> (r: (usize, usize))
    ensures
        is_first_longest_zero_run(g@, r.0 as int, r.1 as int),
        (r.0 as int, r.1 as int) == zero_span(g@),
{
    let n = g.len();
    let mut best_start: usize = 0;
    let mut best_len: usize = 0;
    let mut cur_len: usize = 0;
    let mut i: usize = 0;
    while i < n
        invariant
            n == g@.len(),
            i <= n,
            cur_len <= i,
            forall|k: int| i - cur_len <= k < i ==> g@[k] == 0,
            cur_len < i ==> g@[i - cur_len - 1] != 0,
            (best_len == 0 && best_start == 0 && forall|k: int| 0 <= k < i ==> g@[k] != 0)
                || (is_zero_run(g@, best_start as int, best_len as int) && best_start + best_len <= i),
            forall|s: int, l: int| #[trigger] is_zero_run(g@, s, l) && s + l <= i
                ==> l < best_len || (l == best_len && best_start <= s),
        decreases n - i,
    {
        if g[i] == 0 {
            cur_len = cur_len + 1;
            if cur_len > best_len {
                best_len = cur_len;
                best_start = i + 1 - cur_len;
            }
        } else {
            cur_len = 0;
        }
        i = i + 1;
        assert forall|s: int, l: int| #[trigger] is_zero_run(g@, s, l) && s + l <= i
            implies l < best_len || (l == best_len && best_start <= s) by {
            if s + l == i {
                assert(g@[i - 1] == 0);
                if s < i - cur_len {
                    assert(g@[i - cur_len - 1] == 0);
                }
            }
        }
    }
    proof {
        let ghost sl = (best_start as int, best_len as int);
        assert(is_first_longest_zero_run(g@, sl.0, sl.1));
        let ghost c = zero_span(g@);
        lemma_first_longest_unique(g@, sl.0, sl.1, c.0, c.1);
    }
    (best_start, best_len)
}

/// Hex groups `lo .. hi` of `g`, colon separated.
fn hex_groups_of(g: &Vec<u16>, lo: usize, hi: usize) -> (r: String)
    requires
        lo <= hi <= g@.len(),
    ensures
        r@ == hex_groups(g@.subrange(lo as int, hi as int)),
{
    proof {
        reveal_strlit(":");
    }
    let ghost part = g@.subrange(lo as int, hi as int);
    let mut parts: Vec<String> = Vec::new();
    let mut i: usize = lo;
    while i < hi
        invariant
            lo <= i <= hi <= g@.len(),
            part == g@.subrange(lo as int, hi as int),
            parts@.len() == i - lo,
            forall|k: int| 0 <= k < parts@.len() ==> #[trigger] parts@[k]@ == hex(part[k] as nat),
        decreases hi - i,
    {
        parts.push(u64_to_hex(g[i] as u64));
        i = i + 1;
    }
    assert(parts@.map_values(|s: String| s@) =~= part.map_values(|x: u16| hex(x as nat)));
    let r = join_strings(&parts, ":");
    assert(":"@ =~= seq![':']);
    r
}

/// Writes an IPv6 address in its RFC 5952 text form.
pub fn ipv6_to_string(a: u128) -> (r: String)
    ensures
        r@ == ipv6_text(a),
{
    proof {
        reveal_strlit("::ffff:");
        reveal_strlit("::");
    }
    let g = segments_of(a);
    if g[0] == 0 && g[1] == 0 && g[2] == 0 && g[3] == 0 && g[4] == 0 && g[5] == 0xffff {
        let mut s = String::from_str("::ffff:");
        s.append(ipv4_to_string((a & 0xffff_ffffu128) as u32).as_str());
        s
    } else {
        let (start, len) = find_zero_span(&g);
        if len > 1 {
            let mut s = hex_groups_of(&g, 0, start);
            s.append("::");
            s.append(hex_groups_of(&g, start + len, 8).as_str());
            s
        } else {
            let s = hex_groups_of(&g, 0, 8);
            assert(g@.subrange(0, 8) =~= g@);
            s
        }
    }
}

/// The text form of an address, as `IpAddr` displays it.
pub fn addr_to_string(a: Addr) -> (r: String)
    ensures
        r@ == addr_text(a),
{
    match a {
        Addr::V4(x) => ipv4_to_string(x),
        Addr::V6(x) => ipv6_to_string(x),
    }
}

/// An address as the daemon keys it: an IPv4-mapped IPv6 address
/// (`::ffff:a.b.c.d`) is the IPv4 address it carries, as
/// `IpAddr::to_canonical` gives it; every other address is itself.
pub open spec fn normalize(a: Addr) -> Addr {
    match a {
        Addr::V6(x) => if x / 0x1_0000_0000 == 0xffff {
            Addr::V4((x % 0x1_0000_0000) as u32)
        } else {
            a
        },
        Addr::V4(_) => a,
    }
}

/// Puts an address in the form the daemon keys it by.
pub fn normalize_addr(a: Addr) -> (r: Addr)
    ensures
        r == normalize(a),
{
    match a {
        Addr::V6(x) => if x / 0x1_0000_0000 == 0xffff {
            Addr::V4((x % 0x1_0000_0000) as u32)
        } else {
            a
        },
        Addr::V4(_) => a,
    }
}

/// `x` with its `k` lowest bits cleared.
pub open spec fn clear_low(x: nat, k: nat) -> nat {
    (x / pow2(k)) * pow2(k)
}

/// The network with its host bits cleared, as `IpNet::trunc` gives it:
/// the bits below the prefix are zero.
pub open spec fn trunc(n: Net) -> Net {
    match n.addr {
        Addr::V4(x) => Net { addr: Addr::V4(clear_low(x as nat, (32 - n.len) as nat) as u32), len: n.len },
        Addr::V6(x) => Net { addr: Addr::V6(clear_low(x as nat, (128 - n.len) as nat) as u128), len: n.len },
    }
}

proof fn lemma_pow2_127_128()
    ensures
        pow2(127) == 0x8000_0000_0000_0000_0000_0000_0000_0000,
        pow2(128) == 0x1_0000_0000_0000_0000_0000_0000_0000_0000,
{
    lemma2_to64();
    lemma2_to64_rest();
    lemma_pow2_adds(63, 64);
    lemma_pow2_adds(64, 64);
}

fn clear_low_bits(x: u128, k: u32) -> (r: u128)
    requires
        k <= 128,
    ensures
        r == clear_low(x as nat, k as nat),
        r <= x,
{
    proof {
        lemma_pow2_127_128();
    }
    if k == 128 {
        assert(x as nat / pow2(128) == 0) by (nonlinear_arith)
            requires
                pow2(128) == 0x1_0000_0000_0000_0000_0000_0000_0000_0000,
        ;
        return 0;
    }
    let mut p: u128 = 1;
    let mut i: u32 = 0;
    proof {
        lemma2_to64();
    }
    while i < k
        invariant
            i <= k < 128,
            p == pow2(i as nat),
            pow2(127) == 0x8000_0000_0000_0000_0000_0000_0000_0000,
        decreases k - i,
    {
        proof {
            lemma_pow2_unfold((i + 1) as nat);
            if i + 1 < 127 {
                lemma_pow2_strictly_increases((i + 1) as nat, 127);
            }
        }
        p = p * 2;
        i = i + 1;
    }
    proof {
        lemma_pow2_pos(k as nat);
    }
    let q = x / p;
    proof {
        lemma_fundamental_div_mod(x as int, p as int);
        assert(x as int % p as int >= 0) by {
            lemma_mod_bound(x as int, p as int);
        }
        assert(q * p == p * q) by (nonlinear_arith);
    }
    q * p
}

/// `y` is `x` with its `k` lowest bits cleared: a multiple of `2^k` no
/// larger than `x` and less than `2^k` below it.
pub open spec fn low_bits_cleared(x: nat, y: nat, k: nat) -> bool {
    &&& y % pow2(k) == 0
    &&& y <= x
    &&& x - y < pow2(k)
}

proof fn lemma_clear_low(x: nat, k: nat)
    ensures
        low_bits_cleared(x, clear_low(x, k), k),
{
    let p = pow2(k);
    lemma_pow2_pos(k);
    lemma_fundamental_div_mod(x as int, p as int);
    lemma_mod_bound(x as int, p as int);
    lemma_mod_multiples_basic((x / p) as int, p as int);
    assert((x / p) * p == p * (x / p)) by (nonlinear_arith);
}

/// Truncation clears exactly the host bits: the prefix length stays, and
/// the address keeps every bit above the prefix and has every bit below it
/// zero (so `a.b.c.d/24` becomes `a.b.c.0/24`).
pub proof fn law_trunc_clears_host_bits(n: Net)
    requires
        n.wf(),
    ensures
        trunc(n).len == n.len,
        match (n.addr, trunc(n).addr) {
            (Addr::V4(x), Addr::V4(y)) => low_bits_cleared(x as nat, y as nat, (32 - n.len) as nat),
            (Addr::V6(x), Addr::V6(y)) => low_bits_cleared(x as nat, y as nat, (128 - n.len) as nat),
            _ => false,
        },
{
    match n.addr {
        Addr::V4(x) => {
            lemma_clear_low(x as nat, (32 - n.len) as nat);
        },
        Addr::V6(x) => {
            lemma_clear_low(x as nat, (128 - n.len) as nat);
        },
    }
}

impl Net {
    /// The network with its host bits cleared (`IpNet::trunc`).
    pub fn trunc(&self) -> (r: Net)
        requires
            self.wf(),
        ensures
            r == trunc(*self),
            r.wf(),
    {
        match self.addr {
            Addr::V4(x) => {
                let y = clear_low_bits(x as u128, 32 - self.len as u32);
                Net { addr: Addr::V4(y as u32), len: self.len }
            },
            Addr::V6(x) => {
                let y = clear_low_bits(x, 128 - self.len as u32);
                Net { addr: Addr::V6(y), len: self.len }
            },
        }
    }
}

/// The text form of a network, as `IpNet` displays it.
pub fn net_to_string(n: &Net) -> (r: String)
    ensures
        r@ == net_text(*n),
{
    proof {
        reveal_strlit("/");
    }
    let mut s = addr_to_string(n.addr);
    s.append("/");
    s.append(u64_to_decimal(n.len as u64).as_str());
    s
}

/// Writes a network as an nftables set element.
pub fn key_to_nft(n: &Net) -> (r: String)
    ensures
        r@ == key_text(*n),
{
    if n.len == n.max_prefix_len() {
        addr_to_string(n.addr)
    } else {
        net_to_string(n)
    }
}


/// What `str::parse::<ipnet::IpNet>` gives for a text (`addr/len`), as
/// bits and prefix length.
pub uninterp spec fn ipnet_from_text(s: Seq<char>) -> Option<Net>;

/// Parses a network written `addr/len` with `ipnet::IpNet`'s `FromStr`.
/// What it accepts is named, not stated; the one fact claimed is that a
/// parsed prefix length fits its family (the parser builds the network
/// with `Ipv4Net::new` / `Ipv6Net::new`, which refuse longer ones).
#[verifier::external_body]
pub fn parse_ip_net(s: &str) -> (r: Option<Net>)
    ensures
        r == ipnet_from_text(s@),
        r matches Some(n) ==> n.wf(),
{
    match s.parse::<ipnet::IpNet>() {
        Ok(ipnet::IpNet::V4(n)) => Some(Net { addr: Addr::V4(u32::from(n.addr())), len: n.prefix_len() }),
        Ok(ipnet::IpNet::V6(n)) => Some(Net { addr: Addr::V6(u128::from(n.addr())), len: n.prefix_len() }),
        Err(_) => None,
    }
}

} // verus!
