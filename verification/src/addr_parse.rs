//! Reading IP addresses from text, with the grammar of `std`'s
//! `IpAddr::from_str`: a dotted quad of decimal octets (no leading zeros),
//! or eight colon-separated hex groups of at most four digits, where one
//! `::` may stand for one or more zero groups and the last 32 bits may be
//! written as a dotted quad.

use vstd::prelude::*;
use crate::net::{Addr, Net, addr_bits, normalize, normalize_addr, trunc, ipnet_from_text, parse_ip_net};
use crate::text::chars_of;

verus! {

pub open spec fn is_dec_digit(c: char) -> bool {
    '0' <= c && c <= '9'
}

pub open spec fn is_hex_digit(c: char) -> bool {
    is_dec_digit(c) || ('a' <= c && c <= 'f') || ('A' <= c && c <= 'F')
}

pub open spec fn hex_digit_value(c: char) -> nat {
    if is_dec_digit(c) {
        (c as int - '0' as int) as nat
    } else if 'a' <= c && c <= 'f' {
        (c as int - 'a' as int + 10) as nat
    } else {
        (c as int - 'A' as int + 10) as nat
    }
}

/// The value of a string of decimal digits.
pub open spec fn dec_value(s: Seq<char>) -> nat
    decreases s.len(),
{
    if s.len() == 0 {
        0
    } else {
        dec_value(s.drop_last()) * 10 + hex_digit_value(s.last())
    }
}

/// The value of a string of hex digits.
pub open spec fn hex_value(s: Seq<char>) -> nat
    decreases s.len(),
{
    if s.len() == 0 {
        0
    } else {
        hex_value(s.drop_last()) * 16 + hex_digit_value(s.last())
    }
}

/// One to three decimal digits, no leading zero, at most 255.
pub open spec fn dec_octet(s: Seq<char>) -> Option<u8> {
    if 1 <= s.len() <= 3 && (forall|i: int| 0 <= i < s.len() ==> is_dec_digit(#[trigger] s[i]))
        && !(s.len() > 1 && s[0] == '0') && dec_value(s) <= 255 {
        Some(dec_value(s) as u8)
    } else {
        None
    }
}

/// One to four hex digits.
pub open spec fn hex_group(s: Seq<char>) -> Option<u16> {
    if 1 <= s.len() <= 4 && (forall|i: int| 0 <= i < s.len() ==> is_hex_digit(#[trigger] s[i])) {
        Some(hex_value(s) as u16)
    } else {
        None
    }
}

/// The fields of `s` between occurrences of `sep` (always at least one).
pub open spec fn split(s: Seq<char>, sep: char) -> Seq<Seq<char>>
    decreases s.len(),
{
    if s.len() == 0 {
        seq![seq![]]
    } else {
        let r = split(s.drop_last(), sep);
        if s.last() == sep {
            r.push(seq![])
        } else {
            r.update(r.len() - 1, r.last().push(s.last()))
        }
    }
}

pub open spec fn octets_value(o0: u8, o1: u8, o2: u8, o3: u8) -> u32 {
    ((o0 as u32) << 24u32) | ((o1 as u32) << 16u32) | ((o2 as u32) << 8u32) | (o3 as u32)
}

/// A dotted quad: exactly four fields between dots, each a decimal octet.
pub open spec fn ipv4_from_text(s: Seq<char>) -> Option<u32> {
    let f = split(s, '.');
    if f.len() == 4 && dec_octet(f[0]) is Some && dec_octet(f[1]) is Some
        && dec_octet(f[2]) is Some && dec_octet(f[3]) is Some {
        Some(octets_value(
            dec_octet(f[0])->0,
            dec_octet(f[1])->0,
            dec_octet(f[2])->0,
            dec_octet(f[3])->0,
        ))
    } else {
        None
    }
}

/// Colon-separated hex groups; the last field may instead be a dotted
/// quad (two groups) when `allow_v4`. The empty text is no groups.
pub open spec fn group_list(t: Seq<char>, allow_v4: bool) -> Option<Seq<u16>> {
    if t.len() == 0 {
        Some(seq![])
    } else {
        let f = split(t, ':');
        let init = f.drop_last();
        if forall|i: int| 0 <= i < init.len() ==> #[trigger] hex_group(init[i]) is Some {
            let hs = init.map_values(|x: Seq<char>| hex_group(x)->0);
            match hex_group(f.last()) {
                Some(h) => Some(hs.push(h)),
                None => {
                    if allow_v4 && ipv4_from_text(f.last()) is Some {
                        let v = ipv4_from_text(f.last())->0;
                        Some(hs + seq![(v >> 16u32) as u16, (v & 0xffffu32) as u16])
                    } else {
                        None
                    }
                },
            }
        } else {
            None
        }
    }
}

/// The 128 bits of eight groups, the first most significant.
pub open spec fn groups_value(g: Seq<u16>) -> u128 {
    ((g[0] as u128) << 112u128) | ((g[1] as u128) << 96u128) | ((g[2] as u128) << 80u128)
        | ((g[3] as u128) << 64u128) | ((g[4] as u128) << 48u128) | ((g[5] as u128) << 32u128)
        | ((g[6] as u128) << 16u128) | (g[7] as u128)
}

/// `s` has its first `::` at `i`.
pub open spec fn is_first_double_colon(s: Seq<char>, i: int) -> bool {
    &&& 0 <= i && i + 1 < s.len()
    &&& s[i] == ':' && s[i + 1] == ':'
    &&& forall|j: int| 0 <= j < i ==> !(#[trigger] s[j] == ':' && s[j + 1] == ':')
}

/// IPv6 text: eight groups, or a head and a tail around the first `::`
/// that stands for at least one zero group; a dotted quad only at the end.
pub open spec fn ipv6_from_text(s: Seq<char>) -> Option<u128> {
    if exists|i: int| is_first_double_colon(s, i) {
        let i = choose|i: int| is_first_double_colon(s, i);
        let head = group_list(s.take(i), false);
        let tail = group_list(s.skip(i + 2), true);
        if head is Some && tail is Some && head->0.len() + tail->0.len() <= 7 {
            let h = head->0;
            let t = tail->0;
            Some(groups_value(h + Seq::new((8 - h.len() - t.len()) as nat, |k: int| 0u16) + t))
        } else {
            None
        }
    } else {
        match group_list(s, true) {
            Some(g) => if g.len() == 8 { Some(groups_value(g)) } else { None },
            None => None,
        }
    }
}

/// An address in text form: a dotted quad, else IPv6 text.
pub open spec fn addr_from_text(s: Seq<char>) -> Option<Addr> {
    match ipv4_from_text(s) {
        Some(a) => Some(Addr::V4(a)),
        None => match ipv6_from_text(s) {
            Some(a) => Some(Addr::V6(a)),
            None => None,
        },
    }
}


pub open spec fn pow10(n: nat) -> nat
    decreases n,
{
    if n == 0 { 1 } else { 10 * pow10((n - 1) as nat) }
}

pub open spec fn pow16(n: nat) -> nat
    decreases n,
{
    if n == 0 { 1 } else { 16 * pow16((n - 1) as nat) }
}

proof fn lemma_split_nonempty(s: Seq<char>, sep: char)
    ensures
        split(s, sep).len() >= 1,
    decreases s.len(),
{
    if s.len() > 0 {
        lemma_split_nonempty(s.drop_last(), sep);
    }
}

/// Splits `s` at every `sep`.
fn split_chars(s: &Vec<char>, sep: char) -> (r: Vec<Vec<char>>)
    ensures
        r@.map_values(|v: Vec<char>| v@) == split(s@, sep),
        r@.len() >= 1,
{
    let mut done: Vec<Vec<char>> = Vec::new();
    let mut cur: Vec<char> = Vec::new();
    let mut i: usize = 0;
    while i < s.len()
        invariant
            i <= s@.len(),
            split(s@.take(i as int), sep) == done@.map_values(|v: Vec<char>| v@).push(cur@),
        decreases s@.len() - i,
    {
        let c = s[i];
        let ghost before = done@.map_values(|v: Vec<char>| v@).push(cur@);
        assert(s@.take(i + 1).drop_last() =~= s@.take(i as int));
        if c == sep {
            done.push(cur);
            cur = Vec::new();
            assert(done@.map_values(|v: Vec<char>| v@).push(cur@) =~= before.push(seq![]));
        } else {
            cur.push(c);
            assert(done@.map_values(|v: Vec<char>| v@).push(cur@)
                =~= before.update(before.len() - 1, before.last().push(c)));
        }
        i = i + 1;
    }
    assert(s@.take(s@.len() as int) =~= s@);
    let ghost d = done@.map_values(|v: Vec<char>| v@);
    done.push(cur);
    assert(done@.map_values(|v: Vec<char>| v@) =~= d.push(cur@));
    done
}

fn is_dec_digit_exec(c: char) -> (r: bool)
    ensures
        r == is_dec_digit(c),
{
    '0' <= c && c <= '9'
}

fn hex_digit_exec(c: char) -> (r: Option<u32>)
    ensures
        r is Some <==> is_hex_digit(c),
        r matches Some(d) ==> d == hex_digit_value(c) && d < 16,
{
    if '0' <= c && c <= '9' {
        Some((c as u32) - ('0' as u32))
    } else if 'a' <= c && c <= 'f' {
        Some((c as u32) - ('a' as u32) + 10)
    } else if 'A' <= c && c <= 'F' {
        Some((c as u32) - ('A' as u32) + 10)
    } else {
        None
    }
}

/// Reads a decimal octet.
fn dec_octet_of(f: &Vec<char>) -> (r: Option<u8>)
    ensures
        r == dec_octet(f@),
{
    let n = f.len();
    if n < 1 || n > 3 {
        return None;
    }
    if n > 1 && f[0] == '0' {
        return None;
    }
    let mut v: u32 = 0;
    let mut i: usize = 0;
    while i < n
        invariant
            n == f@.len(),
            1 <= n <= 3,
            i <= n,
            forall|k: int| 0 <= k < i ==> is_dec_digit(#[trigger] f@[k]),
            v == dec_value(f@.take(i as int)),
            v < pow10(i as nat),
        decreases n - i,
    {
        let c = f[i];
        if !is_dec_digit_exec(c) {
            return None;
        }
        let d = (c as u32) - ('0' as u32);
        assert(f@.take(i + 1).drop_last() =~= f@.take(i as int));
        proof {
            assert(pow10((i + 1) as nat) == 10 * pow10(i as nat));
            assert(v * 10 + d < 10 * pow10(i as nat)) by (nonlinear_arith)
                requires
                    v < pow10(i as nat),
                    d < 10;
            assert(pow10(i as nat) <= 100) by {
                assert(pow10(0) == 1);
                assert(pow10(1) == 10);
                assert(pow10(2) == 100);
            }
        }
        v = v * 10 + d;
        i = i + 1;
    }
    assert(f@.take(n as int) =~= f@);
    if v > 255 {
        None
    } else {
        Some(v as u8)
    }
}

/// Reads a hex group.
fn hex_group_of(f: &Vec<char>) -> (r: Option<u16>)
    ensures
        r == hex_group(f@),
{
    let n = f.len();
    if n < 1 || n > 4 {
        return None;
    }
    let mut v: u32 = 0;
    let mut i: usize = 0;
    while i < n
        invariant
            n == f@.len(),
            1 <= n <= 4,
            i <= n,
            forall|k: int| 0 <= k < i ==> is_hex_digit(#[trigger] f@[k]),
            v == hex_value(f@.take(i as int)),
            v < pow16(i as nat),
        decreases n - i,
    {
        let d = match hex_digit_exec(f[i]) {
            Some(d) => d,
            None => {
                return None;
            },
        };
        assert(f@.take(i + 1).drop_last() =~= f@.take(i as int));
        proof {
            assert(pow16((i + 1) as nat) == 16 * pow16(i as nat));
            assert(v * 16 + d < 16 * pow16(i as nat)) by (nonlinear_arith)
                requires
                    v < pow16(i as nat),
                    d < 16;
            assert(pow16(i as nat) <= 4096) by {
                assert(pow16(0) == 1);
                assert(pow16(1) == 16);
                assert(pow16(2) == 256);
                assert(pow16(3) == 4096);
            }
        }
        v = v * 16 + d;
        i = i + 1;
    }
    assert(f@.take(n as int) =~= f@);
    proof {
        assert(pow16(n as nat) <= 65536) by {
            assert(pow16(0) == 1);
            assert(pow16(1) == 16);
            assert(pow16(2) == 256);
            assert(pow16(3) == 4096);
            assert(pow16(4) == 65536);
        }
    }
    Some(v as u16)
}

/// Reads a dotted quad.
fn ipv4_of(s: &Vec<char>) -> (r: Option<u32>)
    ensures
        r == ipv4_from_text(s@),
{
    let f = split_chars(s, '.');
    let ghost fv = f@.map_values(|v: Vec<char>| v@);
    if f.len() != 4 {
        return None;
    }
    assert(fv[0] == f@[0]@ && fv[1] == f@[1]@ && fv[2] == f@[2]@ && fv[3] == f@[3]@);
    let o0 = match dec_octet_of(&f[0]) { Some(o) => o, None => { return None; } };
    let o1 = match dec_octet_of(&f[1]) { Some(o) => o, None => { return None; } };
    let o2 = match dec_octet_of(&f[2]) { Some(o) => o, None => { return None; } };
    let o3 = match dec_octet_of(&f[3]) { Some(o) => o, None => { return None; } };
    Some(((o0 as u32) << 24u32) | ((o1 as u32) << 16u32) | ((o2 as u32) << 8u32) | (o3 as u32))
}

/// Reads colon-separated hex groups (and a trailing dotted quad when
/// `allow_v4`).
fn group_list_of(t: &Vec<char>, allow_v4: bool) -> (r: Option<Vec<u16>>)
    ensures
        match r {
            Some(g) => group_list(t@, allow_v4) == Some(g@),
            None => group_list(t@, allow_v4) is None,
        },
{
    if t.len() == 0 {
        let g: Vec<u16> = Vec::new();
        assert(g@ =~= seq![]);
        return Some(g);
    }
    let f = split_chars(t, ':');
    let ghost fv = f@.map_values(|v: Vec<char>| v@);
    let ghost init = fv.drop_last();
    let last = f.len() - 1;
    let mut g: Vec<u16> = Vec::new();
    let mut i: usize = 0;
    while i < last
        invariant
            last == f@.len() - 1,
            fv == f@.map_values(|v: Vec<char>| v@),
            fv == split(t@, ':'),
            init == fv.drop_last(),
            i <= last,
            g@.len() == i,
            forall|k: int| 0 <= k < i ==> #[trigger] hex_group(init[k]) == Some(g@[k]),
        decreases last - i,
    {
        assert(init[i as int] == f@[i as int]@);
        match hex_group_of(&f[i]) {
            Some(h) => {
                g.push(h);
            },
            None => {
                assert(fv == split(t@, ':'));
                assert(i < init.len());
                assert(!(hex_group(init[i as int]) is Some));
                return None;
            },
        }
        i = i + 1;
    }
    let ghost hs = init.map_values(|x: Seq<char>| hex_group(x)->0);
    assert(g@ =~= hs);
    assert(fv.last() == f@[last as int]@);
    match hex_group_of(&f[last]) {
        Some(h) => {
            g.push(h);
            Some(g)
        },
        None => {
            if allow_v4 {
                match ipv4_of(&f[last]) {
                    Some(v) => {
                        g.push((v >> 16u32) as u16);
                        g.push((v & 0xffffu32) as u16);
                        assert(g@ =~= hs + seq![(v >> 16u32) as u16, (v & 0xffffu32) as u16]);
                        Some(g)
                    },
                    None => None,
                }
            } else {
                None
            }
        },
    }
}

proof fn lemma_first_double_colon_unique(s: Seq<char>, i: int, j: int)
    requires
        is_first_double_colon(s, i),
        is_first_double_colon(s, j),
    ensures
        i == j,
{
    if i < j {
        assert(s[i] == ':' && s[i + 1] == ':');
    } else if j < i {
        assert(s[j] == ':' && s[j + 1] == ':');
    }
}

/// Where the first `::` is, if any.
fn first_double_colon(s: &Vec<char>) -> (r: Option<usize>)
    ensures
        r matches Some(i) ==> is_first_double_colon(s@, i as int),
        r is None ==> !exists|i: int| is_first_double_colon(s@, i),
{
    let n = s.len();
    let mut i: usize = 0;
    while n > 0 && i < n - 1
        invariant
            n == s@.len(),
            forall|j: int| 0 <= j < i ==> !(#[trigger] s@[j] == ':' && s@[j + 1] == ':'),
        decreases n - i,
    {
        if s[i] == ':' && s[i + 1] == ':' {
            return Some(i);
        }
        i = i + 1;
    }
    assert forall|k: int| !is_first_double_colon(s@, k) by {
        if is_first_double_colon(s@, k) {
            assert(k < i);
            assert(!(s@[k] == ':' && s@[k + 1] == ':'));
        }
    }
    None
}

fn sub_chars(s: &Vec<char>, lo: usize, hi: usize) -> (r: Vec<char>)
    requires
        lo <= hi <= s@.len(),
    ensures
        r@ == s@.subrange(lo as int, hi as int),
{
    let mut r: Vec<char> = Vec::new();
    let mut i: usize = lo;
    while i < hi
        invariant
            lo <= i <= hi <= s@.len(),
            r@ == s@.subrange(lo as int, i as int),
        decreases hi - i,
    {
        r.push(s[i]);
        i = i + 1;
        assert(r@ =~= s@.subrange(lo as int, i as int));
    }
    r
}

fn groups_value_of(g: &Vec<u16>) -> (r: u128)
    requires
        g@.len() == 8,
    ensures
        r == groups_value(g@),
{
    ((g[0] as u128) << 112u128) | ((g[1] as u128) << 96u128) | ((g[2] as u128) << 80u128)
        | ((g[3] as u128) << 64u128) | ((g[4] as u128) << 48u128) | ((g[5] as u128) << 32u128)
        | ((g[6] as u128) << 16u128) | (g[7] as u128)
}

/// Reads IPv6 text.
fn ipv6_of(s: &Vec<char>) -> (r: Option<u128>)
    ensures
        r == ipv6_from_text(s@),
{
    match first_double_colon(s) {
        Some(i) => {
            proof {
                let c = choose|k: int| is_first_double_colon(s@, k);
                lemma_first_double_colon_unique(s@, i as int, c);
            }
            assert(i + 1 < s@.len());
            assert(i + 2 <= s.len());
            let head_text = sub_chars(s, 0, i);
            let tail_text = sub_chars(s, i + 2, s.len());
            assert(head_text@ =~= s@.take(i as int));
            assert(tail_text@ =~= s@.skip(i + 2));
            let head = match group_list_of(&head_text, false) { Some(h) => h, None => { return None; } };
            let tail = match group_list_of(&tail_text, true) { Some(t) => t, None => { return None; } };
            if head.len() > 7 || tail.len() > 7 - head.len() {
                return None;
            }
            let mut g: Vec<u16> = Vec::new();
            let mut k: usize = 0;
            while k < head.len()
                invariant
                    k <= head@.len(),
                    g@ == head@.take(k as int),
                decreases head@.len() - k,
            {
                g.push(head[k]);
                k = k + 1;
                assert(g@ =~= head@.take(k as int));
            }
            let zeros = 8 - head.len() - tail.len();
            let ghost zs = Seq::new(zeros as nat, |j: int| 0u16);
            let mut z: usize = 0;
            while z < zeros
                invariant
                    z <= zeros,
                    zeros == 8 - head@.len() - tail@.len(),
                    zs == Seq::new(zeros as nat, |j: int| 0u16),
                    g@ == head@ + zs.take(z as int),
                decreases zeros - z,
            {
                g.push(0u16);
                z = z + 1;
                assert(g@ =~= head@ + zs.take(z as int));
            }
            let mut t: usize = 0;
            while t < tail.len()
                invariant
                    t <= tail@.len(),
                    zeros == 8 - head@.len() - tail@.len(),
                    zs == Seq::new(zeros as nat, |j: int| 0u16),
                    g@ == head@ + zs + tail@.take(t as int),
                decreases tail@.len() - t,
            {
                g.push(tail[t]);
                t = t + 1;
                assert(g@ =~= head@ + zs + tail@.take(t as int));
            }
            assert(zs.take(zeros as int) =~= zs);
            assert(tail@.take(tail@.len() as int) =~= tail@);
            Some(groups_value_of(&g))
        },
        None => {
            match group_list_of(s, true) {
                Some(g) => {
                    if g.len() == 8 {
                        Some(groups_value_of(&g))
                    } else {
                        None
                    }
                },
                None => None,
            }
        },
    }
}

/// Reads an address the way `str::parse::<std::net::IpAddr>` does: a dotted
/// quad first, else IPv6 text.
pub fn parse_addr(s: &str) -> (r: Option<Addr>)
    ensures
        r == addr_from_text(s@),
{
    let cs = chars_of(s);
    match ipv4_of(&cs) {
        Some(a) => Some(Addr::V4(a)),
        None => match ipv6_of(&cs) {
            Some(a) => Some(Addr::V6(a)),
            None => None,
        },
    }
}

/// The network a command-line argument names: an address alone is its
/// single-address network, the address put in the form the daemon keys it
/// by; anything else is read as `addr/len` by `ipnet` and has its host bits
/// cleared. `None` when it is neither.
pub open spec fn net_arg(s: Seq<char>) -> Option<Net> {
    match addr_from_text(s) {
        Some(a) => Some(Net { addr: normalize(a), len: addr_bits(normalize(a)) }),
        None => match ipnet_from_text(s) {
            Some(n) => Some(trunc(n)),
            None => None,
        },
    }
}

/// Reads the network of `minsec ban` / `minsec unban`.
pub fn parse_net(s: &str) -> (r: Option<Net>)
    ensures
        r == net_arg(s@),
        r matches Some(n) ==> n.wf(),
{
    match parse_addr(s) {
        Some(a) => Some(Net::from_addr(normalize_addr(a))),
        None => match parse_ip_net(s) {
            Some(n) => Some(n.trunc()),
            None => None,
        },
    }
}

} // verus!
