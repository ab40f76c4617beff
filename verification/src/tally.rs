//! The tally of `minsec test`: how many lines a filter read, how many it
//! matched, and how often each address matched, addresses in the order
//! `IpAddr` sorts them (IPv4 before IPv6, each by value).

use vstd::prelude::*;
use crate::net::{Addr, addr_text, addr_to_string};
use crate::text::{decimal, u64_to_decimal};
use crate::report::{padded, pad_right};
use crate::key_order::{lemma_key_less, lemma_keys_obey_order};
use std::collections::BTreeMap;
use vstd::std_specs::btree::{spec_btree_map_iter, increasing_seq};
use vstd::std_specs::iter::IteratorSpec;
use vstd::std_specs::cmp::OrdSpec;

verus! {

/// Where an address sorts: IPv4 addresses by value, then IPv6 ones.
pub open spec fn addr_rank(a: Addr) -> int {
    match a {
        Addr::V4(x) => x as int,
        Addr::V6(x) => 0x1_0000_0000 + x as int,
    }
}

/// The order in which `IpAddr` sorts addresses: every IPv4 address before
/// every IPv6 one, and within a family by value.
pub open spec fn ipaddr_before(a: Addr, b: Addr) -> bool {
    match (a, b) {
        (Addr::V4(x), Addr::V4(y)) => x < y,
        (Addr::V4(_), Addr::V6(_)) => true,
        (Addr::V6(_), Addr::V4(_)) => false,
        (Addr::V6(x), Addr::V6(y)) => x < y,
    }
}

/// An address's rank orders addresses as `IpAddr` does, and tells them
/// apart.
pub proof fn law_rank_is_ipaddr_order(a: Addr, b: Addr)
    ensures
        addr_rank(a) < addr_rank(b) <==> ipaddr_before(a, b),
        addr_rank(a) == addr_rank(b) <==> a == b,
{
}

/// The key an address is counted under: its family (4 or 6) and its bits,
/// which sort as `IpAddr` does.
pub open spec fn addr_key(a: Addr) -> (u8, u128) {
    match a {
        Addr::V4(x) => (4u8, x as u128),
        Addr::V6(x) => (6u8, x),
    }
}

/// The address a key stands for.
pub open spec fn key_addr(k: (u8, u128)) -> Addr {
    if k.0 == 4 {
        Addr::V4(k.1 as u32)
    } else {
        Addr::V6(k.1)
    }
}

/// A key that stands for an address.
pub open spec fn key_wf(k: (u8, u128)) -> bool {
    (k.0 == 4 && k.1 < 0x1_0000_0000) || k.0 == 6
}

/// The key an address is counted under orders addresses as `IpAddr` does
/// (by family, then by bits), stands for that address, and tells
/// addresses apart.
pub proof fn law_key_is_ipaddr_order(a: Addr, b: Addr)
    ensures
        (addr_key(a).0 < addr_key(b).0 || (addr_key(a).0 == addr_key(b).0 && addr_key(a).1 < addr_key(b).1))
            <==> ipaddr_before(a, b),
        addr_key(a) == addr_key(b) <==> a == b,
        key_wf(addr_key(a)),
        key_addr(addr_key(a)) == a,
{
}

fn key_of(a: Addr) -> (k: (u8, u128))
    ensures
        k == addr_key(a),
{
    match a {
        Addr::V4(x) => (4, x as u128),
        Addr::V6(x) => (6, x),
    }
}

fn addr_of_key(k: (u8, u128)) -> (a: Addr)
    requires
        key_wf(k),
    ensures
        a == key_addr(k),
        addr_key(a) == k,
{
    if k.0 == 4 {
        Addr::V4(k.1 as u32)
    } else {
        Addr::V6(k.1)
    }
}

proof fn lemma_addr_key_injective(a: Addr, b: Addr)
    requires
        addr_key(a) == addr_key(b),
    ensures
        a == b,
{
}

/// The counts of `minsec test`.
pub struct Tally {
    lines: u64,
    hits: u64,
    per_addr: BTreeMap<(u8, u128), u64>,
}

impl Tally {
    pub closed spec fn lines_spec(&self) -> nat {
        self.lines as nat
    }

    pub closed spec fn hits_spec(&self) -> nat {
        self.hits as nat
    }

    /// How often `a` matched.
    pub closed spec fn count_of(&self, a: Addr) -> nat {
        if self.per_addr@.contains_key(addr_key(a)) {
            self.per_addr@[addr_key(a)] as nat
        } else {
            0
        }
    }

    /// How many addresses matched.
    pub closed spec fn distinct(&self) -> nat {
        self.per_addr@.len()
    }

    /// Each key stands for an address and carries a count of at least one;
    /// no address matched more often than lines matched, and no more lines
    /// matched than were read.
    pub closed spec fn wf(&self) -> bool {
        &&& forall|k: (u8, u128)| #[trigger] self.per_addr@.contains_key(k) ==> key_wf(k)
            && 1 <= self.per_addr@[k] <= self.hits
        &&& self.per_addr@.dom().finite()
        &&& self.hits <= self.lines
    }

    /// Nothing read yet.
    pub fn new() -> (r: Tally)
        ensures
            r.wf(),
            r.lines_spec() == 0,
            r.hits_spec() == 0,
            r.distinct() == 0,
            forall|a: Addr| #[trigger] r.count_of(a) == 0,
    {
        let r = Tally { lines: 0, hits: 0, per_addr: BTreeMap::new() };
        assert(r.per_addr@.dom() =~= Set::<(u8, u128)>::empty());
        r
    }

    /// Counts one more line read, and the address it matched, if any: that
    /// address's count goes up by one, every other stays.
    pub fn record(&mut self, matched: Option<Addr>)
        requires
            old(self).wf(),
            old(self).lines_spec() < u64::MAX,
        ensures
            final(self).wf(),
            final(self).lines_spec() == old(self).lines_spec() + 1,
            final(self).hits_spec() == old(self).hits_spec() + if matched is Some { 1nat } else { 0nat },
            forall|a: Addr| #[trigger] final(self).count_of(a)
                == old(self).count_of(a) + if matched == Some(a) { 1nat } else { 0nat },
    {
        broadcast use vstd::std_specs::btree::group_btree_axioms;
        proof {
            lemma_keys_obey_order();
        }
        self.lines = self.lines + 1;
        if let Some(a) = matched {
            let k = key_of(a);
            let n: u64 = match self.per_addr.get(&k) {
                Some(n) => *n,
                None => 0,
            };
            let ghost before = self.per_addr@;
            self.per_addr.insert(k, n + 1);
            self.hits = self.hits + 1;
            assert forall|b: Addr| #[trigger] self.count_of(b)
                == old(self).count_of(b) + if matched == Some(b) { 1nat } else { 0nat } by {
                if addr_key(b) == k {
                    lemma_addr_key_injective(a, b);
                }
            }
        }
    }

    /// Lines read.
    pub fn lines(&self) -> (r: u64)
        ensures
            r == self.lines_spec(),
    {
        self.lines
    }

    /// Lines matched.
    pub fn hits(&self) -> (r: u64)
        ensures
            r == self.hits_spec(),
    {
        self.hits
    }

    /// How many addresses matched.
    pub fn distinct_count(&self) -> (r: usize)
        requires
            self.wf(),
        ensures
            r == self.distinct(),
    {
        broadcast use vstd::std_specs::btree::group_btree_axioms;
        proof {
            lemma_keys_obey_order();
        }
        self.per_addr.len()
    }

    /// Each matched address with how often it matched, in the order
    /// `IpAddr` sorts them, each once.
    pub fn per_address(&self) -> (r: Vec<(Addr, u64)>)
        requires
            self.wf(),
        ensures
            r@.len() == self.distinct(),
            forall|i: int, j: int| 0 <= i < j < r@.len() ==> addr_rank(#[trigger] r@[i].0) < addr_rank(#[trigger] r@[j].0),
            forall|i: int, j: int| 0 <= i < j < r@.len() ==> ipaddr_before(#[trigger] r@[i].0, #[trigger] r@[j].0),
            forall|i: int| 0 <= i < r@.len() ==> #[trigger] r@[i].1 == self.count_of(r@[i].0) && r@[i].1 > 0,
            forall|a: Addr| self.count_of(a) > 0 ==> exists|i: int| 0 <= i < r@.len() && #[trigger] r@[i].0 == a,
    {
        broadcast use vstd::std_specs::btree::group_btree_axioms;
        proof {
            lemma_keys_obey_order();
        }
        let ghost s = spec_btree_map_iter(&self.per_addr).remaining();
        let ghost keys = s.map_values(|kv: (&(u8, u128), &u64)| *kv.0);
        let iter = self.per_addr.iter();
        assert(increasing_seq(keys));
        let mut r: Vec<(Addr, u64)> = Vec::new();
        for kv in it: iter
            invariant
                self.wf(),
                it.seq() == s,
                s == spec_btree_map_iter(&self.per_addr).remaining(),
                r@.len() == it.index(),
                forall|i: int| 0 <= i < it.index() ==> #[trigger] r@[i] == (key_addr(*s[i].0), *s[i].1),
        {
            let (k, v) = kv;
            assert(self.per_addr@.contains_key(*k));
            r.push((addr_of_key(*k), *v));
        }
        proof {
            let m = self.per_addr@;
            assert(r@.len() == s.len());
            assert forall|i: int| 0 <= i < s.len() implies #[trigger] m.contains_key(*s[i].0) && m[*s[i].0] == *s[i].1 by {}
            assert forall|i: int, j: int| 0 <= i < j < r@.len() implies addr_rank(#[trigger] r@[i].0) < addr_rank(#[trigger] r@[j].0) by {
                assert(keys[i] == *s[i].0 && keys[j] == *s[j].0);
                assert(keys[i].cmp_spec(&keys[j]) is Less);
                lemma_key_less(keys[i], keys[j]);
                assert(m.contains_key(*s[i].0) && m.contains_key(*s[j].0));
            }
            assert forall|i: int, j: int| 0 <= i < j < r@.len() implies ipaddr_before(#[trigger] r@[i].0, #[trigger] r@[j].0) by {
                assert(addr_rank(r@[i].0) < addr_rank(r@[j].0));
                law_rank_is_ipaddr_order(r@[i].0, r@[j].0);
            }
            assert forall|i: int| 0 <= i < r@.len() implies #[trigger] r@[i].1 == self.count_of(r@[i].0) && r@[i].1 > 0 by {
                assert(m.contains_key(*s[i].0));
                assert(addr_key(key_addr(*s[i].0)) == *s[i].0);
            }
            assert forall|a: Addr| self.count_of(a) > 0 implies exists|i: int| 0 <= i < r@.len() && #[trigger] r@[i].0 == a by {
                let k = addr_key(a);
                assert(m.contains_key(k));
                assert(s.contains((&k, &m[k])));
                let i = choose|i: int| 0 <= i < s.len() && s[i] == (&k, &m[k]);
                assert(r@[i].0 == key_addr(k));
            }
        }
        r
    }
}

pub open spec fn tally_summary_text(lines: nat, hits: nat, distinct: nat) -> Seq<char> {
    decimal(lines) + " lines, "@ + decimal(hits) + " matched, "@ + decimal(distinct) + " distinct addresses"@
}

/// The closing line of `minsec test`.
pub fn tally_summary(t: &Tally) -> (r: String)
    requires
        t.wf(),
    ensures
        r@ == tally_summary_text(t.lines_spec(), t.hits_spec(), t.distinct()),
{
    let mut r = u64_to_decimal(t.lines);
    r.append(" lines, ");
    r.append(u64_to_decimal(t.hits).as_str());
    r.append(" matched, ");
    r.append(u64_to_decimal(t.distinct_count() as u64).as_str());
    r.append(" distinct addresses");
    r
}

pub open spec fn address_count_text(a: Addr, n: nat) -> Seq<char> {
    padded(addr_text(a), 40) + " "@ + decimal(n)
}

/// A line of `minsec test --quiet`: an address and how often it matched.
pub fn address_count_line(a: Addr, n: u64) -> (r: String)
    ensures
        r@ == address_count_text(a, n as nat),
{
    let mut r = pad_right(addr_to_string(a).as_str(), 40);
    r.append(" ");
    r.append(u64_to_decimal(n).as_str());
    r
}

pub open spec fn match_text(a: Addr, pattern: nat, line: Seq<char>) -> Seq<char> {
    padded(addr_text(a), 40) + " #"@ + padded(decimal(pattern), 2) + " "@ + line
}

/// A line of `minsec test`: the address a log line matched with, the
/// number of the pattern that matched, and the log line.
pub fn match_line(a: Addr, pattern: usize, line: &str) -> (r: String)
    ensures
        r@ == match_text(a, pattern as nat, line@),
{
    let mut r = pad_right(addr_to_string(a).as_str(), 40);
    r.append(" #");
    r.append(pad_right(u64_to_decimal(pattern as u64).as_str(), 2).as_str());
    r.append(" ");
    r.append(line);
    r
}

} // verus!
