//! nftables backend. Owns `table inet minsec` and nothing else.
//!
//! Bans are set elements with kernel timeouts: the kernel expires them, they
//! survive daemon restarts, and listing them is one netlink dump. Chains hook
//! `input`/`forward` at priority -10 so drops happen before firewalld's or
//! iptables-nft's filter chains (priority 0) without touching either.
//!
//! The table outlives the daemon, so a set created by an earlier version may
//! carry a definition this version no longer uses. `add set` on such a set
//! fails with EEXIST; setup then rebuilds just that set, carrying its
//! elements (and their remaining timeouts) across.
//!
//! The scripts are fed to the `nft` binary on stdin; this module decides
//! what every script says and in which order they run.

use vstd::prelude::*;
use crate::net::{Net, Addr, addr_bits, key_text, key_to_nft, ipnet_from_text, parse_ip_net};
use crate::addr_parse::{addr_from_text, parse_addr};
use crate::json::{Json, json_from_bytes, parse_json, json_get, json_as_str, json_as_u64, json_as_array, members_get};
use crate::text::{decimal, join, u64_to_decimal, join_strings};

verus! {

pub const TABLE: &'static str = "inet minsec";

/// How long a crowd-blocklist element survives in the kernel without being
/// refreshed by a pull. See the crowd sets in `setup_script`.
pub const CROWD_TIMEOUT: &'static str = "24h";

/// A set element read back from the kernel: the network and, when the
/// element has a timeout, the seconds it has left.
#[derive(Clone, Copy, Debug, PartialEq, Eq)]
pub struct Entry {
    pub net: Net,
    pub expires_in: Option<u64>,
}

/// A ban to enforce: the network and its lifetime in seconds.
#[derive(Clone, Copy, Debug, PartialEq, Eq)]
pub struct Ban {
    pub net: Net,
    pub ttl: u64,
}

/// A script as its lines, each written out followed by a newline.
pub open spec fn join_lines(lines: Seq<Seq<char>>) -> Seq<char>
    decreases lines.len(),
{
    if lines.len() == 0 {
        seq![]
    } else {
        join_lines(lines.drop_last()) + lines.last() + seq!['\n']
    }
}

pub proof fn lemma_join_lines_append(a: Seq<Seq<char>>, b: Seq<Seq<char>>)
    ensures
        join_lines(a + b) == join_lines(a) + join_lines(b),
    decreases b.len(),
{
    if b.len() == 0 {
        assert(a + b =~= a);
        assert(join_lines(b) =~= seq![]);
        assert(join_lines(a) + join_lines(b) =~= join_lines(a));
    } else {
        lemma_join_lines_append(a, b.drop_last());
        assert((a + b).drop_last() =~= a + b.drop_last());
        assert((a + b).last() == b.last());
    }
}

/// The hooks both chains attach to, in order.
pub open spec fn hooks() -> Seq<Seq<char>> {
    seq!["input"@, "forward"@]
}

/// Every set the daemon owns, with its definition body.
pub open spec fn set_defs_spec() -> Seq<(Seq<char>, Seq<char>)> {
    seq![
        ("ban4"@, "{ type ipv4_addr; flags interval, timeout; }"@),
        ("ban6"@, "{ type ipv6_addr; flags interval, timeout; }"@),
        ("allow4"@, "{ type ipv4_addr; flags interval; }"@),
        ("allow6"@, "{ type ipv6_addr; flags interval; }"@),
        ("crowd4"@, "{ type ipv4_addr; flags interval, timeout; timeout "@ + CROWD_TIMEOUT@ + "; }"@),
        ("crowd6"@, "{ type ipv6_addr; flags interval, timeout; timeout "@ + CROWD_TIMEOUT@ + "; }"@),
    ]
}

pub open spec fn add_table_line() -> Seq<char> {
    "add table "@ + TABLE@
}

pub open spec fn add_set_line(name: Seq<char>, def: Seq<char>) -> Seq<char> {
    "add set "@ + TABLE@ + " "@ + name + " "@ + def
}

pub open spec fn delete_set_line(name: Seq<char>) -> Seq<char> {
    "delete set "@ + TABLE@ + " "@ + name
}

pub open spec fn add_chain_line(hook: Seq<char>) -> Seq<char> {
    "add chain "@ + TABLE@ + " "@ + hook + " { type filter hook "@ + hook
        + " priority -10; policy accept; }"@
}

pub open spec fn flush_chain_line(hook: Seq<char>) -> Seq<char> {
    "flush chain "@ + TABLE@ + " "@ + hook
}

pub open spec fn flush_set_line(set: Seq<char>) -> Seq<char> {
    "flush set "@ + TABLE@ + " "@ + set
}

/// `add element` of a comma-separated list of elements.
pub open spec fn add_element_line(set: Seq<char>, elems: Seq<char>) -> Seq<char> {
    "add element "@ + TABLE@ + " "@ + set + " { "@ + elems + " }"@
}

pub open spec fn delete_element_line(set: Seq<char>, elem: Seq<char>) -> Seq<char> {
    "delete element "@ + TABLE@ + " "@ + set + " { "@ + elem + " }"@
}

/// The filter rules of one hook, in order: allow lists accept, then local
/// bans drop, then crowd bans drop. Each is (family, set, verdict).
pub open spec fn rules() -> Seq<(Seq<char>, Seq<char>, Seq<char>)> {
    seq![
        ("ip"@, "allow4"@, "accept"@),
        ("ip6"@, "allow6"@, "accept"@),
        ("ip"@, "ban4"@, "counter drop"@),
        ("ip6"@, "ban6"@, "counter drop"@),
        ("ip"@, "crowd4"@, "counter drop"@),
        ("ip6"@, "crowd6"@, "counter drop"@),
    ]
}

pub open spec fn rule_line(hook: Seq<char>, family: Seq<char>, set: Seq<char>, verdict: Seq<char>) -> Seq<char> {
    "add rule "@ + TABLE@ + " "@ + hook + " "@ + family + " saddr @"@ + set + " "@ + verdict
}

pub open spec fn hook_rule_lines(hook: Seq<char>) -> Seq<Seq<char>> {
    rules().map_values(|r: (Seq<char>, Seq<char>, Seq<char>)| rule_line(hook, r.0, r.1, r.2))
}

/// Create-or-keep both chains and empty them.
pub open spec fn reset_chain_lines() -> Seq<Seq<char>> {
    seq![
        add_chain_line(hooks()[0]), flush_chain_line(hooks()[0]),
        add_chain_line(hooks()[1]), flush_chain_line(hooks()[1]),
    ]
}

/// The whole setup script, line by line.
pub open spec fn setup_lines() -> Seq<Seq<char>> {
    seq![add_table_line()]
        + set_defs_spec().map_values(|d: (Seq<char>, Seq<char>)| add_set_line(d.0, d.1))
        + reset_chain_lines()
        + hook_rule_lines(hooks()[0])
        + hook_rule_lines(hooks()[1])
}

fn push_line(s: &mut String, line: &str)
    ensures
        final(s)@ == old(s)@ + line@ + seq!['\n'],
{
    proof {
        reveal_strlit("\n");
    }
    s.append(line);
    s.append("\n");
    assert("\n"@ =~= seq!['\n']);
}


pub proof fn lemma_join_lines_push(ls: Seq<Seq<char>>, l: Seq<char>)
    ensures
        join_lines(ls.push(l)) == join_lines(ls) + l + seq!['\n'],
{
    assert(ls.push(l).drop_last() =~= ls);
}

/// Appends one line to a script being built.
fn emit(s: &mut String, line: &str, Ghost(base): Ghost<Seq<char>>, Ghost(done): Ghost<Seq<Seq<char>>>)
    requires
        old(s)@ == base + join_lines(done),
    ensures
        final(s)@ == base + join_lines(done.push(line@)),
{
    push_line(s, line);
    proof {
        lemma_join_lines_push(done, line@);
        assert(base + join_lines(done) + line@ + seq!['\n'] =~= base + (join_lines(done) + line@ + seq!['\n']));
    }
}

fn hook_name(i: usize) -> (r: &'static str)
    requires
        i < 2,
    ensures
        r@ == hooks()[i as int],
{
    if i == 0 { "input" } else { "forward" }
}

fn add_table_line_exec() -> (r: String)
    ensures
        r@ == add_table_line(),
{
    let mut l = String::from_str("add table ");
    l.append(TABLE);
    l
}

fn add_set_line_exec(name: &str, def: &str) -> (r: String)
    ensures
        r@ == add_set_line(name@, def@),
{
    let mut l = String::from_str("add set ");
    l.append(TABLE);
    l.append(" ");
    l.append(name);
    l.append(" ");
    l.append(def);
    l
}

fn delete_set_line_exec(name: &str) -> (r: String)
    ensures
        r@ == delete_set_line(name@),
{
    let mut l = String::from_str("delete set ");
    l.append(TABLE);
    l.append(" ");
    l.append(name);
    l
}

fn add_chain_line_exec(hook: &str) -> (r: String)
    ensures
        r@ == add_chain_line(hook@),
{
    let mut l = String::from_str("add chain ");
    l.append(TABLE);
    l.append(" ");
    l.append(hook);
    l.append(" { type filter hook ");
    l.append(hook);
    l.append(" priority -10; policy accept; }");
    l
}

fn flush_chain_line_exec(hook: &str) -> (r: String)
    ensures
        r@ == flush_chain_line(hook@),
{
    let mut l = String::from_str("flush chain ");
    l.append(TABLE);
    l.append(" ");
    l.append(hook);
    l
}

fn flush_set_line_exec(set: &str) -> (r: String)
    ensures
        r@ == flush_set_line(set@),
{
    let mut l = String::from_str("flush set ");
    l.append(TABLE);
    l.append(" ");
    l.append(set);
    l
}

fn add_element_line_exec(set: &str, elems: &str) -> (r: String)
    ensures
        r@ == add_element_line(set@, elems@),
{
    let mut l = String::from_str("add element ");
    l.append(TABLE);
    l.append(" ");
    l.append(set);
    l.append(" { ");
    l.append(elems);
    l.append(" }");
    l
}

fn delete_element_line_exec(set: &str, elem: &str) -> (r: String)
    ensures
        r@ == delete_element_line(set@, elem@),
{
    let mut l = String::from_str("delete element ");
    l.append(TABLE);
    l.append(" ");
    l.append(set);
    l.append(" { ");
    l.append(elem);
    l.append(" }");
    l
}

fn rule_line_exec(hook: &str, family: &str, set: &str, verdict: &str) -> (r: String)
    ensures
        r@ == rule_line(hook@, family@, set@, verdict@),
{
    let mut l = String::from_str("add rule ");
    l.append(TABLE);
    l.append(" ");
    l.append(hook);
    l.append(" ");
    l.append(family);
    l.append(" saddr @");
    l.append(set);
    l.append(" ");
    l.append(verdict);
    l
}

fn rule_parts(i: usize) -> (r: (&'static str, &'static str, &'static str))
    requires
        i < 6,
    ensures
        (r.0@, r.1@, r.2@) == rules()[i as int],
{
    if i == 0 {
        ("ip", "allow4", "accept")
    } else if i == 1 {
        ("ip6", "allow6", "accept")
    } else if i == 2 {
        ("ip", "ban4", "counter drop")
    } else if i == 3 {
        ("ip6", "ban6", "counter drop")
    } else if i == 4 {
        ("ip", "crowd4", "counter drop")
    } else {
        ("ip6", "crowd6", "counter drop")
    }
}

/// Whether two texts are equal.
fn str_eq(a: &str, b: &str) -> (r: bool)
    ensures
        r == (a@ == b@),
{
    String::from_str(a) == String::from_str(b)
}

/// The set a network belongs in: `ban4`/`ban6` for the prefix `ban`,
/// `allow4`/`allow6` for any other.
pub open spec fn set_for_spec(net: Net, prefix: Seq<char>) -> Seq<char> {
    match (net.addr, prefix == "ban"@) {
        (Addr::V4(_), true) => "ban4"@,
        (Addr::V6(_), true) => "ban6"@,
        (Addr::V4(_), false) => "allow4"@,
        (Addr::V6(_), false) => "allow6"@,
    }
}

/// An element with a known remaining lifetime keeps it (at least a
/// second); one without takes the set's default.
pub open spec fn entry_text(e: Entry) -> Seq<char> {
    match e.expires_in {
        Some(d) => key_text(e.net) + " timeout "@ + decimal(if d < 1 { 1 } else { d as nat }) + "s"@,
        None => key_text(e.net),
    }
}

/// The lines of the script that replaces set `name` with definition
/// `def` and puts `elems` back.
pub open spec fn recreate_lines(name: Seq<char>, def: Seq<char>, elems: Seq<Seq<char>>) -> Seq<Seq<char>> {
    reset_chain_lines() + seq![delete_set_line(name), add_set_line(name, def)]
        + if elems.len() == 0 {
            Seq::<Seq<char>>::empty()
        } else {
            seq![add_element_line(name, join(elems, ", "@))]
        }
}

fn entry_to_text(e: &Entry) -> (r: String)
    ensures
        r@ == entry_text(*e),
{
    match e.expires_in {
        Some(d) => {
            let mut t = key_to_nft(&e.net);
            t.append(" timeout ");
            let secs: u64 = if d < 1 { 1 } else { d };
            t.append(u64_to_decimal(secs).as_str());
            t.append("s");
            t
        },
        None => key_to_nft(&e.net),
    }
}

/// A ban as a set element: the network with its lifetime (at least a
/// second).
pub open spec fn ban_text(b: Ban) -> Seq<char> {
    key_text(b.net) + " timeout "@ + decimal(if b.ttl < 1 { 1 } else { b.ttl as nat }) + "s"@
}

fn ban_to_text(b: &Ban) -> (r: String)
    ensures
        r@ == ban_text(*b),
{
    let mut t = key_to_nft(&b.net);
    t.append(" timeout ");
    let secs: u64 = if b.ttl < 1 { 1 } else { b.ttl };
    t.append(u64_to_decimal(secs).as_str());
    t.append("s");
    t
}

/// The texts of the bans that `set_for(.., "ban")` sends to `set`.
pub open spec fn ban_elems(bans: Seq<Ban>, set: Seq<char>) -> Seq<Seq<char>>
    decreases bans.len(),
{
    if bans.len() == 0 {
        seq![]
    } else if set_for_spec(bans.last().net, "ban"@) == set {
        ban_elems(bans.drop_last(), set).push(ban_text(bans.last()))
    } else {
        ban_elems(bans.drop_last(), set)
    }
}

/// The texts of the networks that `set_for(.., "allow")` sends to `set`.
pub open spec fn allow_elems(nets: Seq<Net>, set: Seq<char>) -> Seq<Seq<char>>
    decreases nets.len(),
{
    if nets.len() == 0 {
        seq![]
    } else if set_for_spec(nets.last(), "allow"@) == set {
        allow_elems(nets.drop_last(), set).push(key_text(nets.last()))
    } else {
        allow_elems(nets.drop_last(), set)
    }
}

/// `add element` for `set` when any elements go there.
pub open spec fn element_lines(set: Seq<char>, elems: Seq<Seq<char>>) -> Seq<Seq<char>> {
    if elems.len() == 0 {
        Seq::<Seq<char>>::empty()
    } else {
        seq![add_element_line(set, join(elems, ", "@))]
    }
}

/// The script that adds the bans, each to the ban set of its family.
pub open spec fn ban_lines(bans: Seq<Ban>) -> Seq<Seq<char>> {
    element_lines("ban4"@, ban_elems(bans, "ban4"@)) + element_lines("ban6"@, ban_elems(bans, "ban6"@))
}

/// The script that replaces the allow sets' contents with `nets`.
pub open spec fn allow_lines(nets: Seq<Net>) -> Seq<Seq<char>> {
    seq![flush_set_line("allow4"@)] + element_lines("allow4"@, allow_elems(nets, "allow4"@))
        + seq![flush_set_line("allow6"@)] + element_lines("allow6"@, allow_elems(nets, "allow6"@))
}


/// One run of `nft -f -`: the script, and whether its failure fails the
/// operation (`check`) or is ignored.
pub struct NftStep {
    pub script: String,
    pub check: bool,
}

impl NftStep {
    pub open spec fn view_pair(self) -> (Seq<char>, bool) {
        (self.script@, self.check)
    }
}

/// The steps as (script, check) pairs.
pub open spec fn steps_view(steps: Seq<NftStep>) -> Seq<(Seq<char>, bool)> {
    steps.map_values(|st: NftStep| st.view_pair())
}

/// The backend, holding the path of the `nft` binary.
pub struct Nft {
    nft: String,
}

impl Nft {
    /// The `nft` binary this backend runs.
    pub closed spec fn binary_spec(&self) -> Seq<char> {
        self.nft@
    }

    /// A backend that runs `nft` from the search path.
    pub fn new() -> (r: Self)
        ensures
            r.binary_spec() == "nft"@,
    {
        Self { nft: String::from_str("nft") }
    }

    /// A backend that runs the given binary.
    pub fn with_binary(nft: String) -> (r: Self)
        ensures
            r.binary_spec() == nft@,
    {
        Self { nft }
    }

    pub fn binary(&self) -> (r: &String)
        ensures
            r@ == self.binary_spec(),
    {
        &self.nft
    }

    /// Every set the daemon owns, with its definition body.
    ///
    /// Crowd blocklist sets are populated by minsec-sync (multiplayer
    /// mode); empty and free until the user opts in. The daemon owns the
    /// sets and rules so that flushing its chains on startup cannot strip
    /// crowd filtering. The crowd element timeout is a dead-man's switch:
    /// if minsec-sync stops running the kernel still lets the list decay.
    pub fn set_defs() -> (r: [(&'static str, String); 6])
        ensures
            forall|i: int| 0 <= i < 6 ==> (#[trigger] r@[i]).0@ == set_defs_spec()[i].0
                && r@[i].1@ == set_defs_spec()[i].1,
    {
        let mut crowd4 = String::from_str("{ type ipv4_addr; flags interval, timeout; timeout ");
        crowd4.append(CROWD_TIMEOUT);
        crowd4.append("; }");
        let mut crowd6 = String::from_str("{ type ipv6_addr; flags interval, timeout; timeout ");
        crowd6.append(CROWD_TIMEOUT);
        crowd6.append("; }");
        let r = [
            ("ban4", String::from_str("{ type ipv4_addr; flags interval, timeout; }")),
            ("ban6", String::from_str("{ type ipv6_addr; flags interval, timeout; }")),
            ("allow4", String::from_str("{ type ipv4_addr; flags interval; }")),
            ("allow6", String::from_str("{ type ipv6_addr; flags interval; }")),
            ("crowd4", crowd4),
            ("crowd6", crowd6),
        ];
        r
    }

    /// Create-or-keep both chains and empty them. Rules referencing a set
    /// must be gone before the set can be deleted, and `flush chain` on a
    /// missing chain is an error, hence the `add chain` first.
    pub fn reset_chains(s: &mut String)
        ensures
            final(s)@ == old(s)@ + join_lines(reset_chain_lines()),
    {
        let ghost base = s@;
        let ghost mut done: Seq<Seq<char>> = seq![];
        assert(s@ =~= base + join_lines(done));
        let mut i: usize = 0;
        while i < 2
            invariant
                i <= 2,
                s@ == base + join_lines(done),
                done == reset_chain_lines().take(2 * i as int),
            decreases 2 - i,
        {
            let hook = hook_name(i);
            emit(s, add_chain_line_exec(hook).as_str(), Ghost(base), Ghost(done));
            proof { done = done.push(add_chain_line(hook@)); }
            emit(s, flush_chain_line_exec(hook).as_str(), Ghost(base), Ghost(done));
            proof { done = done.push(flush_chain_line(hook@)); }
            i = i + 1;
            assert(done =~= reset_chain_lines().take(2 * i as int));
        }
        assert(reset_chain_lines().take(4) =~= reset_chain_lines());
    }

    /// The script that creates the table, every set, both chains, and the
    /// rules: per hook, the allow sets accept, then the ban sets and the
    /// crowd sets drop.
    pub fn setup_script() -> (r: String)
        ensures
            r@ == join_lines(setup_lines()),
    {
        let mut s = String::new();
        let ghost base: Seq<char> = seq![];
        let ghost mut done: Seq<Seq<char>> = seq![];
        assert(s@ =~= base + join_lines(done));
        emit(&mut s, add_table_line_exec().as_str(), Ghost(base), Ghost(done));
        proof { done = done.push(add_table_line()); }
        let defs = Self::set_defs();
        let ghost set_lines = set_defs_spec().map_values(|d: (Seq<char>, Seq<char>)| add_set_line(d.0, d.1));
        let mut i: usize = 0;
        while i < 6
            invariant
                i <= 6,
                base == Seq::<char>::empty(),
                forall|k: int| 0 <= k < 6 ==> (#[trigger] defs@[k]).0@ == set_defs_spec()[k].0
                    && defs@[k].1@ == set_defs_spec()[k].1,
                set_lines == set_defs_spec().map_values(|d: (Seq<char>, Seq<char>)| add_set_line(d.0, d.1)),
                s@ == base + join_lines(done),
                done == seq![add_table_line()] + set_lines.take(i as int),
            decreases 6 - i,
        {
            let name = defs[i].0;
            let line = add_set_line_exec(name, defs[i].1.as_str());
            emit(&mut s, line.as_str(), Ghost(base), Ghost(done));
            proof { done = done.push(line@); }
            i = i + 1;
            assert(done =~= seq![add_table_line()] + set_lines.take(i as int));
        }
        assert(set_lines.take(6) =~= set_lines);
        let ghost before_chains = done;
        Self::reset_chains(&mut s);
        proof {
            lemma_join_lines_append(before_chains, reset_chain_lines());
            done = before_chains + reset_chain_lines();
            assert(s@ =~= base + join_lines(done));
        }
        let mut h: usize = 0;
        while h < 2
            invariant
                h <= 2,
                base == Seq::<char>::empty(),
                s@ == base + join_lines(done),
                done == seq![add_table_line()] + set_lines + reset_chain_lines()
                    + (if h >= 1 { hook_rule_lines(hooks()[0]) } else { Seq::<Seq<char>>::empty() })
                    + (if h >= 2 { hook_rule_lines(hooks()[1]) } else { Seq::<Seq<char>>::empty() }),
            decreases 2 - h,
        {
            let hook = hook_name(h);
            let ghost start = done;
            let mut k: usize = 0;
            while k < 6
                invariant
                    k <= 6,
                    h < 2,
                    hook@ == hooks()[h as int],
                    s@ == base + join_lines(done),
                    done == start + hook_rule_lines(hook@).take(k as int),
                decreases 6 - k,
            {
                let (family, set, verdict) = rule_parts(k);
                let line = rule_line_exec(hook, family, set, verdict);
                emit(&mut s, line.as_str(), Ghost(base), Ghost(done));
                proof { done = done.push(line@); }
                k = k + 1;
                assert(done =~= start + hook_rule_lines(hook@).take(k as int));
            }
            assert(hook_rule_lines(hook@).take(6) =~= hook_rule_lines(hook@));
            h = h + 1;
            assert(done =~= seq![add_table_line()] + set_lines + reset_chain_lines()
                    + (if h >= 1 { hook_rule_lines(hooks()[0]) } else { Seq::<Seq<char>>::empty() })
                    + (if h >= 2 { hook_rule_lines(hooks()[1]) } else { Seq::<Seq<char>>::empty() }));
        }
        assert(done =~= setup_lines());
        assert(s@ =~= join_lines(setup_lines()));
        s
    }
}


/// The networks of one family (`v4` or not) among `nets`, in order.
pub open spec fn nets_of_family(nets: Seq<Net>, v4: bool) -> Seq<Net>
    decreases nets.len(),
{
    if nets.len() == 0 {
        seq![]
    } else if (nets.last().addr is V4) == v4 {
        nets_of_family(nets.drop_last(), v4).push(nets.last())
    } else {
        nets_of_family(nets.drop_last(), v4)
    }
}

/// One run per network deleting it from `set`; each may fail unnoticed
/// (deleting a missing element is an error for nft).
pub open spec fn delete_steps(set: Seq<char>, nets: Seq<Net>) -> Seq<(Seq<char>, bool)> {
    nets.map_values(|n: Net| (join_lines(seq![delete_element_line(set, key_text(n))]), false))
}

/// Adding bans: each network first leaves its ban set (re-adding an
/// existing element fails), then one checked run adds them all.
pub open spec fn ban_steps_spec(bans: Seq<Ban>) -> Seq<(Seq<char>, bool)> {
    if bans.len() == 0 {
        seq![]
    } else {
        let nets = bans.map_values(|b: Ban| b.net);
        delete_steps("ban4"@, nets_of_family(nets, true))
            + delete_steps("ban6"@, nets_of_family(nets, false))
            + seq![(join_lines(ban_lines(bans)), true)]
    }
}

/// Lifting bans: each network leaves the ban set of its family.
pub open spec fn unban_steps_spec(nets: Seq<Net>) -> Seq<(Seq<char>, bool)> {
    delete_steps("ban4"@, nets_of_family(nets, true)) + delete_steps("ban6"@, nets_of_family(nets, false))
}

/// Replacing the allow list: one checked run.
pub open spec fn allow_steps_spec(nets: Seq<Net>) -> Seq<(Seq<char>, bool)> {
    seq![(join_lines(allow_lines(nets)), true)]
}

fn single_line_script(line: &str) -> (r: String)
    ensures
        r@ == join_lines(seq![line@]),
{
    let mut s = String::new();
    emit(&mut s, line, Ghost(Seq::<char>::empty()), Ghost(Seq::<Seq<char>>::empty()));
    assert(seq![line@] =~= Seq::<Seq<char>>::empty().push(line@));
    assert(s@ =~= join_lines(seq![line@]));
    s
}

/// Appends the delete runs for the networks of one family.
fn push_delete_steps(steps: &mut Vec<NftStep>, set: &str, nets: &[Net], v4: bool)
    ensures
        steps_view(final(steps)@) == steps_view(old(steps)@) + delete_steps(set@, nets_of_family(nets@, v4)),
{
    let ghost start = steps_view(steps@);
    let mut i: usize = 0;
    while i < nets.len()
        invariant
            i <= nets@.len(),
            steps_view(steps@) == start + delete_steps(set@, nets_of_family(nets@.take(i as int), v4)),
        decreases nets@.len() - i,
    {
        let n = nets[i];
        let ghost before = steps_view(steps@);
        assert(nets@.take(i + 1).drop_last() =~= nets@.take(i as int));
        assert(nets@.take(i + 1).last() == n);
        if n.is_v4() == v4 {
            let line = delete_element_line_exec(set, key_to_nft(&n).as_str());
            let script = single_line_script(line.as_str());
            steps.push(NftStep { script, check: false });
            assert(steps_view(steps@) =~= before.push((script@, false)));
            assert(delete_steps(set@, nets_of_family(nets@.take(i + 1), v4))
                =~= delete_steps(set@, nets_of_family(nets@.take(i as int), v4)).push((script@, false)));
            assert(steps_view(steps@) =~= start + delete_steps(set@, nets_of_family(nets@.take(i + 1), v4)));
        } else {
            assert(nets_of_family(nets@.take(i + 1), v4) == nets_of_family(nets@.take(i as int), v4));
        }
        i = i + 1;
    }
    assert(nets@.take(nets@.len() as int) =~= nets@);
}

/// Appends `add element` for `set` when `elems` is not empty.
fn emit_elements(s: &mut String, set: &str, elems: &Vec<String>, Ghost(base): Ghost<Seq<char>>,
    Ghost(done): Ghost<Seq<Seq<char>>>)
    requires
        old(s)@ == base + join_lines(done),
    ensures
        final(s)@ == base + join_lines(done + element_lines(set@, elems@.map_values(|t: String| t@))),
{
    let ghost texts = elems@.map_values(|t: String| t@);
    if elems.len() == 0 {
        assert(texts.len() == 0);
        assert(done + element_lines(set@, texts) =~= done);
    } else {
        let body = join_strings(elems, ", ");
        let line = add_element_line_exec(set, body.as_str());
        emit(s, line.as_str(), Ghost(base), Ghost(done));
        assert(done + element_lines(set@, texts) =~= done.push(line@));
    }
}

impl Nft {
    /// One transaction that replaces `name` with definition `def` and puts
    /// `entries` back. Elements with a known remaining lifetime keep it;
    /// the rest take the set's default (or none). The chains are emptied
    /// first because their rules pin the set; `setup_script` refills them.
    pub fn recreate_script(name: &str, def: &str, entries: &[Entry]) -> (r: String)
        ensures
            r@ == join_lines(recreate_lines(name@, def@, entries@.map_values(|e: Entry| entry_text(e)))),
    {
        let mut s = String::new();
        let ghost base: Seq<char> = seq![];
        assert(s@ =~= base + join_lines(Seq::<Seq<char>>::empty()));
        Self::reset_chains(&mut s);
        let ghost mut done = reset_chain_lines();
        assert(s@ =~= base + join_lines(done));
        emit(&mut s, delete_set_line_exec(name).as_str(), Ghost(base), Ghost(done));
        proof { done = done.push(delete_set_line(name@)); }
        emit(&mut s, add_set_line_exec(name, def).as_str(), Ghost(base), Ghost(done));
        proof { done = done.push(add_set_line(name@, def@)); }
        let mut elems: Vec<String> = Vec::new();
        let mut i: usize = 0;
        while i < entries.len()
            invariant
                i <= entries@.len(),
                elems@.map_values(|t: String| t@) =~= entries@.take(i as int).map_values(|e: Entry| entry_text(e)),
            decreases entries@.len() - i,
        {
            let ghost prev = elems@.map_values(|t: String| t@);
            let t = entry_to_text(&entries[i]);
            let ghost tv = t@;
            elems.push(t);
            assert(elems@.map_values(|t: String| t@) =~= prev.push(tv));
            assert(entries@.take(i + 1) =~= entries@.take(i as int).push(entries@[i as int]));
            i = i + 1;
            assert(elems@.map_values(|t: String| t@) =~= entries@.take(i as int).map_values(|e: Entry| entry_text(e)));
        }
        assert(entries@.take(entries@.len() as int) =~= entries@);
        let ghost texts = entries@.map_values(|e: Entry| entry_text(e));
        emit_elements(&mut s, name, &elems, Ghost(base), Ghost(done));
        assert(reset_chain_lines() + seq![delete_set_line(name@), add_set_line(name@, def@)] =~= done);
        assert(s@ =~= join_lines(recreate_lines(name@, def@, texts)));
        s
    }

    /// The set a network goes in for `prefix` ("ban" or another).
    pub fn set_for(net: &Net, prefix: &str) -> (r: &'static str)
        ensures
            r@ == set_for_spec(*net, prefix@),
    {
        let ban = str_eq(prefix, "ban");
        match (net.addr, ban) {
            (Addr::V4(_), true) => "ban4",
            (Addr::V6(_), true) => "ban6",
            (Addr::V4(_), false) => "allow4",
            (Addr::V6(_), false) => "allow6",
        }
    }

    /// The runs that put `bans` into the kernel.
    pub fn ban_steps(bans: &[Ban]) -> (r: Vec<NftStep>)
        ensures
            steps_view(r@) == ban_steps_spec(bans@),
    {
        let mut steps: Vec<NftStep> = Vec::new();
        if bans.len() == 0 {
            assert(steps_view(steps@) =~= ban_steps_spec(bans@));
            return steps;
        }
        let mut nets: Vec<Net> = Vec::new();
        let mut i: usize = 0;
        while i < bans.len()
            invariant
                i <= bans@.len(),
                nets@ =~= bans@.take(i as int).map_values(|b: Ban| b.net),
            decreases bans@.len() - i,
        {
            nets.push(bans[i].net);
            i = i + 1;
            assert(nets@ =~= bans@.take(i as int).map_values(|b: Ban| b.net));
        }
        assert(bans@.take(bans@.len() as int) =~= bans@);
        assert(steps_view(steps@) =~= Seq::<(Seq<char>, bool)>::empty());
        push_delete_steps(&mut steps, "ban4", nets.as_slice(), true);
        push_delete_steps(&mut steps, "ban6", nets.as_slice(), false);
        let mut script = String::new();
        let ghost base: Seq<char> = seq![];
        assert(script@ =~= base + join_lines(Seq::<Seq<char>>::empty()));
        let ghost mut done: Seq<Seq<char>> = seq![];
        let mut round: usize = 0;
        while round < 2
            invariant
                round <= 2,
                base == Seq::<char>::empty(),
                script@ == base + join_lines(done),
                done == (if round >= 1 { element_lines("ban4"@, ban_elems(bans@, "ban4"@)) } else { Seq::<Seq<char>>::empty() })
                    + (if round >= 2 { element_lines("ban6"@, ban_elems(bans@, "ban6"@)) } else { Seq::<Seq<char>>::empty() }),
            decreases 2 - round,
        {
            let set = if round == 0 { "ban4" } else { "ban6" };
            let mut elems: Vec<String> = Vec::new();
            let mut j: usize = 0;
            while j < bans.len()
                invariant
                    j <= bans@.len(),
                    elems@.map_values(|t: String| t@) =~= ban_elems(bans@.take(j as int), set@),
                decreases bans@.len() - j,
            {
                assert(bans@.take(j + 1).drop_last() =~= bans@.take(j as int));
                assert(bans@.take(j + 1).last() == bans@[j as int]);
                if str_eq(Self::set_for(&bans[j].net, "ban"), set) {
                    elems.push(ban_to_text(&bans[j]));
                }
                j = j + 1;
                assert(elems@.map_values(|t: String| t@) =~= ban_elems(bans@.take(j as int), set@));
            }
            assert(bans@.take(bans@.len() as int) =~= bans@);
            emit_elements(&mut script, set, &elems, Ghost(base), Ghost(done));
            proof { done = done + element_lines(set@, ban_elems(bans@, set@)); }
            round = round + 1;
            assert(done =~= (if round >= 1 { element_lines("ban4"@, ban_elems(bans@, "ban4"@)) } else { Seq::<Seq<char>>::empty() })
                    + (if round >= 2 { element_lines("ban6"@, ban_elems(bans@, "ban6"@)) } else { Seq::<Seq<char>>::empty() }));
        }
        assert(done =~= ban_lines(bans@));
        let ghost before = steps_view(steps@);
        let final_script = script;
        steps.push(NftStep { script: final_script, check: true });
        assert(steps_view(steps@) =~= before.push((final_script@, true)));
        assert(steps_view(steps@) =~= ban_steps_spec(bans@));
        steps
    }

    /// The runs that take `nets` out of the ban sets.
    pub fn unban_steps(nets: &[Net]) -> (r: Vec<NftStep>)
        ensures
            steps_view(r@) == unban_steps_spec(nets@),
    {
        let mut steps: Vec<NftStep> = Vec::new();
        assert(steps_view(steps@) =~= Seq::<(Seq<char>, bool)>::empty());
        push_delete_steps(&mut steps, "ban4", nets, true);
        push_delete_steps(&mut steps, "ban6", nets, false);
        assert(steps_view(steps@) =~= unban_steps_spec(nets@));
        steps
    }

    /// The run that makes the allow sets hold exactly `nets`.
    pub fn allow_steps(nets: &[Net]) -> (r: Vec<NftStep>)
        ensures
            steps_view(r@) == allow_steps_spec(nets@),
    {
        let mut script = String::new();
        let ghost base: Seq<char> = seq![];
        assert(script@ =~= base + join_lines(Seq::<Seq<char>>::empty()));
        let ghost mut done: Seq<Seq<char>> = seq![];
        let mut round: usize = 0;
        while round < 2
            invariant
                round <= 2,
                base == Seq::<char>::empty(),
                script@ == base + join_lines(done),
                done == (if round >= 1 { seq![flush_set_line("allow4"@)] + element_lines("allow4"@, allow_elems(nets@, "allow4"@)) } else { Seq::<Seq<char>>::empty() })
                    + (if round >= 2 { seq![flush_set_line("allow6"@)] + element_lines("allow6"@, allow_elems(nets@, "allow6"@)) } else { Seq::<Seq<char>>::empty() }),
            decreases 2 - round,
        {
            let set = if round == 0 { "allow4" } else { "allow6" };
            emit(&mut script, flush_set_line_exec(set).as_str(), Ghost(base), Ghost(done));
            proof { done = done.push(flush_set_line(set@)); }
            let mut elems: Vec<String> = Vec::new();
            let mut j: usize = 0;
            while j < nets.len()
                invariant
                    j <= nets@.len(),
                    elems@.map_values(|t: String| t@) =~= allow_elems(nets@.take(j as int), set@),
                decreases nets@.len() - j,
            {
                assert(nets@.take(j + 1).drop_last() =~= nets@.take(j as int));
                assert(nets@.take(j + 1).last() == nets@[j as int]);
                if str_eq(Self::set_for(&nets[j], "allow"), set) {
                    elems.push(key_to_nft(&nets[j]));
                }
                j = j + 1;
                assert(elems@.map_values(|t: String| t@) =~= allow_elems(nets@.take(j as int), set@));
            }
            assert(nets@.take(nets@.len() as int) =~= nets@);
            emit_elements(&mut script, set, &elems, Ghost(base), Ghost(done));
            proof { done = done + element_lines(set@, allow_elems(nets@, set@)); }
            round = round + 1;
            assert(done =~= (if round >= 1 { seq![flush_set_line("allow4"@)] + element_lines("allow4"@, allow_elems(nets@, "allow4"@)) } else { Seq::<Seq<char>>::empty() })
                    + (if round >= 2 { seq![flush_set_line("allow6"@)] + element_lines("allow6"@, allow_elems(nets@, "allow6"@)) } else { Seq::<Seq<char>>::empty() }));
        }
        assert(done =~= allow_lines(nets@));
        let mut steps: Vec<NftStep> = Vec::new();
        let final_script = script;
        steps.push(NftStep { script: final_script, check: true });
        assert(steps_view(steps@) =~= allow_steps_spec(nets@));
        steps
    }
}


/// The network a JSON value of `nft -j` names: a string holding an
/// address (a single-address network) or a network `addr/len`, or an
/// object `{"prefix": {"addr": .., "len": ..}}` (the length taken modulo
/// 256, as a cast to `u8` does).
pub open spec fn json_to_net_spec(v: Json) -> Option<Net> {
    match json_as_str(v) {
        Some(s) => match addr_from_text(s) {
            Some(a) => Some(Net { addr: a, len: addr_bits(a) }),
            None => ipnet_from_text(s),
        },
        None => match json_get(v, "prefix"@) {
            None => None,
            Some(p) => {
                let addr = match json_get(p, "addr"@) {
                    Some(a) => json_as_str(a),
                    None => None,
                };
                let len = match json_get(p, "len"@) {
                    Some(l) => json_as_u64(l),
                    None => None,
                };
                match (addr, len) {
                    (Some(a), Some(l)) => ipnet_from_text(a + "/"@ + decimal((l % 256) as nat)),
                    _ => None,
                }
            },
        },
    }
}

/// Reads the network a JSON value names.
pub fn json_to_net(v: &Json) -> (r: Option<Net>)
    ensures
        r == json_to_net_spec(*v),
        r matches Some(n) ==> n.wf(),
{
    if let Some(s) = v.as_str() {
        if let Some(a) = parse_addr(s.as_str()) {
            return Some(Net::from_addr(a));
        }
        return parse_ip_net(s.as_str());
    }
    let p = match v.get("prefix") {
        Some(p) => p,
        None => {
            return None;
        },
    };
    let addr = match p.get("addr") {
        Some(a) => match a.as_str() {
            Some(t) => t,
            None => {
                return None;
            },
        },
        None => {
            return None;
        },
    };
    let len = match p.get("len") {
        Some(l) => match l.as_u64() {
            Some(n) => n,
            None => {
                return None;
            },
        },
        None => {
            return None;
        },
    };
    let mut text = String::from_str(addr.as_str());
    text.append("/");
    text.append(u64_to_decimal(len % 256).as_str());
    parse_ip_net(text.as_str())
}

/// What one element of a set listing holds: a bare value, or an object
/// `{"elem": {"val": .., "expires": ..}}` (a missing `val` reads as null).
pub open spec fn elem_parts(e: Json) -> (Json, Option<u64>) {
    match e {
        Json::Object(m) => match members_get(m@, "elem"@) {
            Some(inner) => (
                match json_get(inner, "val"@) {
                    Some(x) => x,
                    None => Json::Null,
                },
                match json_get(inner, "expires"@) {
                    Some(x) => json_as_u64(x),
                    None => None,
                },
            ),
            None => (e, None),
        },
        _ => (e, None),
    }
}

/// The entry one listed element gives, if its value names a network.
pub open spec fn elem_entry(e: Json) -> Option<Entry> {
    let (val, expires) = elem_parts(e);
    match json_to_net_spec(val) {
        Some(net) => Some(Entry { net, expires_in: expires }),
        None => None,
    }
}

/// The entries of a list of elements, in order.
pub open spec fn elems_entries(es: Seq<Json>) -> Seq<Entry>
    decreases es.len(),
{
    if es.len() == 0 {
        seq![]
    } else {
        match elem_entry(es.last()) {
            Some(e) => elems_entries(es.drop_last()).push(e),
            None => elems_entries(es.drop_last()),
        }
    }
}

/// The elements of one object of the listing: `set.elem`, if an array.
pub open spec fn obj_elems(o: Json) -> Option<Seq<Json>> {
    match json_get(o, "set"@) {
        Some(set) => match json_get(set, "elem"@) {
            Some(el) => json_as_array(el),
            None => None,
        },
        None => None,
    }
}

pub open spec fn objs_entries(objs: Seq<Json>) -> Seq<Entry>
    decreases objs.len(),
{
    if objs.len() == 0 {
        seq![]
    } else {
        objs_entries(objs.drop_last()) + match obj_elems(objs.last()) {
            Some(es) => elems_entries(es),
            None => seq![],
        }
    }
}

/// The entries of `nft -j list set` output: the elements of every
/// `set` object under `nftables`, in order; nothing when there is no
/// `nftables` array.
pub open spec fn listing_entries(v: Json) -> Seq<Entry> {
    match json_get(v, "nftables"@) {
        Some(n) => match json_as_array(n) {
            Some(objs) => objs_entries(objs),
            None => seq![],
        },
        None => seq![],
    }
}

fn elem_to_entry(e: &Json) -> (r: Option<Entry>)
    ensures
        r == elem_entry(*e),
{
    let (val, expires): (Option<&Json>, Option<u64>) = match e {
        Json::Object(_) => match e.get("elem") {
            Some(inner) => (
                inner.get("val"),
                match inner.get("expires") {
                    Some(x) => x.as_u64(),
                    None => None,
                },
            ),
            None => (Some(e), None),
        },
        _ => (Some(e), None),
    };
    match val {
        Some(v) => match json_to_net(v) {
            Some(net) => Some(Entry { net, expires_in: expires }),
            None => None,
        },
        None => {
            assert(json_to_net_spec(Json::Null) is None);
            None
        },
    }
}

impl Nft {
    /// The entries of a set as `nft -j list set` prints it: its output is
    /// parsed as JSON and read as a listing; output that is no JSON gives
    /// the parser's error text.
    pub fn entries_from_output(stdout: &[u8]) -> (r: Result<Vec<Entry>, String>)
        ensures
            match (r, json_from_bytes(stdout@)) {
                (Ok(es), Ok(v)) => es@ == listing_entries(v),
                (Err(e), Err(t)) => e@ == t,
                _ => false,
            },
    {
        match parse_json(stdout) {
            Ok(v) => Ok(Self::entries_from_listing(&v)),
            Err(e) => Err(e),
        }
    }

    /// The entries of a set listing (`nft -j list set` output, parsed).
    pub fn entries_from_listing(listing: &Json) -> (r: Vec<Entry>)
        ensures
            r@ == listing_entries(*listing),
    {
        let mut entries: Vec<Entry> = Vec::new();
        let objs = match listing.get("nftables") {
            Some(n) => match n.as_array() {
                Some(a) => a,
                None => {
                    return entries;
                },
            },
            None => {
                return entries;
            },
        };
        let mut i: usize = 0;
        while i < objs.len()
            invariant
                i <= objs@.len(),
                listing_entries(*listing) == objs_entries(objs@),
                entries@ == objs_entries(objs@.take(i as int)),
            decreases objs@.len() - i,
        {
            assert(objs@.take(i + 1).drop_last() =~= objs@.take(i as int));
            assert(objs@.take(i + 1).last() == objs@[i as int]);
            let o = &objs[i];
            let elems = match o.get("set") {
                Some(set) => match set.get("elem") {
                    Some(el) => el.as_array(),
                    None => None,
                },
                None => None,
            };
            match elems {
                Some(es) => {
                    let ghost start = entries@;
                    let mut j: usize = 0;
                    assert(start =~= start + elems_entries(es@.take(0)));
                    while j < es.len()
                        invariant
                            j <= es@.len(),
                            entries@ == start + elems_entries(es@.take(j as int)),
                        decreases es@.len() - j,
                    {
                        assert(es@.take(j + 1).drop_last() =~= es@.take(j as int));
                        assert(es@.take(j + 1).last() == es@[j as int]);
                        match elem_to_entry(&es[j]) {
                            Some(e) => {
                                entries.push(e);
                                assert(entries@ =~= start + elems_entries(es@.take(j + 1)));
                            },
                            None => {},
                        }
                        j = j + 1;
                    }
                    assert(es@.take(es@.len() as int) =~= es@);
                },
                None => {
                    assert(entries@ =~= objs_entries(objs@.take(i as int)) + Seq::<Entry>::empty());
                },
            }
            i = i + 1;
        }
        assert(objs@.take(objs@.len() as int) =~= objs@);
        entries
    }
}


/// Where `setup` stands, between runs of `nft`.
pub enum SetupState {
    /// The setup script has been sent.
    Initial,
    /// The probe of set `index` has been sent; `rebuilt` holds the sets
    /// rebuilt so far, by index into `set_defs`.
    Probing { index: usize, rebuilt: Vec<usize> },
    /// The listing of set `index` has been requested.
    Listing { index: usize, rebuilt: Vec<usize> },
    /// The script rebuilding set `index` has been sent.
    Recreating { index: usize, rebuilt: Vec<usize> },
    /// Sets were rebuilt and the setup script has been sent again.
    Final,
    /// Setup has finished.
    Done,
}

/// What came of the last order.
pub enum SetupEvent {
    /// The script ran without error.
    Succeeded,
    /// The script (or the listing) failed.
    Failed,
    /// The listing read these entries.
    Listed(Vec<Entry>),
}

/// What to do next.
pub enum SetupAction {
    /// Run this script.
    Run(String),
    /// List the elements of this set.
    List(&'static str),
    /// Setup succeeded.
    Succeed,
    /// Setup failed with the error of the first run of the setup script.
    FailWithFirstError,
    /// Setup failed with the error of the order just carried out.
    FailWithLastError,
}

/// `SetupState` as a value.
pub enum SetupPhase {
    Initial,
    Probing(int, Seq<usize>),
    Listing(int, Seq<usize>),
    Recreating(int, Seq<usize>),
    Final,
    Done,
}

/// `SetupEvent` as a value.
pub enum SetupOutcome {
    Succeeded,
    Failed,
    Listed(Seq<Entry>),
}

/// `SetupAction` as a value.
pub enum SetupOrder {
    Run(Seq<char>),
    List(Seq<char>),
    Succeed,
    FailWithFirstError,
    FailWithLastError,
}

pub open spec fn phase_of(s: SetupState) -> SetupPhase {
    match s {
        SetupState::Initial => SetupPhase::Initial,
        SetupState::Probing { index, rebuilt } => SetupPhase::Probing(index as int, rebuilt@),
        SetupState::Listing { index, rebuilt } => SetupPhase::Listing(index as int, rebuilt@),
        SetupState::Recreating { index, rebuilt } => SetupPhase::Recreating(index as int, rebuilt@),
        SetupState::Final => SetupPhase::Final,
        SetupState::Done => SetupPhase::Done,
    }
}

pub open spec fn outcome_of(e: SetupEvent) -> SetupOutcome {
    match e {
        SetupEvent::Succeeded => SetupOutcome::Succeeded,
        SetupEvent::Failed => SetupOutcome::Failed,
        SetupEvent::Listed(es) => SetupOutcome::Listed(es@),
    }
}

pub open spec fn order_of(a: SetupAction) -> SetupOrder {
    match a {
        SetupAction::Run(s) => SetupOrder::Run(s@),
        SetupAction::List(n) => SetupOrder::List(n@),
        SetupAction::Succeed => SetupOrder::Succeed,
        SetupAction::FailWithFirstError => SetupOrder::FailWithFirstError,
        SetupAction::FailWithLastError => SetupOrder::FailWithLastError,
    }
}

/// `add set` succeeds when the set is absent or identical and fails with
/// EEXIST when it exists with another definition: the probe of set `i`.
pub open spec fn probe_lines(i: int) -> Seq<Seq<char>> {
    seq![add_table_line(), add_set_line(set_defs_spec()[i].0, set_defs_spec()[i].1)]
}

/// Go on probing at set `i`, or finish once every set has been probed:
/// with nothing rebuilt setup fails with its first error, else the setup
/// script runs again.
pub open spec fn probe_from(i: int, rebuilt: Seq<usize>) -> (SetupPhase, SetupOrder) {
    if i < 6 {
        (SetupPhase::Probing(i, rebuilt), SetupOrder::Run(join_lines(probe_lines(i))))
    } else if rebuilt.len() == 0 {
        (SetupPhase::Done, SetupOrder::FailWithFirstError)
    } else {
        (SetupPhase::Final, SetupOrder::Run(join_lines(setup_lines())))
    }
}

/// The outcome a phase waits for.
pub open spec fn awaits(p: SetupPhase, e: SetupOutcome) -> bool {
    match p {
        SetupPhase::Listing(_, _) => !(e is Succeeded),
        SetupPhase::Done => false,
        _ => !(e is Listed),
    }
}

/// One step of setup: the setup script is run; if it fails, every set is
/// probed in order and each one whose probe fails is listed and rebuilt
/// with its entries; then the setup script runs once more. A failed
/// listing or rebuild ends setup with that failure.
pub open spec fn setup_transition(p: SetupPhase, e: SetupOutcome) -> (SetupPhase, SetupOrder) {
    match p {
        SetupPhase::Initial => match e {
            SetupOutcome::Succeeded => (SetupPhase::Done, SetupOrder::Succeed),
            _ => probe_from(0, seq![]),
        },
        SetupPhase::Probing(i, rb) => match e {
            SetupOutcome::Succeeded => probe_from(i + 1, rb),
            _ => (SetupPhase::Listing(i, rb), SetupOrder::List(set_defs_spec()[i].0)),
        },
        SetupPhase::Listing(i, rb) => match e {
            SetupOutcome::Listed(entries) => (
                SetupPhase::Recreating(i, rb),
                SetupOrder::Run(join_lines(recreate_lines(
                    set_defs_spec()[i].0,
                    set_defs_spec()[i].1,
                    entries.map_values(|en: Entry| entry_text(en)),
                ))),
            ),
            _ => (SetupPhase::Done, SetupOrder::FailWithLastError),
        },
        SetupPhase::Recreating(i, rb) => match e {
            SetupOutcome::Succeeded => probe_from(i + 1, rb.push(i as usize)),
            _ => (SetupPhase::Done, SetupOrder::FailWithLastError),
        },
        SetupPhase::Final => match e {
            SetupOutcome::Succeeded => (SetupPhase::Done, SetupOrder::Succeed),
            _ => (SetupPhase::Done, SetupOrder::FailWithLastError),
        },
        SetupPhase::Done => (SetupPhase::Done, SetupOrder::FailWithLastError),
    }
}

/// The phases setup can be in: probe indices within the set list, and the
/// rebuilt sets listed in order, each below the current index.
pub open spec fn phase_wf(p: SetupPhase) -> bool {
    match p {
        SetupPhase::Probing(i, rb) => progress_wf(i, rb),
        SetupPhase::Listing(i, rb) => progress_wf(i, rb),
        SetupPhase::Recreating(i, rb) => progress_wf(i, rb),
        _ => true,
    }
}

/// Set `i` is being handled and `rebuilt` lists earlier sets in order.
pub open spec fn progress_wf(i: int, rebuilt: Seq<usize>) -> bool {
    &&& 0 <= i < 6
    &&& forall|a: int, b: int| 0 <= a < b < rebuilt.len() ==> rebuilt[a] < rebuilt[b]
    &&& forall|a: int| 0 <= a < rebuilt.len() ==> rebuilt[a] < i
}

fn probe_script(i: usize) -> (r: String)
    requires
        i < 6,
    ensures
        r@ == join_lines(probe_lines(i as int)),
{
    let defs = Nft::set_defs();
    let mut s = String::new();
    let ghost base: Seq<char> = seq![];
    assert(s@ =~= base + join_lines(Seq::<Seq<char>>::empty()));
    emit(&mut s, add_table_line_exec().as_str(), Ghost(base), Ghost(Seq::<Seq<char>>::empty()));
    let ghost done = Seq::<Seq<char>>::empty().push(add_table_line());
    emit(&mut s, add_set_line_exec(defs[i].0, defs[i].1.as_str()).as_str(), Ghost(base), Ghost(done));
    assert(done.push(add_set_line(set_defs_spec()[i as int].0, set_defs_spec()[i as int].1)) =~= probe_lines(i as int));
    assert(s@ =~= join_lines(probe_lines(i as int)));
    s
}

fn probe_from_exec(i: usize, rebuilt: Vec<usize>) -> (r: (SetupState, SetupAction))
    requires
        i <= 6,
    ensures
        (phase_of(r.0), order_of(r.1)) == probe_from(i as int, rebuilt@),
{
    if i < 6 {
        (SetupState::Probing { index: i, rebuilt }, SetupAction::Run(probe_script(i)))
    } else if rebuilt.len() == 0 {
        (SetupState::Done, SetupAction::FailWithFirstError)
    } else {
        (SetupState::Final, SetupAction::Run(Nft::setup_script()))
    }
}

impl Nft {
    /// Setup begins by running the setup script.
    pub fn setup_begin() -> (r: (SetupState, SetupAction))
        ensures
            phase_of(r.0) == SetupPhase::Initial,
            order_of(r.1) == SetupOrder::Run(join_lines(setup_lines())),
    {
        (SetupState::Initial, SetupAction::Run(Self::setup_script()))
    }

    /// The next state and order once `event` reports how the last order
    /// went.
    pub fn setup_step(state: SetupState, event: SetupEvent) -> (r: (SetupState, SetupAction))
        requires
            phase_wf(phase_of(state)),
            awaits(phase_of(state), outcome_of(event)),
        ensures
            (phase_of(r.0), order_of(r.1)) == setup_transition(phase_of(state), outcome_of(event)),
    {
        match state {
            SetupState::Initial => match event {
                SetupEvent::Succeeded => (SetupState::Done, SetupAction::Succeed),
                _ => probe_from_exec(0, Vec::new()),
            },
            SetupState::Probing { index, rebuilt } => match event {
                SetupEvent::Succeeded => probe_from_exec(index + 1, rebuilt),
                _ => {
                    let defs = Self::set_defs();
                    (SetupState::Listing { index, rebuilt }, SetupAction::List(defs[index].0))
                },
            },
            SetupState::Listing { index, rebuilt } => match event {
                SetupEvent::Listed(entries) => {
                    let defs = Self::set_defs();
                    let script = Self::recreate_script(defs[index].0, defs[index].1.as_str(), entries.as_slice());
                    (SetupState::Recreating { index, rebuilt }, SetupAction::Run(script))
                },
                _ => (SetupState::Done, SetupAction::FailWithLastError),
            },
            SetupState::Recreating { index, rebuilt } => match event {
                SetupEvent::Succeeded => {
                    let mut rb = rebuilt;
                    rb.push(index);
                    probe_from_exec(index + 1, rb)
                },
                _ => (SetupState::Done, SetupAction::FailWithLastError),
            },
            SetupState::Final => match event {
                SetupEvent::Succeeded => (SetupState::Done, SetupAction::Succeed),
                _ => (SetupState::Done, SetupAction::FailWithLastError),
            },
            SetupState::Done => (SetupState::Done, SetupAction::FailWithLastError),
        }
    }
}

} // verus!

verus! {

impl Default for Nft {
    fn default() -> (r: Self)
        ensures
            r.binary_spec() == "nft"@,
    {
        Self::new()
    }
}

} // verus!
