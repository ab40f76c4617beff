//! What holds of every script the nftables backend runs: each line is a
//! whole command that names `inet minsec`, the one table minsec owns.

use vstd::prelude::*;
use crate::net::{Addr, Net, addr_text, hex_groups, ipv4_text, ipv6_text, is_ipv4_mapped, key_text, segments, zero_span};
use crate::nft::{
    TABLE, CROWD_TIMEOUT, join_lines, add_table_line, add_set_line, delete_set_line, add_chain_line,
    flush_chain_line, flush_set_line, add_element_line, delete_element_line, rule_line, Ban, Entry,
    SetupOrder, SetupOutcome, SetupPhase, allow_elems, allow_lines, allow_steps_spec, ban_elems, ban_lines,
    ban_steps_spec, ban_text, delete_steps, element_lines, entry_text, hook_rule_lines, hooks, nets_of_family,
    phase_wf, probe_lines, recreate_lines, reset_chain_lines, rules, set_defs_spec, setup_lines,
    setup_transition, unban_steps_spec,
};
use crate::text::{decimal, digit_char, hex, hex_digit_char, join};

verus! {

/// No line break inside.
pub open spec fn no_newline(s: Seq<char>) -> bool {
    forall|i: int| 0 <= i < s.len() ==> s[i] != '\n'
}

/// The text contains `inet minsec`.
pub open spec fn mentions_table(line: Seq<char>) -> bool {
    exists|k: int| 0 <= k && k + TABLE@.len() <= line.len()
        && #[trigger] line.subrange(k, k + TABLE@.len()) == TABLE@
}

/// Every line is a single line that names our table.
pub open spec fn lines_scoped(lines: Seq<Seq<char>>) -> bool {
    forall|i: int| 0 <= i < lines.len() ==> no_newline(#[trigger] lines[i]) && mentions_table(lines[i])
}

/// A script whose lines all name our table.
pub open spec fn script_scoped(s: Seq<char>) -> bool {
    exists|lines: Seq<Seq<char>>| s == join_lines(lines) && lines_scoped(lines)
}

proof fn lemma_no_newline_add(a: Seq<char>, b: Seq<char>)
    requires
        no_newline(a),
        no_newline(b),
    ensures
        no_newline(a + b),
{
    assert forall|i: int| 0 <= i < (a + b).len() implies (a + b)[i] != '\n' by {
        if i < a.len() {
            assert((a + b)[i] == a[i]);
        } else {
            assert((a + b)[i] == b[i - a.len()]);
        }
    }
}

proof fn lemma_mentions(p: Seq<char>, rest: Seq<char>)
    ensures
        mentions_table(p + TABLE@ + rest),
{
    let line = p + TABLE@ + rest;
    let k = p.len() as int;
    assert(line.subrange(k, k + TABLE@.len()) =~= TABLE@);
}

proof fn lemma_decimal_no_newline(n: nat)
    ensures
        no_newline(decimal(n)),
    decreases n,
{
    if n < 10 {
        assert(no_newline(seq![digit_char(n)]));
    } else {
        lemma_decimal_no_newline(n / 10);
        assert(no_newline(seq![digit_char(n % 10)]));
        lemma_no_newline_add(decimal(n / 10), seq![digit_char(n % 10)]);
    }
}

proof fn lemma_hex_no_newline(n: nat)
    ensures
        no_newline(hex(n)),
    decreases n,
{
    if n < 16 {
        assert(no_newline(seq![hex_digit_char(n)]));
    } else {
        lemma_hex_no_newline(n / 16);
        assert(no_newline(seq![hex_digit_char(n % 16)]));
        lemma_no_newline_add(hex(n / 16), seq![hex_digit_char(n % 16)]);
    }
}

proof fn lemma_join_no_newline(items: Seq<Seq<char>>, sep: Seq<char>)
    requires
        forall|i: int| 0 <= i < items.len() ==> no_newline(#[trigger] items[i]),
        no_newline(sep),
    ensures
        no_newline(join(items, sep)),
    decreases items.len(),
{
    if items.len() == 0 {
    } else if items.len() == 1 {
    } else {
        let init = items.drop_last();
        assert forall|i: int| 0 <= i < init.len() implies no_newline(#[trigger] init[i]) by {
            assert(init[i] == items[i]);
        }
        lemma_join_no_newline(init, sep);
        lemma_no_newline_add(join(init, sep), sep);
        lemma_no_newline_add(join(init, sep) + sep, items.last());
    }
}

proof fn lemma_hex_groups_no_newline(g: Seq<u16>)
    ensures
        no_newline(hex_groups(g)),
{
    let items = g.map_values(|x: u16| hex(x as nat));
    assert forall|i: int| 0 <= i < items.len() implies no_newline(#[trigger] items[i]) by {
        lemma_hex_no_newline(g[i] as nat);
    }
    assert(no_newline(seq![':']));
    lemma_join_no_newline(items, seq![':']);
}

proof fn lemma_ipv4_text_no_newline(a: u32)
    ensures
        no_newline(ipv4_text(a)),
{
    let d0 = decimal(((a >> 24u32) & 0xffu32) as nat);
    let d1 = decimal(((a >> 16u32) & 0xffu32) as nat);
    let d2 = decimal(((a >> 8u32) & 0xffu32) as nat);
    let d3 = decimal((a & 0xffu32) as nat);
    lemma_decimal_no_newline(((a >> 24u32) & 0xffu32) as nat);
    lemma_decimal_no_newline(((a >> 16u32) & 0xffu32) as nat);
    lemma_decimal_no_newline(((a >> 8u32) & 0xffu32) as nat);
    lemma_decimal_no_newline((a & 0xffu32) as nat);
    let dot = seq!['.'];
    assert(no_newline(dot));
    lemma_no_newline_add(d0, dot);
    lemma_no_newline_add(d0 + dot, d1);
    lemma_no_newline_add(d0 + dot + d1, dot);
    lemma_no_newline_add(d0 + dot + d1 + dot, d2);
    lemma_no_newline_add(d0 + dot + d1 + dot + d2, dot);
    lemma_no_newline_add(d0 + dot + d1 + dot + d2 + dot, d3);
}

proof fn lemma_ipv6_text_no_newline(a: u128)
    ensures
        no_newline(ipv6_text(a)),
{
    let g = segments(a);
    if is_ipv4_mapped(g) {
        let p = seq![':', ':', 'f', 'f', 'f', 'f', ':'];
        assert(no_newline(p));
        lemma_ipv4_text_no_newline((a & 0xffff_ffffu128) as u32);
        lemma_no_newline_add(p, ipv4_text((a & 0xffff_ffffu128) as u32));
    } else {
        let (s, l) = zero_span(g);
        if l > 1 {
            let h = hex_groups(g.subrange(0, s));
            let t = hex_groups(g.subrange(s + l, 8));
            lemma_hex_groups_no_newline(g.subrange(0, s));
            lemma_hex_groups_no_newline(g.subrange(s + l, 8));
            assert(no_newline(seq![':', ':']));
            lemma_no_newline_add(h, seq![':', ':']);
            lemma_no_newline_add(h + seq![':', ':'], t);
        } else {
            lemma_hex_groups_no_newline(g);
        }
    }
}

pub proof fn lemma_key_text_no_newline(n: Net)
    ensures
        no_newline(key_text(n)),
{
    let at = addr_text(n.addr);
    match n.addr {
        Addr::V4(x) => lemma_ipv4_text_no_newline(x),
        Addr::V6(x) => lemma_ipv6_text_no_newline(x),
    }
    lemma_decimal_no_newline(n.len as nat);
    assert(no_newline(seq!['/']));
    lemma_no_newline_add(at, seq!['/']);
    lemma_no_newline_add(at + seq!['/'], decimal(n.len as nat));
}


proof fn lemma_line_literals()
    ensures
        no_newline("add table "@),
        no_newline("inet minsec"@),
        no_newline("add set "@),
        no_newline(" "@),
        no_newline("delete set "@),
        no_newline("add chain "@),
        no_newline(" { type filter hook "@),
        no_newline(" priority -10; policy accept; }"@),
        no_newline("flush chain "@),
        no_newline("flush set "@),
        no_newline("add element "@),
        no_newline(" { "@),
        no_newline(" }"@),
        no_newline("delete element "@),
        no_newline("add rule "@),
        no_newline(" saddr @"@),
{
    reveal_strlit("add table ");
    reveal_strlit("inet minsec");
    reveal_strlit("add set ");
    reveal_strlit(" ");
    reveal_strlit("delete set ");
    reveal_strlit("add chain ");
    reveal_strlit(" { type filter hook ");
    reveal_strlit(" priority -10; policy accept; }");
    reveal_strlit("flush chain ");
    reveal_strlit("flush set ");
    reveal_strlit("add element ");
    reveal_strlit(" { ");
    reveal_strlit(" }");
    reveal_strlit("delete element ");
    reveal_strlit("add rule ");
    reveal_strlit(" saddr @");
}

/// A line `p`, the table, `rest` is one line that names the table.
proof fn lemma_line(line: Seq<char>, p: Seq<char>, rest: Seq<char>)
    requires
        line == p + TABLE@ + rest,
        no_newline(p),
        no_newline(rest),
    ensures
        no_newline(line),
        mentions_table(line),
{
    lemma_line_literals();
    lemma_no_newline_add(p, TABLE@);
    lemma_no_newline_add(p + TABLE@, rest);
    lemma_mentions(p, rest);
}

pub open spec fn line_scoped(line: Seq<char>) -> bool {
    no_newline(line) && mentions_table(line)
}

pub proof fn lemma_add_table_line()
    ensures
        line_scoped(add_table_line()),
{
    lemma_line_literals();
    assert(no_newline(Seq::<char>::empty()));
    assert(add_table_line() =~= "add table "@ + TABLE@ + Seq::<char>::empty());
    lemma_line(add_table_line(), "add table "@, Seq::<char>::empty());
}

pub proof fn lemma_add_set_line(name: Seq<char>, def: Seq<char>)
    requires
        no_newline(name),
        no_newline(def),
    ensures
        line_scoped(add_set_line(name, def)),
{
    lemma_line_literals();
    let rest = " "@ + name + " "@ + def;
    lemma_no_newline_add(" "@, name);
    lemma_no_newline_add(" "@ + name, " "@);
    lemma_no_newline_add(" "@ + name + " "@, def);
    assert(add_set_line(name, def) =~= "add set "@ + TABLE@ + rest);
    lemma_line(add_set_line(name, def), "add set "@, rest);
}

pub proof fn lemma_delete_set_line(name: Seq<char>)
    requires
        no_newline(name),
    ensures
        line_scoped(delete_set_line(name)),
{
    lemma_line_literals();
    let rest = " "@ + name;
    lemma_no_newline_add(" "@, name);
    assert(delete_set_line(name) =~= "delete set "@ + TABLE@ + rest);
    lemma_line(delete_set_line(name), "delete set "@, rest);
}

pub proof fn lemma_add_chain_line(hook: Seq<char>)
    requires
        no_newline(hook),
    ensures
        line_scoped(add_chain_line(hook)),
{
    lemma_line_literals();
    let rest = " "@ + hook + " { type filter hook "@ + hook + " priority -10; policy accept; }"@;
    lemma_no_newline_add(" "@, hook);
    lemma_no_newline_add(" "@ + hook, " { type filter hook "@);
    lemma_no_newline_add(" "@ + hook + " { type filter hook "@, hook);
    lemma_no_newline_add(" "@ + hook + " { type filter hook "@ + hook, " priority -10; policy accept; }"@);
    assert(add_chain_line(hook) =~= "add chain "@ + TABLE@ + rest);
    lemma_line(add_chain_line(hook), "add chain "@, rest);
}

pub proof fn lemma_flush_chain_line(hook: Seq<char>)
    requires
        no_newline(hook),
    ensures
        line_scoped(flush_chain_line(hook)),
{
    lemma_line_literals();
    let rest = " "@ + hook;
    lemma_no_newline_add(" "@, hook);
    assert(flush_chain_line(hook) =~= "flush chain "@ + TABLE@ + rest);
    lemma_line(flush_chain_line(hook), "flush chain "@, rest);
}

pub proof fn lemma_flush_set_line(set: Seq<char>)
    requires
        no_newline(set),
    ensures
        line_scoped(flush_set_line(set)),
{
    lemma_line_literals();
    let rest = " "@ + set;
    lemma_no_newline_add(" "@, set);
    assert(flush_set_line(set) =~= "flush set "@ + TABLE@ + rest);
    lemma_line(flush_set_line(set), "flush set "@, rest);
}

pub proof fn lemma_add_element_line(set: Seq<char>, elems: Seq<char>)
    requires
        no_newline(set),
        no_newline(elems),
    ensures
        line_scoped(add_element_line(set, elems)),
{
    lemma_line_literals();
    let rest = " "@ + set + " { "@ + elems + " }"@;
    lemma_no_newline_add(" "@, set);
    lemma_no_newline_add(" "@ + set, " { "@);
    lemma_no_newline_add(" "@ + set + " { "@, elems);
    lemma_no_newline_add(" "@ + set + " { "@ + elems, " }"@);
    assert(add_element_line(set, elems) =~= "add element "@ + TABLE@ + rest);
    lemma_line(add_element_line(set, elems), "add element "@, rest);
}

pub proof fn lemma_delete_element_line(set: Seq<char>, elem: Seq<char>)
    requires
        no_newline(set),
        no_newline(elem),
    ensures
        line_scoped(delete_element_line(set, elem)),
{
    lemma_line_literals();
    let rest = " "@ + set + " { "@ + elem + " }"@;
    lemma_no_newline_add(" "@, set);
    lemma_no_newline_add(" "@ + set, " { "@);
    lemma_no_newline_add(" "@ + set + " { "@, elem);
    lemma_no_newline_add(" "@ + set + " { "@ + elem, " }"@);
    assert(delete_element_line(set, elem) =~= "delete element "@ + TABLE@ + rest);
    lemma_line(delete_element_line(set, elem), "delete element "@, rest);
}

pub proof fn lemma_rule_line(hook: Seq<char>, family: Seq<char>, set: Seq<char>, verdict: Seq<char>)
    requires
        no_newline(hook),
        no_newline(family),
        no_newline(set),
        no_newline(verdict),
    ensures
        line_scoped(rule_line(hook, family, set, verdict)),
{
    lemma_line_literals();
    let rest = " "@ + hook + " "@ + family + " saddr @"@ + set + " "@ + verdict;
    lemma_no_newline_add(" "@, hook);
    lemma_no_newline_add(" "@ + hook, " "@);
    lemma_no_newline_add(" "@ + hook + " "@, family);
    lemma_no_newline_add(" "@ + hook + " "@ + family, " saddr @"@);
    lemma_no_newline_add(" "@ + hook + " "@ + family + " saddr @"@, set);
    lemma_no_newline_add(" "@ + hook + " "@ + family + " saddr @"@ + set, " "@);
    lemma_no_newline_add(" "@ + hook + " "@ + family + " saddr @"@ + set + " "@, verdict);
    assert(rule_line(hook, family, set, verdict) =~= "add rule "@ + TABLE@ + rest);
    lemma_line(rule_line(hook, family, set, verdict), "add rule "@, rest);
}


proof fn lemma_word_literals()
    ensures
        no_newline("ban4"@),
        no_newline("ban6"@),
        no_newline("allow4"@),
        no_newline("allow6"@),
        no_newline("crowd4"@),
        no_newline("crowd6"@),
        no_newline("{ type ipv4_addr; flags interval, timeout; }"@),
        no_newline("{ type ipv6_addr; flags interval, timeout; }"@),
        no_newline("{ type ipv4_addr; flags interval; }"@),
        no_newline("{ type ipv6_addr; flags interval; }"@),
        no_newline("{ type ipv4_addr; flags interval, timeout; timeout "@),
        no_newline("{ type ipv6_addr; flags interval, timeout; timeout "@),
        no_newline("24h"@),
        no_newline("; }"@),
        no_newline("input"@),
        no_newline("forward"@),
        no_newline("ip"@),
        no_newline("ip6"@),
        no_newline("accept"@),
        no_newline("counter drop"@),
        no_newline(" timeout "@),
        no_newline("s"@),
        no_newline(", "@),
{
    reveal_strlit("ban4");
    reveal_strlit("ban6");
    reveal_strlit("allow4");
    reveal_strlit("allow6");
    reveal_strlit("crowd4");
    reveal_strlit("crowd6");
    reveal_strlit("{ type ipv4_addr; flags interval, timeout; }");
    reveal_strlit("{ type ipv6_addr; flags interval, timeout; }");
    reveal_strlit("{ type ipv4_addr; flags interval; }");
    reveal_strlit("{ type ipv6_addr; flags interval; }");
    reveal_strlit("{ type ipv4_addr; flags interval, timeout; timeout ");
    reveal_strlit("{ type ipv6_addr; flags interval, timeout; timeout ");
    reveal_strlit("24h");
    reveal_strlit("; }");
    reveal_strlit("input");
    reveal_strlit("forward");
    reveal_strlit("ip");
    reveal_strlit("ip6");
    reveal_strlit("accept");
    reveal_strlit("counter drop");
    reveal_strlit(" timeout ");
    reveal_strlit("s");
    reveal_strlit(", ");
}

proof fn lemma_lines_scoped_add(a: Seq<Seq<char>>, b: Seq<Seq<char>>)
    requires
        lines_scoped(a),
        lines_scoped(b),
    ensures
        lines_scoped(a + b),
{
    assert forall|i: int| 0 <= i < (a + b).len() implies no_newline(#[trigger] (a + b)[i]) && mentions_table((a + b)[i]) by {
        if i < a.len() {
            assert((a + b)[i] == a[i]);
        } else {
            assert((a + b)[i] == b[i - a.len()]);
        }
    }
}

proof fn lemma_scoped_script(lines: Seq<Seq<char>>)
    requires
        lines_scoped(lines),
    ensures
        script_scoped(join_lines(lines)),
{
}

proof fn lemma_set_defs_no_newline()
    ensures
        forall|i: int| 0 <= i < 6 ==> no_newline(#[trigger] set_defs_spec()[i].0) && no_newline(set_defs_spec()[i].1),
{
    lemma_word_literals();
    lemma_no_newline_add("{ type ipv4_addr; flags interval, timeout; timeout "@, CROWD_TIMEOUT@);
    lemma_no_newline_add("{ type ipv4_addr; flags interval, timeout; timeout "@ + CROWD_TIMEOUT@, "; }"@);
    lemma_no_newline_add("{ type ipv6_addr; flags interval, timeout; timeout "@, CROWD_TIMEOUT@);
    lemma_no_newline_add("{ type ipv6_addr; flags interval, timeout; timeout "@ + CROWD_TIMEOUT@, "; }"@);
}

proof fn lemma_reset_chain_lines()
    ensures
        lines_scoped(reset_chain_lines()),
{
    lemma_word_literals();
    lemma_add_chain_line(hooks()[0]);
    lemma_flush_chain_line(hooks()[0]);
    lemma_add_chain_line(hooks()[1]);
    lemma_flush_chain_line(hooks()[1]);
}

proof fn lemma_hook_rule_lines(hook: Seq<char>)
    requires
        no_newline(hook),
    ensures
        lines_scoped(hook_rule_lines(hook)),
{
    lemma_word_literals();
    assert forall|i: int| 0 <= i < 6 implies line_scoped(#[trigger] hook_rule_lines(hook)[i]) by {
        lemma_rule_line(hook, rules()[i].0, rules()[i].1, rules()[i].2);
    }
}

/// The setup script touches only our table: every one of its lines is a
/// single command naming `inet minsec`.
pub proof fn law_setup_script_scoped()
    ensures
        lines_scoped(setup_lines()),
        script_scoped(join_lines(setup_lines())),
{
    lemma_word_literals();
    lemma_add_table_line();
    lemma_set_defs_no_newline();
    let sets = set_defs_spec().map_values(|d: (Seq<char>, Seq<char>)| add_set_line(d.0, d.1));
    assert forall|i: int| 0 <= i < sets.len() implies line_scoped(#[trigger] sets[i]) by {
        lemma_add_set_line(set_defs_spec()[i].0, set_defs_spec()[i].1);
    }
    lemma_reset_chain_lines();
    lemma_hook_rule_lines(hooks()[0]);
    lemma_hook_rule_lines(hooks()[1]);
    lemma_lines_scoped_add(seq![add_table_line()], sets);
    lemma_lines_scoped_add(seq![add_table_line()] + sets, reset_chain_lines());
    lemma_lines_scoped_add(seq![add_table_line()] + sets + reset_chain_lines(), hook_rule_lines(hooks()[0]));
    lemma_lines_scoped_add(
        seq![add_table_line()] + sets + reset_chain_lines() + hook_rule_lines(hooks()[0]),
        hook_rule_lines(hooks()[1]),
    );
    lemma_scoped_script(setup_lines());
}

proof fn lemma_entry_text_no_newline(e: Entry)
    ensures
        no_newline(entry_text(e)),
{
    lemma_word_literals();
    lemma_key_text_no_newline(e.net);
    match e.expires_in {
        Some(d) => {
            let secs: nat = if d < 1 { 1 } else { d as nat };
            lemma_decimal_no_newline(secs);
            lemma_no_newline_add(key_text(e.net), " timeout "@);
            lemma_no_newline_add(key_text(e.net) + " timeout "@, decimal(secs));
            lemma_no_newline_add(key_text(e.net) + " timeout "@ + decimal(secs), "s"@);
        },
        None => {},
    }
}

proof fn lemma_element_lines(set: Seq<char>, elems: Seq<Seq<char>>)
    requires
        no_newline(set),
        forall|i: int| 0 <= i < elems.len() ==> no_newline(#[trigger] elems[i]),
    ensures
        lines_scoped(element_lines(set, elems)),
{
    lemma_word_literals();
    if elems.len() > 0 {
        lemma_join_no_newline(elems, ", "@);
        lemma_add_element_line(set, join(elems, ", "@));
    }
}

/// Rebuilding a set touches only our table: with a name and definition
/// on one line each, every line of the script names `inet minsec`.
pub proof fn law_recreate_script_scoped(name: Seq<char>, def: Seq<char>, entries: Seq<Entry>)
    requires
        no_newline(name),
        no_newline(def),
    ensures
        lines_scoped(recreate_lines(name, def, entries.map_values(|e: Entry| entry_text(e)))),
{
    let texts = entries.map_values(|e: Entry| entry_text(e));
    assert forall|i: int| 0 <= i < texts.len() implies no_newline(#[trigger] texts[i]) by {
        lemma_entry_text_no_newline(entries[i]);
    }
    lemma_reset_chain_lines();
    lemma_delete_set_line(name);
    lemma_add_set_line(name, def);
    lemma_lines_scoped_add(reset_chain_lines(), seq![delete_set_line(name), add_set_line(name, def)]);
    lemma_element_lines(name, texts);
    assert(element_lines(name, texts) == (if texts.len() == 0 { Seq::<Seq<char>>::empty() } else {
        seq![add_element_line(name, join(texts, ", "@))] }));
    lemma_lines_scoped_add(reset_chain_lines() + seq![delete_set_line(name), add_set_line(name, def)],
        element_lines(name, texts));
}

proof fn lemma_ban_elems_no_newline(bans: Seq<Ban>, set: Seq<char>)
    ensures
        forall|i: int| 0 <= i < ban_elems(bans, set).len() ==> no_newline(#[trigger] ban_elems(bans, set)[i]),
    decreases bans.len(),
{
    if bans.len() > 0 {
        lemma_ban_elems_no_newline(bans.drop_last(), set);
        let b = bans.last();
        lemma_word_literals();
        lemma_key_text_no_newline(b.net);
        let secs: nat = if b.ttl < 1 { 1 } else { b.ttl as nat };
        lemma_decimal_no_newline(secs);
        lemma_no_newline_add(key_text(b.net), " timeout "@);
        lemma_no_newline_add(key_text(b.net) + " timeout "@, decimal(secs));
        lemma_no_newline_add(key_text(b.net) + " timeout "@ + decimal(secs), "s"@);
        assert(no_newline(ban_text(b)));
        let prev = ban_elems(bans.drop_last(), set);
        let cur = ban_elems(bans, set);
        assert forall|i: int| 0 <= i < cur.len() implies no_newline(#[trigger] cur[i]) by {
            if i < prev.len() {
                assert(cur[i] == prev[i]);
            }
        }
    }
}

proof fn lemma_allow_elems_no_newline(nets: Seq<Net>, set: Seq<char>)
    ensures
        forall|i: int| 0 <= i < allow_elems(nets, set).len() ==> no_newline(#[trigger] allow_elems(nets, set)[i]),
    decreases nets.len(),
{
    if nets.len() > 0 {
        lemma_allow_elems_no_newline(nets.drop_last(), set);
        lemma_key_text_no_newline(nets.last());
        let prev = allow_elems(nets.drop_last(), set);
        let cur = allow_elems(nets, set);
        assert forall|i: int| 0 <= i < cur.len() implies no_newline(#[trigger] cur[i]) by {
            if i < prev.len() {
                assert(cur[i] == prev[i]);
            }
        }
    }
}

proof fn lemma_delete_steps_scoped(set: Seq<char>, nets: Seq<Net>)
    requires
        no_newline(set),
    ensures
        forall|i: int| 0 <= i < delete_steps(set, nets).len() ==> script_scoped(#[trigger] delete_steps(set, nets)[i].0),
{
    assert forall|i: int| 0 <= i < delete_steps(set, nets).len() implies script_scoped(#[trigger] delete_steps(set, nets)[i].0) by {
        lemma_key_text_no_newline(nets[i]);
        lemma_delete_element_line(set, key_text(nets[i]));
        let ls = seq![delete_element_line(set, key_text(nets[i]))];
        assert(lines_scoped(ls));
        lemma_scoped_script(ls);
    }
}

/// Banning touches only our table: every script it runs is made of
/// single-line commands naming `inet minsec`.
pub proof fn law_ban_steps_scoped(bans: Seq<Ban>)
    ensures
        forall|i: int| 0 <= i < ban_steps_spec(bans).len() ==> script_scoped(#[trigger] ban_steps_spec(bans)[i].0),
{
    if bans.len() > 0 {
        lemma_word_literals();
        let nets = bans.map_values(|b: Ban| b.net);
        let d4 = delete_steps("ban4"@, nets_of_family(nets, true));
        let d6 = delete_steps("ban6"@, nets_of_family(nets, false));
        lemma_delete_steps_scoped("ban4"@, nets_of_family(nets, true));
        lemma_delete_steps_scoped("ban6"@, nets_of_family(nets, false));
        lemma_ban_elems_no_newline(bans, "ban4"@);
        lemma_ban_elems_no_newline(bans, "ban6"@);
        lemma_element_lines("ban4"@, ban_elems(bans, "ban4"@));
        lemma_element_lines("ban6"@, ban_elems(bans, "ban6"@));
        lemma_lines_scoped_add(element_lines("ban4"@, ban_elems(bans, "ban4"@)), element_lines("ban6"@, ban_elems(bans, "ban6"@)));
        lemma_scoped_script(ban_lines(bans));
        let steps = ban_steps_spec(bans);
        assert(steps == d4 + d6 + seq![(join_lines(ban_lines(bans)), true)]);
        assert forall|i: int| 0 <= i < steps.len() implies script_scoped(#[trigger] steps[i].0) by {
            if i < d4.len() {
                assert(steps[i] == d4[i]);
            } else if i < d4.len() + d6.len() {
                assert(steps[i] == d6[i - d4.len()]);
            } else {
                assert(steps[i].0 == join_lines(ban_lines(bans)));
            }
        }
    }
}

/// Lifting bans touches only our table.
pub proof fn law_unban_steps_scoped(nets: Seq<Net>)
    ensures
        forall|i: int| 0 <= i < unban_steps_spec(nets).len() ==> script_scoped(#[trigger] unban_steps_spec(nets)[i].0),
{
    lemma_word_literals();
    let d4 = delete_steps("ban4"@, nets_of_family(nets, true));
    let d6 = delete_steps("ban6"@, nets_of_family(nets, false));
    lemma_delete_steps_scoped("ban4"@, nets_of_family(nets, true));
    lemma_delete_steps_scoped("ban6"@, nets_of_family(nets, false));
    let steps = unban_steps_spec(nets);
    assert forall|i: int| 0 <= i < steps.len() implies script_scoped(#[trigger] steps[i].0) by {
        if i < d4.len() {
            assert(steps[i] == d4[i]);
        } else {
            assert(steps[i] == d6[i - d4.len()]);
        }
    }
}

/// Setting the allow list touches only our table.
pub proof fn law_allow_steps_scoped(nets: Seq<Net>)
    ensures
        forall|i: int| 0 <= i < allow_steps_spec(nets).len() ==> script_scoped(#[trigger] allow_steps_spec(nets)[i].0),
{
    lemma_word_literals();
    lemma_flush_set_line("allow4"@);
    lemma_flush_set_line("allow6"@);
    lemma_allow_elems_no_newline(nets, "allow4"@);
    lemma_allow_elems_no_newline(nets, "allow6"@);
    lemma_element_lines("allow4"@, allow_elems(nets, "allow4"@));
    lemma_element_lines("allow6"@, allow_elems(nets, "allow6"@));
    let a = seq![flush_set_line("allow4"@)];
    let b = element_lines("allow4"@, allow_elems(nets, "allow4"@));
    let c = seq![flush_set_line("allow6"@)];
    let d = element_lines("allow6"@, allow_elems(nets, "allow6"@));
    assert(lines_scoped(a));
    assert(lines_scoped(c));
    lemma_lines_scoped_add(a, b);
    lemma_lines_scoped_add(a + b, c);
    lemma_lines_scoped_add(a + b + c, d);
    lemma_scoped_script(allow_lines(nets));
}

/// Every script setup runs touches only our table: the setup script, the
/// probes, and the rebuild of a stale set.
pub proof fn law_setup_scripts_scoped(p: SetupPhase, e: SetupOutcome)
    requires
        phase_wf(p),
    ensures
        setup_transition(p, e).1 matches SetupOrder::Run(s) ==> script_scoped(s),
{
    law_setup_script_scoped();
    lemma_set_defs_no_newline();
    match p {
        SetupPhase::Initial | SetupPhase::Probing(_, _) | SetupPhase::Recreating(_, _) => {
            let i: int = match p {
                SetupPhase::Probing(i, _) => i + 1,
                SetupPhase::Recreating(i, _) => i + 1,
                _ => 0,
            };
            if 0 <= i < 6 {
                lemma_add_table_line();
                lemma_add_set_line(set_defs_spec()[i].0, set_defs_spec()[i].1);
                assert(lines_scoped(probe_lines(i)));
                lemma_scoped_script(probe_lines(i));
            }
        },
        SetupPhase::Listing(i, _) => {
            if let SetupOutcome::Listed(entries) = e {
                law_recreate_script_scoped(set_defs_spec()[i].0, set_defs_spec()[i].1, entries);
                lemma_scoped_script(recreate_lines(set_defs_spec()[i].0, set_defs_spec()[i].1,
                    entries.map_values(|en: Entry| entry_text(en))));
            }
        },
        _ => {},
    }
}

} // verus!
