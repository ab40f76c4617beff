//! Laws of the nftables backend: the order of the rules, of a rebuild,
//! of a ban, and the course setup takes.

use vstd::prelude::*;
use crate::net::{Addr, Net, key_text};
use crate::nft::{
    Ban, SetupOrder, SetupOutcome, SetupPhase, add_element_line, add_set_line, allow_elems, allow_lines,
    awaits, ban_elems, ban_lines, ban_steps_spec, ban_text, delete_element_line, delete_set_line,
    delete_steps, element_lines, flush_chain_line, flush_set_line, hook_rule_lines, hooks, join_lines,
    nets_of_family, phase_wf, recreate_lines, rules, set_defs_spec, set_for_spec, setup_lines,
    setup_transition, Entry, entry_text, probe_lines, probe_from, progress_wf,
};
use crate::text::join;
use crate::json::{Json, JsonNumber, json_get};
use crate::nft::{elem_entry, json_to_net_spec};
use crate::json::json_as_str;
use crate::addr_parse::addr_from_text;
use crate::net::{addr_bits, ipnet_from_text};
use crate::text::decimal;

verus! {

/// In each hook the allow sets are matched first: an `accept` rule never
/// follows a drop rule. Every set the daemon owns has a rule, and the
/// setup script holds each hook's rules in that order.
pub proof fn law_allow_rules_come_first()
    ensures
        forall|i: int, j: int| 0 <= i < j < 6 && rules()[j].2 == "accept"@ ==> rules()[i].2 == "accept"@,
        forall|k: int| #![trigger set_defs_spec()[k]] 0 <= k < 6 ==> exists|j: int| 0 <= j < 6 && #[trigger] rules()[j].1 == set_defs_spec()[k].0,
        setup_lines().subrange(11, 17) == hook_rule_lines(hooks()[0]),
        setup_lines().subrange(17, 23) == hook_rule_lines(hooks()[1]),
{
    reveal_strlit("accept");
    reveal_strlit("counter drop");
    assert("counter drop"@.len() != "accept"@.len());
    assert forall|k: int| #![trigger set_defs_spec()[k]] 0 <= k < 6 implies exists|j: int| 0 <= j < 6 && #[trigger] rules()[j].1 == set_defs_spec()[k].0 by {
        if k == 0 { assert(rules()[2].1 == set_defs_spec()[k].0); }
        else if k == 1 { assert(rules()[3].1 == set_defs_spec()[k].0); }
        else if k == 2 { assert(rules()[0].1 == set_defs_spec()[k].0); }
        else if k == 3 { assert(rules()[1].1 == set_defs_spec()[k].0); }
        else if k == 4 { assert(rules()[4].1 == set_defs_spec()[k].0); }
        else { assert(rules()[5].1 == set_defs_spec()[k].0); }
    }
    assert(setup_lines().subrange(11, 17) =~= hook_rule_lines(hooks()[0]));
    assert(setup_lines().subrange(17, 23) =~= hook_rule_lines(hooks()[1]));
}

/// A rebuild empties both chains (whose rules pin the set) before it
/// deletes the set, re-creates it right after, and adds the elements back
/// only when there are any.
pub proof fn law_recreate_order(name: Seq<char>, def: Seq<char>, elems: Seq<Seq<char>>)
    ensures
        recreate_lines(name, def, elems)[1] == flush_chain_line("input"@),
        recreate_lines(name, def, elems)[3] == flush_chain_line("forward"@),
        recreate_lines(name, def, elems)[4] == delete_set_line(name),
        recreate_lines(name, def, elems)[5] == add_set_line(name, def),
        elems.len() == 0 ==> recreate_lines(name, def, elems).len() == 6,
        elems.len() > 0 ==> recreate_lines(name, def, elems).len() == 7
            && recreate_lines(name, def, elems)[6] == add_element_line(name, join(elems, ", "@)),
{
}

proof fn lemma_family_contains(nets: Seq<Net>, k: int, v4: bool)
    requires
        0 <= k < nets.len(),
        (nets[k].addr is V4) == v4,
    ensures
        exists|j: int| 0 <= j < nets_of_family(nets, v4).len() && #[trigger] nets_of_family(nets, v4)[j] == nets[k],
    decreases nets.len(),
{
    let init = nets.drop_last();
    if k == nets.len() - 1 {
        let f = nets_of_family(nets, v4);
        assert(f[f.len() - 1] == nets[k]);
    } else {
        assert(init[k] == nets[k]);
        lemma_family_contains(init, k, v4);
        let j = choose|j: int| 0 <= j < nets_of_family(init, v4).len() && #[trigger] nets_of_family(init, v4)[j] == init[k];
        let f = nets_of_family(nets, v4);
        assert(f[j] == nets[k]);
    }
}

proof fn lemma_ban_elems_contains(bans: Seq<Ban>, k: int, set: Seq<char>)
    requires
        0 <= k < bans.len(),
        set_for_spec(bans[k].net, "ban"@) == set,
    ensures
        exists|j: int| 0 <= j < ban_elems(bans, set).len() && #[trigger] ban_elems(bans, set)[j] == ban_text(bans[k]),
    decreases bans.len(),
{
    let init = bans.drop_last();
    if k == bans.len() - 1 {
        let f = ban_elems(bans, set);
        assert(f[f.len() - 1] == ban_text(bans[k]));
    } else {
        assert(init[k] == bans[k]);
        lemma_ban_elems_contains(init, k, set);
        let j = choose|j: int| 0 <= j < ban_elems(init, set).len() && #[trigger] ban_elems(init, set)[j] == ban_text(init[k]);
        let f = ban_elems(bans, set);
        assert(f[j] == ban_text(bans[k]));
    }
}

/// Re-adding an existing element fails, so a ban clears first: every run
/// but the last deletes one element and may fail unnoticed; each banned
/// network is deleted from the ban set of its family before the last,
/// checked run adds all bans; and that run lists every ban (with its
/// lifetime) under the ban set of its family.
pub proof fn law_ban_clears_before_adding(bans: Seq<Ban>)
    requires
        bans.len() > 0,
    ensures
        ban_steps_spec(bans).last() == (join_lines(ban_lines(bans)), true),
        forall|i: int| 0 <= i < ban_steps_spec(bans).len() - 1 ==> !(#[trigger] ban_steps_spec(bans)[i]).1,
        forall|k: int| #![trigger bans[k]] 0 <= k < bans.len() ==> exists|i: int| 0 <= i < ban_steps_spec(bans).len() - 1
            && (#[trigger] ban_steps_spec(bans)[i]).0 == join_lines(seq![delete_element_line(
                set_for_spec(bans[k].net, "ban"@), key_text(bans[k].net))]),
        forall|k: int| #![trigger bans[k]] 0 <= k < bans.len() ==> exists|j: int|
            0 <= j < ban_elems(bans, set_for_spec(bans[k].net, "ban"@)).len()
            && #[trigger] ban_elems(bans, set_for_spec(bans[k].net, "ban"@))[j] == ban_text(bans[k]),
{
    let nets = bans.map_values(|b: Ban| b.net);
    let d4 = delete_steps("ban4"@, nets_of_family(nets, true));
    let d6 = delete_steps("ban6"@, nets_of_family(nets, false));
    let steps = ban_steps_spec(bans);
    assert(steps == d4 + d6 + seq![(join_lines(ban_lines(bans)), true)]);
    assert forall|i: int| 0 <= i < steps.len() - 1 implies !(#[trigger] steps[i]).1 by {
        if i < d4.len() {
            assert(steps[i] == d4[i]);
        } else {
            assert(steps[i] == d6[i - d4.len()]);
        }
    }
    reveal_strlit("ban");
    assert forall|k: int| #![trigger bans[k]] 0 <= k < bans.len() implies exists|i: int| 0 <= i < steps.len() - 1
        && (#[trigger] steps[i]).0 == join_lines(seq![delete_element_line(
            set_for_spec(bans[k].net, "ban"@), key_text(bans[k].net))]) by {
        assert(nets[k] == bans[k].net);
        match bans[k].net.addr {
            Addr::V4(_) => {
                lemma_family_contains(nets, k, true);
                let j = choose|j: int| 0 <= j < nets_of_family(nets, true).len() && #[trigger] nets_of_family(nets, true)[j] == nets[k];
                assert(steps[j] == d4[j]);
            },
            Addr::V6(_) => {
                lemma_family_contains(nets, k, false);
                let j = choose|j: int| 0 <= j < nets_of_family(nets, false).len() && #[trigger] nets_of_family(nets, false)[j] == nets[k];
                assert(steps[d4.len() + j] == d6[j]);
            },
        }
    }
    assert forall|k: int| #![trigger bans[k]] 0 <= k < bans.len() implies exists|j: int|
        0 <= j < ban_elems(bans, set_for_spec(bans[k].net, "ban"@)).len()
        && #[trigger] ban_elems(bans, set_for_spec(bans[k].net, "ban"@))[j] == ban_text(bans[k]) by {
        lemma_ban_elems_contains(bans, k, set_for_spec(bans[k].net, "ban"@));
    }
}

proof fn lemma_allow_elems_contains(nets: Seq<Net>, k: int, set: Seq<char>)
    requires
        0 <= k < nets.len(),
        set_for_spec(nets[k], "allow"@) == set,
    ensures
        exists|j: int| 0 <= j < allow_elems(nets, set).len() && #[trigger] allow_elems(nets, set)[j] == key_text(nets[k]),
    decreases nets.len(),
{
    let init = nets.drop_last();
    if k == nets.len() - 1 {
        let f = allow_elems(nets, set);
        assert(f[f.len() - 1] == key_text(nets[k]));
    } else {
        assert(init[k] == nets[k]);
        lemma_allow_elems_contains(init, k, set);
        let j = choose|j: int| 0 <= j < allow_elems(init, set).len() && #[trigger] allow_elems(init, set)[j] == key_text(init[k]);
        let f = allow_elems(nets, set);
        assert(f[j] == key_text(nets[k]));
    }
}

/// The allow list is replaced, not merged: each allow set is flushed
/// before it is refilled, and every allowed network is listed under the
/// allow set of its family.
pub proof fn law_allow_replaces(nets: Seq<Net>)
    ensures
        allow_lines(nets)[0] == flush_set_line("allow4"@),
        allow_lines(nets)[1 + element_lines("allow4"@, allow_elems(nets, "allow4"@)).len() as int]
            == flush_set_line("allow6"@),
        forall|k: int| #![trigger nets[k]] 0 <= k < nets.len() && nets[k].addr is V4 ==> exists|j: int|
            0 <= j < allow_elems(nets, "allow4"@).len() && #[trigger] allow_elems(nets, "allow4"@)[j] == key_text(nets[k]),
        forall|k: int| #![trigger nets[k]] 0 <= k < nets.len() && nets[k].addr is V6 ==> exists|j: int|
            0 <= j < allow_elems(nets, "allow6"@).len() && #[trigger] allow_elems(nets, "allow6"@)[j] == key_text(nets[k]),
{
    reveal_strlit("allow");
    reveal_strlit("ban");
    let a = seq![flush_set_line("allow4"@)];
    let b = element_lines("allow4"@, allow_elems(nets, "allow4"@));
    let c = seq![flush_set_line("allow6"@)];
    let d = element_lines("allow6"@, allow_elems(nets, "allow6"@));
    assert(allow_lines(nets) == a + b + c + d);
    assert((a + b + c + d)[0] == a[0]);
    assert((a + b + c + d)[1 + b.len() as int] == c[0]);
    law_allowed_nets_listed(nets);
}

proof fn law_allowed_nets_listed(nets: Seq<Net>)
    ensures
        forall|k: int| #![trigger nets[k]] 0 <= k < nets.len() && nets[k].addr is V4 ==> exists|j: int|
            0 <= j < allow_elems(nets, "allow4"@).len() && #[trigger] allow_elems(nets, "allow4"@)[j] == key_text(nets[k]),
        forall|k: int| #![trigger nets[k]] 0 <= k < nets.len() && nets[k].addr is V6 ==> exists|j: int|
            0 <= j < allow_elems(nets, "allow6"@).len() && #[trigger] allow_elems(nets, "allow6"@)[j] == key_text(nets[k]),
{
    reveal_strlit("allow");
    reveal_strlit("ban");
    reveal_strlit("allow4");
    reveal_strlit("allow6");
    assert("allow"@.len() != "ban"@.len());
    assert("allow"@ != "ban"@);
    assert forall|k: int| #![trigger nets[k]] 0 <= k < nets.len() && nets[k].addr is V4 implies exists|j: int|
        0 <= j < allow_elems(nets, "allow4"@).len() && #[trigger] allow_elems(nets, "allow4"@)[j] == key_text(nets[k]) by {
        assert(set_for_spec(nets[k], "allow"@) == "allow4"@);
        lemma_allow_elems_contains(nets, k, "allow4"@);
    }
    assert forall|k: int| #![trigger nets[k]] 0 <= k < nets.len() && nets[k].addr is V6 implies exists|j: int|
        0 <= j < allow_elems(nets, "allow6"@).len() && #[trigger] allow_elems(nets, "allow6"@)[j] == key_text(nets[k]) by {
        assert(set_for_spec(nets[k], "allow"@) == "allow6"@);
        lemma_allow_elems_contains(nets, k, "allow6"@);
    }
}

/// How far setup is from its end: every step brings it closer.
pub open spec fn setup_measure(p: SetupPhase) -> int {
    match p {
        SetupPhase::Initial => 21,
        SetupPhase::Probing(i, _) => 3 * (6 - i) + 2,
        SetupPhase::Listing(i, _) => 3 * (6 - i) + 1,
        SetupPhase::Recreating(i, _) => 3 * (6 - i),
        SetupPhase::Final => 1,
        SetupPhase::Done => 0,
    }
}

/// Setup always ends: each step keeps the phase well formed and lowers
/// the measure, which never goes below zero.
pub proof fn law_setup_terminates(p: SetupPhase, e: SetupOutcome)
    requires
        phase_wf(p),
        p == SetupPhase::Initial || (p matches SetupPhase::Probing(_, _)) || (p matches SetupPhase::Listing(_, _))
            || (p matches SetupPhase::Recreating(_, _)) || p == SetupPhase::Final,
        awaits(p, e),
    ensures
        phase_wf(setup_transition(p, e).0),
        0 <= setup_measure(setup_transition(p, e).0) < setup_measure(p),
{
    match p {
        SetupPhase::Recreating(i, rb) => {
            if e is Succeeded {
                let nb = rb.push(i as usize);
                assert(nb[nb.len() - 1] == i as usize);
                assert((i as usize) as int == i);
                assert forall|a: int, b: int| 0 <= a < b < nb.len() implies nb[a] < nb[b] by {
                    if b == nb.len() - 1 {
                        assert(nb[a] == rb[a]);
                        assert(rb[a] < i);
                    } else {
                        assert(nb[a] == rb[a] && nb[b] == rb[b]);
                    }
                }
                assert forall|a: int| 0 <= a < nb.len() implies nb[a] < i + 1 by {
                    if a < rb.len() {
                        assert(nb[a] == rb[a]);
                    }
                }
            }
        },
        _ => {},
    }
}

/// Setup succeeds only when a run of the setup script itself succeeded:
/// the first one, or the one after stale sets were rebuilt.
pub proof fn law_setup_succeeds_only_with_setup_script(p: SetupPhase, e: SetupOutcome)
    ensures
        setup_transition(p, e).1 is Succeed ==> e is Succeeded && (p == SetupPhase::Initial || p == SetupPhase::Final),
{
}

/// When the setup script fails and no set turns out stale (every probe
/// passes), setup fails with the setup script's own error; the setup
/// script runs a second time only after at least one set was rebuilt.
pub proof fn law_setup_first_error_when_nothing_rebuilt(p: SetupPhase, e: SetupOutcome)
    requires
        phase_wf(p),
    ensures
        setup_transition(p, e).1 is FailWithFirstError ==>
            (p matches SetupPhase::Probing(i, rb) && i == 5 && rb.len() == 0 && e is Succeeded),
        setup_transition(p, e).0 == SetupPhase::Final ==> e is Succeeded && (
            (p matches SetupPhase::Probing(i, rb) && i == 5 && rb.len() > 0)
            || (p matches SetupPhase::Recreating(i, _) && i == 5)),
{
}

/// Only a set whose probe failed is listed, and only a set that was
/// listed is rebuilt, from the entries the listing read.
pub proof fn law_setup_rebuilds_only_stale_sets(p: SetupPhase, e: SetupOutcome)
    requires
        awaits(p, e),
    ensures
        setup_transition(p, e).0 matches SetupPhase::Listing(i, rb) ==>
            p == SetupPhase::Probing(i, rb) && e is Failed
            && setup_transition(p, e).1 == SetupOrder::List(set_defs_spec()[i].0),
        setup_transition(p, e).0 matches SetupPhase::Recreating(i, rb) ==>
            p == SetupPhase::Listing(i, rb) && e is Listed,
{
}

/// How the system answers each order of setup in a run where the setup
/// script fails at first, the probe of set `i` passes exactly when
/// `probe_ok[i]`, the listing of set `i` reads `listed[i]`, and every
/// rebuild and the second run of the setup script succeed.
pub open spec fn run_answer(p: SetupPhase, probe_ok: Seq<bool>, listed: Seq<Seq<Entry>>) -> SetupOutcome {
    match p {
        SetupPhase::Initial => SetupOutcome::Failed,
        SetupPhase::Probing(i, _) => if probe_ok[i] {
            SetupOutcome::Succeeded
        } else {
            SetupOutcome::Failed
        },
        SetupPhase::Listing(i, _) => SetupOutcome::Listed(listed[i]),
        _ => SetupOutcome::Succeeded,
    }
}

/// The orders setup gives from phase `p` on, in such a run, up to its end.
pub open spec fn run_orders(p: SetupPhase, probe_ok: Seq<bool>, listed: Seq<Seq<Entry>>) -> Seq<SetupOrder>
    decreases setup_measure(p),
    when phase_wf(p)
{
    if p == SetupPhase::Done {
        seq![]
    } else {
        let e = run_answer(p, probe_ok, listed);
        proof {
            law_setup_terminates(p, e);
        }
        let (q, o) = setup_transition(p, e);
        seq![o] + run_orders(q, probe_ok, listed)
    }
}

/// Rebuilding set `i`: listing it, then the script that re-creates it with
/// the entries the listing read.
pub open spec fn rebuild_orders(i: int, listed: Seq<Seq<Entry>>) -> Seq<SetupOrder> {
    seq![
        SetupOrder::List(set_defs_spec()[i].0),
        SetupOrder::Run(join_lines(recreate_lines(
            set_defs_spec()[i].0,
            set_defs_spec()[i].1,
            listed[i].map_values(|en: Entry| entry_text(en)),
        ))),
    ]
}

/// Probing the sets from `i` on, in order; each whose probe fails is
/// rebuilt right after its probe.
pub open spec fn probe_orders(probe_ok: Seq<bool>, listed: Seq<Seq<Entry>>, i: int) -> Seq<SetupOrder>
    decreases 6 - i,
{
    if i >= 6 {
        seq![]
    } else {
        seq![SetupOrder::Run(join_lines(probe_lines(i)))]
            + (if probe_ok[i] { Seq::<SetupOrder>::empty() } else { rebuild_orders(i, listed) })
            + probe_orders(probe_ok, listed, i + 1)
    }
}

/// Some set from `i` on fails its probe.
pub open spec fn stale_from(probe_ok: Seq<bool>, i: int) -> bool
    decreases 6 - i,
{
    if i >= 6 {
        false
    } else {
        !probe_ok[i] || stale_from(probe_ok, i + 1)
    }
}

/// How setup ends once every set is probed: the setup script once more and
/// success where a set was rebuilt, else failure with the first error.
pub open spec fn run_ending(rebuilt_any: bool) -> Seq<SetupOrder> {
    if rebuilt_any {
        seq![SetupOrder::Run(join_lines(setup_lines())), SetupOrder::Succeed]
    } else {
        seq![SetupOrder::FailWithFirstError]
    }
}

proof fn lemma_probe_from_run(i: int, rb: Seq<usize>, probe_ok: Seq<bool>, listed: Seq<Seq<Entry>>)
    requires
        1 <= i <= 6,
        forall|a: int, b: int| 0 <= a < b < rb.len() ==> rb[a] < rb[b],
        forall|a: int| 0 <= a < rb.len() ==> rb[a] < i,
    ensures
        phase_wf(probe_from(i, rb).0),
        seq![probe_from(i, rb).1] + run_orders(probe_from(i, rb).0, probe_ok, listed)
            == probe_orders(probe_ok, listed, i) + run_ending(rb.len() > 0 || stale_from(probe_ok, i)),
    decreases 6 - i, 1int,
{
    if i < 6 {
        lemma_probing_run(i, rb, probe_ok, listed);
        let head = seq![SetupOrder::Run(join_lines(probe_lines(i)))];
        assert(probe_orders(probe_ok, listed, i) =~= head
            + (if probe_ok[i] { Seq::<SetupOrder>::empty() } else { rebuild_orders(i, listed) })
            + probe_orders(probe_ok, listed, i + 1));
        assert(head + run_orders(SetupPhase::Probing(i, rb), probe_ok, listed) =~= probe_orders(probe_ok, listed, i)
            + run_ending(rb.len() > 0 || stale_from(probe_ok, i)));
    } else if rb.len() == 0 {
        assert(run_orders(SetupPhase::Done, probe_ok, listed) =~= Seq::<SetupOrder>::empty());
        assert(seq![SetupOrder::FailWithFirstError] + Seq::<SetupOrder>::empty() =~= run_ending(false));
        assert(probe_orders(probe_ok, listed, i) =~= Seq::<SetupOrder>::empty());
        assert(Seq::<SetupOrder>::empty() + run_ending(false) =~= run_ending(false));
    } else {
        let after = run_orders(SetupPhase::Final, probe_ok, listed);
        assert(run_orders(SetupPhase::Done, probe_ok, listed) =~= Seq::<SetupOrder>::empty());
        assert(after =~= seq![SetupOrder::Succeed]);
        assert(probe_orders(probe_ok, listed, i) =~= Seq::<SetupOrder>::empty());
        assert(Seq::<SetupOrder>::empty() + run_ending(true) =~= run_ending(true));
        assert(seq![SetupOrder::Run(join_lines(setup_lines()))] + after =~= run_ending(true));
    }
}

proof fn lemma_probing_run(i: int, rb: Seq<usize>, probe_ok: Seq<bool>, listed: Seq<Seq<Entry>>)
    requires
        progress_wf(i, rb),
    ensures
        run_orders(SetupPhase::Probing(i, rb), probe_ok, listed)
            == (if probe_ok[i] { Seq::<SetupOrder>::empty() } else { rebuild_orders(i, listed) })
            + probe_orders(probe_ok, listed, i + 1)
            + run_ending(rb.len() > 0 || stale_from(probe_ok, i)),
    decreases 6 - i, 0int,
{
    let p = SetupPhase::Probing(i, rb);
    if probe_ok[i] {
        lemma_probe_from_run(i + 1, rb, probe_ok, listed);
        assert(run_orders(p, probe_ok, listed) == seq![probe_from(i + 1, rb).1]
            + run_orders(probe_from(i + 1, rb).0, probe_ok, listed));
        assert(Seq::<SetupOrder>::empty() + probe_orders(probe_ok, listed, i + 1) =~= probe_orders(probe_ok, listed, i + 1));
    } else {
        let l = SetupPhase::Listing(i, rb);
        let r = SetupPhase::Recreating(i, rb);
        let nb = rb.push(i as usize);
        assert forall|a: int, b: int| 0 <= a < b < nb.len() implies nb[a] < nb[b] by {
            if b == nb.len() - 1 {
                assert(nb[a] == rb[a]);
            } else {
                assert(nb[a] == rb[a] && nb[b] == rb[b]);
            }
        }
        assert forall|a: int| 0 <= a < nb.len() implies nb[a] < i + 1 by {
            if a < rb.len() {
                assert(nb[a] == rb[a]);
            }
        }
        lemma_probe_from_run(i + 1, nb, probe_ok, listed);
        let rest = seq![probe_from(i + 1, nb).1] + run_orders(probe_from(i + 1, nb).0, probe_ok, listed);
        let ro = rebuild_orders(i, listed);
        assert(run_orders(r, probe_ok, listed) == rest);
        assert(run_orders(l, probe_ok, listed) == seq![ro[1]] + rest);
        assert(run_orders(p, probe_ok, listed) == seq![ro[0]] + (seq![ro[1]] + rest));
        assert(seq![ro[0]] + (seq![ro[1]] + rest) =~= ro + rest);
        assert(ro + rest =~= ro + probe_orders(probe_ok, listed, i + 1) + run_ending(true));
    }
}

/// A whole setup run in which the setup script fails at first: every set
/// is probed in the order of `set_defs`; each set whose probe fails, and
/// only such a set, is listed and rebuilt from what its listing read, right
/// after its probe; then, if any set was rebuilt, the setup script runs
/// again and setup succeeds, else setup fails with the setup script's
/// first error.
pub proof fn law_setup_run(probe_ok: Seq<bool>, listed: Seq<Seq<Entry>>)
    ensures
        run_orders(SetupPhase::Initial, probe_ok, listed)
            == probe_orders(probe_ok, listed, 0) + run_ending(stale_from(probe_ok, 0)),
{
    let p0 = SetupPhase::Probing(0, Seq::<usize>::empty());
    lemma_probing_run(0, Seq::<usize>::empty(), probe_ok, listed);
    assert(probe_from(0, Seq::<usize>::empty()) == (p0, SetupOrder::Run(join_lines(probe_lines(0)))));
    let head = seq![SetupOrder::Run(join_lines(probe_lines(0)))];
    assert(run_orders(SetupPhase::Initial, probe_ok, listed) == head + run_orders(p0, probe_ok, listed));
    assert(probe_orders(probe_ok, listed, 0) =~= head
        + (if probe_ok[0] { Seq::<SetupOrder>::empty() } else { rebuild_orders(0, listed) })
        + probe_orders(probe_ok, listed, 1));
    assert(head + run_orders(p0, probe_ok, listed) =~= probe_orders(probe_ok, listed, 0)
        + run_ending(stale_from(probe_ok, 0)));
}

/// The sets an order sequence lists, in order.
pub open spec fn listed_names(orders: Seq<SetupOrder>) -> Seq<Seq<char>>
    decreases orders.len(),
{
    if orders.len() == 0 {
        seq![]
    } else {
        listed_names(orders.drop_last()) + match orders.last() {
            SetupOrder::List(n) => seq![n],
            _ => Seq::<Seq<char>>::empty(),
        }
    }
}

/// The names of the sets from `i` on whose probe fails, in the order of
/// `set_defs`.
pub open spec fn stale_names(probe_ok: Seq<bool>, i: int) -> Seq<Seq<char>>
    decreases 6 - i,
{
    if i >= 6 {
        seq![]
    } else {
        (if probe_ok[i] { Seq::<Seq<char>>::empty() } else { seq![set_defs_spec()[i].0] })
            + stale_names(probe_ok, i + 1)
    }
}

proof fn lemma_listed_names_concat(a: Seq<SetupOrder>, b: Seq<SetupOrder>)
    ensures
        listed_names(a + b) == listed_names(a) + listed_names(b),
    decreases b.len(),
{
    if b.len() == 0 {
        assert(a + b =~= a);
        assert(listed_names(a) + listed_names(b) =~= listed_names(a));
    } else {
        lemma_listed_names_concat(a, b.drop_last());
        assert((a + b).drop_last() =~= a + b.drop_last());
        assert((a + b).last() == b.last());
    }
}

proof fn lemma_listed_one(o: SetupOrder)
    ensures
        listed_names(seq![o]) == match o {
            SetupOrder::List(n) => seq![n],
            _ => Seq::<Seq<char>>::empty(),
        },
{
    let s = seq![o];
    assert(s.drop_last() =~= Seq::<SetupOrder>::empty());
    assert(listed_names(Seq::<SetupOrder>::empty()) =~= Seq::<Seq<char>>::empty());
    assert(s.last() == o);
    assert(Seq::<Seq<char>>::empty() + match o {
        SetupOrder::List(n) => seq![n],
        _ => Seq::<Seq<char>>::empty(),
    } =~= match o {
        SetupOrder::List(n) => seq![n],
        _ => Seq::<Seq<char>>::empty(),
    });
}

proof fn lemma_probe_orders_listed(probe_ok: Seq<bool>, listed: Seq<Seq<Entry>>, i: int)
    ensures
        listed_names(probe_orders(probe_ok, listed, i)) == stale_names(probe_ok, i),
    decreases 6 - i,
{
    if i < 6 {
        lemma_probe_orders_listed(probe_ok, listed, i + 1);
        let head = seq![SetupOrder::Run(join_lines(probe_lines(i)))];
        let mid = if probe_ok[i] { Seq::<SetupOrder>::empty() } else { rebuild_orders(i, listed) };
        let tail = probe_orders(probe_ok, listed, i + 1);
        lemma_listed_names_concat(head, mid);
        lemma_listed_names_concat(head + mid, tail);
        lemma_listed_one(head[0]);
        assert(head =~= seq![head[0]]);
        if probe_ok[i] {
            assert(listed_names(mid) =~= Seq::<Seq<char>>::empty());
        } else {
            let m = rebuild_orders(i, listed);
            lemma_listed_one(m[0]);
            lemma_listed_one(m[1]);
            lemma_listed_names_concat(seq![m[0]], seq![m[1]]);
            assert(m =~= seq![m[0]] + seq![m[1]]);
            assert(listed_names(mid) =~= seq![set_defs_spec()[i].0]);
        }
        assert(listed_names(head + mid + tail) =~= listed_names(mid) + stale_names(probe_ok, i + 1));
    } else {
        assert(probe_orders(probe_ok, listed, i) =~= Seq::<SetupOrder>::empty());
    }
}

/// The sets a setup run lists, and so rebuilds, are exactly those whose
/// probe fails, each once, in the order of `set_defs`.
pub proof fn law_setup_rebuilds_exactly_stale_sets(probe_ok: Seq<bool>, listed: Seq<Seq<Entry>>)
    ensures
        listed_names(run_orders(SetupPhase::Initial, probe_ok, listed)) == stale_names(probe_ok, 0),
{
    law_setup_run(probe_ok, listed);
    lemma_probe_orders_listed(probe_ok, listed, 0);
    let e = run_ending(stale_from(probe_ok, 0));
    lemma_listed_names_concat(probe_orders(probe_ok, listed, 0), e);
    if stale_from(probe_ok, 0) {
        lemma_listed_one(e[0]);
        lemma_listed_one(e[1]);
        lemma_listed_names_concat(seq![e[0]], seq![e[1]]);
        assert(e =~= seq![e[0]] + seq![e[1]]);
    } else {
        lemma_listed_one(e[0]);
        assert(e =~= seq![e[0]]);
    }
    assert(listed_names(e) =~= Seq::<Seq<char>>::empty());
    assert(stale_names(probe_ok, 0) + listed_names(e) =~= stale_names(probe_ok, 0));
}

/// The listing reader keeps an element's seconds left whole: an element
/// `{"elem": {"val": v, "expires": n, ..}}` whose value names a network
/// gives that network with exactly `n` seconds left, for every `u64` `n`;
/// without `expires`, it gives none.
pub proof fn law_elem_expires_whole(e: Json, inner: Json, v: Json, net: Net, n: u64)
    requires
        e is Object,
        json_get(e, "elem"@) == Some(inner),
        json_get(inner, "val"@) == Some(v),
        json_to_net_spec(v) == Some(net),
    ensures
        json_get(inner, "expires"@) == Some(Json::Number(JsonNumber::Unsigned(n)))
            ==> elem_entry(e) == Some(Entry { net, expires_in: Some(n) }),
        json_get(inner, "expires"@) is None ==> elem_entry(e) == Some(Entry { net, expires_in: None }),
{
}

/// How a listed value names a network: a string holding an address names
/// that single address; any other string is read by `ipnet` as written; an
/// object `{"prefix": {"addr": a, "len": l}}` is read by `ipnet` as `a/l`,
/// with `l` whole for every length below 256.
pub proof fn law_json_net_forms(v: Json, p: Json, a: Json, l: u64)
    ensures
        json_as_str(v) matches Some(t) ==> json_to_net_spec(v) == match addr_from_text(t) {
            Some(x) => Some(Net { addr: x, len: addr_bits(x) }),
            None => ipnet_from_text(t),
        },
        json_as_str(v) is None && json_get(v, "prefix"@) == Some(p) && json_get(p, "addr"@) == Some(a)
            && json_as_str(a) is Some && json_get(p, "len"@) == Some(Json::Number(JsonNumber::Unsigned(l)))
            && l < 256 ==> json_to_net_spec(v) == ipnet_from_text(json_as_str(a)->0 + "/"@ + decimal(l as nat)),
{
}

} // verus!
