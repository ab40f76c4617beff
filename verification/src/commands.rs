//! What the commands of `minsec` print, line by line: `check`, `filters`,
//! `list`, `status` and `events`. Durations arrive written out, as the
//! duration formatter of the configuration writes them.

use vstd::prelude::*;
use crate::net::{key_text, key_to_nft};
use crate::text::{decimal, join, u64_to_decimal, join_strings};
use crate::order::{views, strictly_sorted, sorted_distinct};
use crate::report::{padded, pad_right, opt_view};
use crate::control::{BanInfo, FilterStatus, Status};

verus! {

pub open spec fn check_ok_text(checked: nat) -> Seq<char> {
    "ok: "@ + decimal(checked) + " filter(s) checked"@
}

/// What `minsec check` prints when the configuration is sound.
pub fn check_ok_line(checked_filters: usize) -> (r: String)
    ensures
        r@ == check_ok_text(checked_filters as nat),
{
    let mut r = String::from_str("ok: ");
    r.append(u64_to_decimal(checked_filters as u64).as_str());
    r.append(" filter(s) checked");
    r
}

pub open spec fn check_error_text(filter: Option<Seq<char>>, error: Seq<char>) -> Seq<char> {
    match filter {
        Some(f) => "filter `"@ + f + "`: "@ + error,
        None => error,
    }
}

/// How `minsec check` reports one error: with the filter it concerns,
/// where it concerns one.
pub fn check_error_line(filter: &Option<String>, error: &str) -> (r: String)
    ensures
        r@ == check_error_text(opt_view(*filter), error@),
{
    match filter {
        Some(f) => {
            let mut r = String::from_str("filter `");
            r.append(f.as_str());
            r.append("`: ");
            r.append(error);
            r
        },
        None => String::from_str(error),
    }
}

/// The filters `minsec filters` lists: the built-in ones and those found
/// as files, sorted, each once.
pub fn filter_names(builtin: &Vec<String>, custom: &Vec<String>) -> (r: Vec<String>)
    ensures
        strictly_sorted(views(r@)),
        forall|t: Seq<char>|
            views(r@).contains(t) <==> (views(builtin@).contains(t) || views(custom@).contains(t)),
{
    let mut all: Vec<String> = Vec::new();
    let mut i: usize = 0;
    while i < builtin.len()
        invariant
            i <= builtin.len(),
            views(all@) =~= views(builtin@).take(i as int),
        decreases builtin.len() - i,
    {
        let ghost before = views(all@);
        all.push(builtin[i].clone());
        assert(views(all@) =~= before.push(builtin@[i as int]@));
        assert(views(builtin@).take(i + 1) =~= views(builtin@).take(i as int).push(builtin@[i as int]@));
        i = i + 1;
    }
    assert(views(builtin@).take(builtin.len() as int) =~= views(builtin@));
    let mut j: usize = 0;
    while j < custom.len()
        invariant
            i == builtin.len(),
            j <= custom.len(),
            views(all@) =~= views(builtin@) + views(custom@).take(j as int),
        decreases custom.len() - j,
    {
        let ghost before = views(all@);
        all.push(custom[j].clone());
        assert(views(all@) =~= before.push(custom@[j as int]@));
        assert(views(custom@).take(j + 1) =~= views(custom@).take(j as int).push(custom@[j as int]@));
        j = j + 1;
    }
    proof {
        assert(views(builtin@).take(builtin.len() as int) =~= views(builtin@));
        assert(views(custom@).take(custom.len() as int) =~= views(custom@));
        let a = views(builtin@);
        let b = views(custom@);
        assert forall|t: Seq<char>| (a + b).contains(t) <==> (a.contains(t) || b.contains(t)) by {
            if (a + b).contains(t) {
                let k = choose|k: int| 0 <= k < (a + b).len() && (a + b)[k] == t;
                if k < a.len() {
                    assert(a[k] == t);
                } else {
                    assert(b[k - a.len()] == t);
                }
            }
            if a.contains(t) {
                let k = choose|k: int| 0 <= k < a.len() && a[k] == t;
                assert((a + b)[k] == t);
            }
            if b.contains(t) {
                let k = choose|k: int| 0 <= k < b.len() && b[k] == t;
                assert((a + b)[k + a.len()] == t);
            }
        }
    }
    sorted_distinct(&all)
}

pub open spec fn filter_list_text(enabled: bool, name: Seq<char>, description: Seq<char>) -> Seq<char> {
    (if enabled { "*"@ } else { " "@ }) + " "@ + padded(name, 16) + " "@ + description
}

/// One line of `minsec filters`: a star for an enabled filter, its name,
/// and its description.
pub fn filter_list_line(enabled: bool, name: &str, description: &str) -> (r: String)
    ensures
        r@ == filter_list_text(enabled, name@, description@),
{
    let mut r = if enabled { String::from_str("*") } else { String::from_str(" ") };
    r.append(" ");
    r.append(pad_right(name, 16).as_str());
    r.append(" ");
    r.append(description);
    r
}

pub open spec fn ban_line_text(b: BanInfo, expires: Option<Seq<char>>) -> Seq<char> {
    padded(key_text(b.net), 44) + " "@ + padded(
        match expires {
            Some(e) => e,
            None => "-"@,
        },
        12,
    ) + " "@ + match b.filter {
        Some(f) => f@,
        None => seq![],
    }
}

/// One line of `minsec list`: the banned network as an nftables element,
/// the time it has left (`expires`, written out; `None` for a ban without
/// expiry, shown as `-`), and the filter that banned it.
pub fn ban_line(b: &BanInfo, expires: &Option<String>) -> (r: String)
    ensures
        r@ == ban_line_text(*b, opt_view(*expires)),
{
    let mut r = pad_right(key_to_nft(&b.net).as_str(), 44);
    r.append(" ");
    match expires {
        Some(e) => r.append(pad_right(e.as_str(), 12).as_str()),
        None => r.append(pad_right("-", 12).as_str()),
    }
    r.append(" ");
    if let Some(f) = &b.filter {
        r.append(f.as_str());
    } else {
        assert(r@ =~= r@ + Seq::<char>::empty());
    }
    r
}

pub open spec fn status_line_text(s: Status, uptime: Seq<char>) -> Seq<char> {
    "minsec "@ + s.version@ + " · backend "@ + s.backend@ + " · up "@ + uptime + " · "@
        + decimal(s.lines as nat) + " lines · "@ + decimal(s.tracked_count as nat) + " tracked · "@
        + decimal(s.active_bans as nat) + " active bans ("@ + decimal(s.bans_total as nat) + " total)"@
}

/// The first line of `minsec status`; `uptime` is the daemon's uptime
/// written out.
pub fn status_line(s: &Status, uptime: &str) -> (r: String)
    ensures
        r@ == status_line_text(*s, uptime@),
{
    let mut r = String::from_str("minsec ");
    r.append(s.version.as_str());
    r.append(" · backend ");
    r.append(s.backend.as_str());
    r.append(" · up ");
    r.append(uptime);
    r.append(" · ");
    r.append(u64_to_decimal(s.lines).as_str());
    r.append(" lines · ");
    r.append(u64_to_decimal(s.tracked_count as u64).as_str());
    r.append(" tracked · ");
    r.append(u64_to_decimal(s.active_bans as u64).as_str());
    r.append(" active bans (");
    r.append(u64_to_decimal(s.bans_total).as_str());
    r.append(" total)");
    r
}

pub open spec fn filter_status_text(f: FilterStatus, findtime: Seq<char>, bantime: Seq<char>) -> Seq<char> {
    "  "@ + padded(f.name@, 16) + " retry "@ + decimal(f.maxretry as nat) + "/"@ + findtime + " ban "@
        + bantime + "  matched "@ + decimal(f.matched as nat) + "  banned "@ + decimal(f.banned as nat)
        + "  "@ + if f.journal {
        "journal"@
    } else {
        join(views(f.files@), ","@)
    }
}

/// The line of `minsec status` for one filter; `findtime` and `bantime`
/// are its window and ban time written out.
pub fn filter_status_line(f: &FilterStatus, findtime: &str, bantime: &str) -> (r: String)
    ensures
        r@ == filter_status_text(*f, findtime@, bantime@),
{
    let mut r = String::from_str("  ");
    r.append(pad_right(f.name.as_str(), 16).as_str());
    r.append(" retry ");
    r.append(u64_to_decimal(f.maxretry as u64).as_str());
    r.append("/");
    r.append(findtime);
    r.append(" ban ");
    r.append(bantime);
    r.append("  matched ");
    r.append(u64_to_decimal(f.matched).as_str());
    r.append("  banned ");
    r.append(u64_to_decimal(f.banned).as_str());
    r.append("  ");
    if f.journal {
        r.append("journal");
    } else {
        r.append(join_strings(&f.files, ",").as_str());
    }
    r
}

/// The last `last` of `events` (all of them where there are fewer), in
/// their order: what `minsec events -n <last>` prints.
pub fn last_events<T>(events: Vec<T>, last: usize) -> (r: Vec<T>)
    ensures
        last >= events.len() ==> r@ == events@,
        last < events.len() ==> r@ == events@.subrange(events.len() - last, events.len() as int),
{
    let mut all = events;
    if last >= all.len() {
        all
    } else {
        let at = all.len() - last;
        all.split_off(at)
    }
}

/// What a key of a TOML table holds, as far as enabling a filter cares.
#[derive(Clone, Copy, Debug, PartialEq, Eq, Structural)]
pub enum Slot {
    Missing,
    Table,
    Other,
}

/// Why `filters.<name>.enabled` cannot be written into a drop-in file.
#[derive(Clone, Copy, Debug, PartialEq, Eq, Structural)]
pub enum ToggleError {
    /// `filters` holds something other than a table.
    FiltersNotTable,
    /// `filters.<name>` holds something other than a table.
    FilterNotTable,
}

/// Whether a drop-in whose `filters` key holds `filters` and whose
/// `filters.<name>` key holds `entry` can take `filters.<name>.enabled`;
/// missing tables are created on the way (an `entry` behind a missing
/// `filters` is missing too).
pub open spec fn toggle_check(filters: Slot, entry: Slot) -> Result<(), ToggleError> {
    match filters {
        Slot::Other => Err(ToggleError::FiltersNotTable),
        Slot::Table => match entry {
            Slot::Other => Err(ToggleError::FilterNotTable),
            _ => Ok(()),
        },
        Slot::Missing => Ok(()),
    }
}

/// Checks that `filters.<name>.enabled` can be written, given what the
/// drop-in's `filters` and `filters.<name>` keys hold.
pub fn check_toggle(filters: Slot, entry: Slot) -> (r: Result<(), ToggleError>)
    ensures
        r == toggle_check(filters, entry),
{
    match filters {
        Slot::Other => Err(ToggleError::FiltersNotTable),
        Slot::Table => match entry {
            Slot::Other => Err(ToggleError::FilterNotTable),
            _ => Ok(()),
        },
        Slot::Missing => Ok(()),
    }
}

pub open spec fn toggle_error_text(e: ToggleError, path: Seq<char>, name: Seq<char>) -> Seq<char> {
    match e {
        ToggleError::FiltersNotTable => path + ": `filters` is not a table"@,
        ToggleError::FilterNotTable => path + ": `filters."@ + name + "` is not a table"@,
    }
}

/// The message of a refused toggle; `path` is the drop-in file.
pub fn toggle_error_message(e: ToggleError, path: &str, name: &str) -> (r: String)
    ensures
        r@ == toggle_error_text(e, path@, name@),
{
    let mut r = String::from_str(path);
    match e {
        ToggleError::FiltersNotTable => r.append(": `filters` is not a table"),
        ToggleError::FilterNotTable => {
            r.append(": `filters.");
            r.append(name);
            r.append("` is not a table");
        },
    }
    r
}

/// The drop-in file, under `conf.d`, that enables or disables a filter.
pub fn dropin_file_name(name: &str) -> (r: String)
    ensures
        r@ == name@ + ".toml"@,
{
    let mut r = String::from_str(name);
    r.append(".toml");
    r
}

pub open spec fn toggle_done_text(enabled: bool, name: Seq<char>, path: Seq<char>) -> Seq<char> {
    (if enabled { "enabled "@ } else { "disabled "@ }) + name + " ("@ + path
        + "); restart minsec to apply"@
}

/// What `minsec enable` / `minsec disable` print once the drop-in is
/// written.
pub fn toggle_done_message(enabled: bool, name: &str, path: &str) -> (r: String)
    ensures
        r@ == toggle_done_text(enabled, name@, path@),
{
    let mut r = if enabled { String::from_str("enabled ") } else { String::from_str("disabled ") };
    r.append(name);
    r.append(" (");
    r.append(path);
    r.append("); restart minsec to apply");
    r
}

} // verus!
