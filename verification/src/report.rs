//! What the `minsec` command line prints: the lines of the one-screen
//! summary of `minsec inspect` (where configuration came from, the allow
//! list, and what each enabled filter reads), and the lines of `check`,
//! `filters`, `list` and `status`.
//!
//! Durations reach these functions already written out, as the duration
//! formatter of the configuration writes them; everything else is laid out
//! here.

use vstd::prelude::*;
use crate::net::{Addr, Net, addr_text, net_text, addr_to_string, net_to_string};
use crate::text::{decimal, join, u64_to_decimal, join_strings, chars_of};
use crate::order::{views, strictly_sorted, sorted_distinct, law_sorted_form_unique};

verus! {

/// `n` spaces.
pub open spec fn spaces(n: nat) -> Seq<char> {
    Seq::new(n, |i: int| ' ')
}

/// `s` filled with spaces on the right up to `width` characters, as
/// `format!("{s:<width$}")` writes it; a longer `s` is left whole.
pub open spec fn padded(s: Seq<char>, width: nat) -> Seq<char> {
    if s.len() < width {
        s + spaces((width - s.len()) as nat)
    } else {
        s
    }
}

/// Left-aligns `s` in a column of `width` characters.
pub fn pad_right(s: &str, width: usize) -> (r: String)
    ensures
        r@ == padded(s@, width as nat),
{
    proof {
        reveal_strlit(" ");
    }
    let n = chars_of(s).len();
    let mut r = String::from_str(s);
    let mut k: usize = n;
    while k < width
        invariant
            n == s@.len(),
            n <= k,
            k <= width || k == n,
            r@ == s@ + spaces((k - n) as nat),
        decreases width - k,
    {
        proof {
            reveal_strlit(" ");
        }
        r.append(" ");
        assert(spaces((k + 1 - n) as nat) =~= spaces((k - n) as nat) + " "@);
        k = k + 1;
    }
    if n >= width {
        assert(r@ =~= s@);
    }
    r
}

/// The view of an optional owned text.
pub open spec fn opt_view(o: Option<String>) -> Option<Seq<char>> {
    match o {
        Some(s) => Some(s@),
        None => None,
    }
}

/// The firewall backend the daemon drives.
#[derive(Clone, Copy, Debug, PartialEq, Eq, Structural)]
pub enum BackendKind {
    Nft,
    Null,
    Exec,
}

/// The backend that `minsec daemon --backend <flag>` selects.
pub open spec fn backend_flag(flag: Seq<char>) -> Option<BackendKind> {
    if flag == "nft"@ {
        Some(BackendKind::Nft)
    } else if flag == "null"@ {
        Some(BackendKind::Null)
    } else if flag == "exec"@ {
        Some(BackendKind::Exec)
    } else {
        None
    }
}

/// Reads the `--backend` flag of `minsec daemon`; `None` for a name that
/// is no backend (the argument parser admits only the three).
pub fn backend_from_flag(flag: &str) -> (r: Option<BackendKind>)
    ensures
        r == backend_flag(flag@),
{
    let f = String::from_str(flag);
    if f == String::from_str("nft") {
        Some(BackendKind::Nft)
    } else if f == String::from_str("null") {
        Some(BackendKind::Null)
    } else if f == String::from_str("exec") {
        Some(BackendKind::Exec)
    } else {
        None
    }
}

/// How the summary names the backend.
pub open spec fn backend_text(kind: BackendKind, command: Option<Seq<char>>) -> Seq<char> {
    match kind {
        BackendKind::Nft => "nft"@,
        BackendKind::Null => "null (deciding, not enforcing)"@,
        BackendKind::Exec => match command {
            Some(c) => "exec `"@ + c + "`"@,
            None => "exec (no exec_command set)"@,
        },
    }
}

/// How the summary describes reading the journal.
pub open spec fn journal_text(journal: bool, available: bool) -> Seq<char> {
    if !journal {
        "off (files only)"@
    } else if available {
        "on"@
    } else {
        "on but not available (files only)"@
    }
}

pub open spec fn backend_line_text(
    kind: BackendKind,
    command: Option<Seq<char>>,
    journal: bool,
    available: bool,
) -> Seq<char> {
    "backend: "@ + backend_text(kind, command) + " · journald: "@ + journal_text(journal, available)
}

/// The summary's backend line: the backend (with its command, for `exec`)
/// and whether the journal is read.
pub fn backend_line(
    kind: BackendKind,
    exec_command: &Option<String>,
    journal: bool,
    journal_available: bool,
) -> (r: String)
    ensures
        r@ == backend_line_text(kind, opt_view(*exec_command), journal, journal_available),
{
    let mut r = String::from_str("backend: ");
    match kind {
        BackendKind::Nft => r.append("nft"),
        BackendKind::Null => r.append("null (deciding, not enforcing)"),
        BackendKind::Exec => match exec_command {
            Some(c) => {
                r.append("exec `");
                r.append(c.as_str());
                r.append("`");
            },
            None => r.append("exec (no exec_command set)"),
        },
    }
    r.append(" · journald: ");
    if !journal {
        r.append("off (files only)");
    } else if journal_available {
        r.append("on");
    } else {
        r.append("on but not available (files only)");
    }
    r
}

pub open spec fn allow_line_text(allow: Seq<Net>) -> Seq<char> {
    "allow: "@ + if allow.len() == 0 {
        "(none configured)"@
    } else {
        join(allow.map_values(|n: Net| net_text(n)), ", "@)
    }
}

/// The summary's line of configured allow-list networks.
pub fn allow_line(allow: &Vec<Net>) -> (r: String)
    ensures
        r@ == allow_line_text(allow@),
{
    let mut texts: Vec<String> = Vec::new();
    let mut i: usize = 0;
    while i < allow.len()
        invariant
            i <= allow.len(),
            views(texts@) =~= allow@.take(i as int).map_values(|n: Net| net_text(n)),
        decreases allow.len() - i,
    {
        let ghost before = texts@;
        texts.push(net_to_string(&allow[i]));
        assert(views(texts@) =~= views(before).push(net_text(allow@[i as int])));
        assert(allow@.take(i + 1) =~= allow@.take(i as int).push(allow@[i as int]));
        i = i + 1;
    }
    assert(allow@.take(allow.len() as int) =~= allow@);
    let mut r = String::from_str("allow: ");
    if allow.len() == 0 {
        r.append("(none configured)");
    } else {
        r.append(join_strings(&texts, ", ").as_str());
    }
    r
}

/// A loopback or unspecified address: `127.0.0.0/8`, `0.0.0.0`, `::1`, `::`.
pub open spec fn is_loopback_or_unspecified(a: Addr) -> bool {
    match a {
        Addr::V4(x) => x / 0x100_0000 == 127 || x == 0,
        Addr::V6(x) => x <= 1,
    }
}

/// The texts of the addresses that are neither loopback nor unspecified,
/// in order.
pub open spec fn host_texts(addrs: Seq<Addr>) -> Seq<Seq<char>>
    decreases addrs.len(),
{
    if addrs.len() == 0 {
        seq![]
    } else if is_loopback_or_unspecified(addrs.last()) {
        host_texts(addrs.drop_last())
    } else {
        host_texts(addrs.drop_last()).push(addr_text(addrs.last()))
    }
}

/// Only loopback and unspecified addresses are left out of the host list:
/// an IPv4 address is dropped exactly when it lies in 127.0.0.0/8 or is
/// 0.0.0.0, an IPv6 one exactly when it is `::1` or `::`; every other
/// address is listed, written as the standard library writes it, and the
/// list of several addresses is the lists of each, in order.
pub proof fn law_host_list_drops_only_loopback(a: Addr, rest: Seq<Addr>)
    ensures
        host_texts(seq![a]) == if match a {
            Addr::V4(x) => x == 0 || (0x7f00_0000 <= x && x < 0x8000_0000),
            Addr::V6(y) => y == 0 || y == 1,
        } {
            Seq::<Seq<char>>::empty()
        } else {
            seq![addr_text(a)]
        },
        host_texts(rest.push(a)) == host_texts(rest) + host_texts(seq![a]),
{
    let one = seq![a];
    assert(one.drop_last() =~= Seq::<Addr>::empty());
    assert(one.last() == a);
    assert(host_texts(Seq::<Addr>::empty()) =~= Seq::<Seq<char>>::empty());
    assert(rest.push(a).drop_last() =~= rest);
    assert(rest.push(a).last() == a);
    assert(host_texts(rest).push(addr_text(a)) =~= host_texts(rest) + seq![addr_text(a)]);
    assert(Seq::<Seq<char>>::empty().push(addr_text(a)) =~= seq![addr_text(a)]);
    match a {
        Addr::V4(x) => {
            assert((x / 0x100_0000 == 127) <==> (0x7f00_0000 <= x && x < 0x8000_0000));
        },
        Addr::V6(_) => {},
    }
    assert(host_texts(rest) + Seq::<Seq<char>>::empty() =~= host_texts(rest));
}

fn is_loopback_or_unspecified_exec(a: Addr) -> (r: bool)
    ensures
        r == is_loopback_or_unspecified(a),
{
    match a {
        Addr::V4(x) => x / 0x100_0000 == 127 || x == 0,
        Addr::V6(x) => x <= 1,
    }
}

/// This host's own addresses as the summary lists them: loopback and
/// unspecified ones left out, the rest written out, sorted, each once.
pub fn host_addresses(addrs: &Vec<Addr>) -> (r: Vec<String>)
    ensures
        strictly_sorted(views(r@)),
        forall|t: Seq<char>| views(r@).contains(t) <==> host_texts(addrs@).contains(t),
{
    let mut texts: Vec<String> = Vec::new();
    let mut i: usize = 0;
    while i < addrs.len()
        invariant
            i <= addrs.len(),
            views(texts@) == host_texts(addrs@.take(i as int)),
        decreases addrs.len() - i,
    {
        assert(addrs@.take(i + 1).drop_last() =~= addrs@.take(i as int));
        if !is_loopback_or_unspecified_exec(addrs[i]) {
            let ghost before = texts@;
            texts.push(addr_to_string(addrs[i]));
            assert(views(texts@) =~= views(before).push(addr_text(addrs@[i as int])));
        }
        i = i + 1;
    }
    assert(addrs@.take(addrs.len() as int) =~= addrs@);
    sorted_distinct(&texts)
}

pub open spec fn always_line_text(hosts: Seq<Seq<char>>) -> Seq<char> {
    "  always: loopback, "@ + if hosts.len() == 0 {
        "this host's addresses"@
    } else {
        join(hosts, ", "@)
    }
}

/// The summary's line of what is always allowed: loopback and the host's
/// own addresses, `hosts` as `host_addresses` gives them.
pub fn always_line(hosts: &Vec<String>) -> (r: String)
    ensures
        r@ == always_line_text(views(hosts@)),
{
    let mut r = String::from_str("  always: loopback, ");
    if hosts.len() == 0 {
        r.append("this host's addresses");
    } else {
        r.append(join_strings(hosts, ", ").as_str());
    }
    r
}

/// What `std::path::Path::strip_prefix` leaves of a path once a base is
/// taken off its front, component by component, as text; `None` where the
/// base is not a prefix of the path.
pub uninterp spec fn path_strip_prefix(path: Seq<char>, base: Seq<char>) -> Option<Seq<char>>;

/// `std::path::Path::strip_prefix`, on paths written as text. Which
/// prefixes it accepts and what it leaves (it compares whole components
/// and ignores repeated separators) is named, not stated: the result is
/// a function of the two texts.
#[verifier::external_body]
fn strip_path_prefix(path: &str, base: &str) -> (r: Option<String>)
    ensures
        opt_view(r) == path_strip_prefix(path@, base@),
{
    std::path::Path::new(path).strip_prefix(base).ok().and_then(|rest| rest.to_str()).map(String::from)
}

/// A path as the summary shows it, given what taking the configuration
/// directory off its front left: that rest, or the whole path where the
/// directory is no prefix of it.
pub open spec fn relative_text(path: Seq<char>, stripped: Option<Seq<char>>) -> Seq<char> {
    match stripped {
        Some(rest) => rest,
        None => path,
    }
}

/// Writes a path relative to the configuration directory, given the result
/// of stripping the directory off it.
pub fn relative_from(path: &str, stripped: Option<String>) -> (r: String)
    ensures
        r@ == relative_text(path@, opt_view(stripped)),
{
    match stripped {
        Some(rest) => rest,
        None => String::from_str(path),
    }
}

/// A path relative to the configuration directory where it lies inside it,
/// else whole.
pub fn relative(path: &str, config_dir: &str) -> (r: String)
    ensures
        r@ == relative_text(path@, path_strip_prefix(path@, config_dir@)),
{
    let stripped = strip_path_prefix(path, config_dir);
    relative_from(path, stripped)
}

/// The effective policy of a filter, as the summary shows it.
#[derive(Debug)]
pub struct PolicyReport {
    pub maxretry: u32,
    /// The find window, as the duration formatter writes it.
    pub findtime: String,
    /// The ban time, as the duration formatter writes it.
    pub bantime: String,
    pub ports: Vec<u16>,
    pub via_journal: bool,
    /// The journal matches the filter reads, when it reads the journal.
    pub journal_matches: Vec<String>,
    pub files: Vec<String>,
    /// Those of `files` that do not exist.
    pub absent_files: Vec<String>,
}

/// One filter of an inspection: whether it is enabled, whether it is built
/// in or comes from a file (`source`), and its effective policy.
#[derive(Debug)]
pub struct FilterReport {
    pub name: String,
    pub enabled: bool,
    pub builtin: bool,
    pub source: String,
    pub policy: PolicyReport,
}

pub open spec fn ports_note_text(ports: Seq<u16>) -> Seq<char> {
    if ports.len() == 0 {
        seq![]
    } else {
        " · ports "@ + join(ports.map_values(|p: u16| decimal(p as nat)), ","@)
    }
}

pub open spec fn origin_note_text(builtin: bool, origin: Seq<char>) -> Seq<char> {
    if builtin {
        seq![]
    } else {
        "  ("@ + origin + ")"@
    }
}

/// The row of an enabled filter: name, retries, window, ban time, ports,
/// and, for a filter from a file, that file (`origin`).
pub open spec fn filter_row_text(f: FilterReport, origin: Seq<char>) -> Seq<char> {
    "  "@ + padded(f.name@, 14) + " retry "@ + decimal(f.policy.maxretry as nat) + " in "@
        + f.policy.findtime@ + " · ban "@ + f.policy.bantime@ + ports_note_text(f.policy.ports@)
        + origin_note_text(f.builtin, origin)
}

/// The files a filter reads, each marked where it does not exist.
pub open spec fn marked_files(files: Seq<Seq<char>>, absent: Seq<Seq<char>>) -> Seq<Seq<char>> {
    files.map_values(|f: Seq<char>| if absent.contains(f) { f + " (absent)"@ } else { f })
}

/// The line under a filter's row: what it reads.
pub open spec fn source_line_text(p: PolicyReport) -> Seq<char> {
    if p.via_journal {
        spaces(17) + "journal: "@ + join(views(p.journal_matches@), ", "@)
    } else if p.files.len() == 0 {
        spaces(17) + "source: none (no files and journald not in use) — filter is inert"@
    } else {
        spaces(17) + "files: "@ + join(marked_files(views(p.files@), views(p.absent_files@)), ", "@)
    }
}

/// How a disabled filter is listed.
pub open spec fn disabled_name_text(f: FilterReport) -> Seq<char> {
    if f.builtin {
        f.name@
    } else {
        f.name@ + " (custom)"@
    }
}

pub open spec fn count_enabled(fs: Seq<FilterReport>) -> nat
    decreases fs.len(),
{
    if fs.len() == 0 {
        0
    } else {
        count_enabled(fs.drop_last()) + if fs.last().enabled { 1nat } else { 0nat }
    }
}

/// Row and source line of each enabled filter, in order.
pub open spec fn enabled_rows(fs: Seq<FilterReport>, dir: Seq<char>) -> Seq<Seq<char>>
    decreases fs.len(),
{
    if fs.len() == 0 {
        seq![]
    } else if fs.last().enabled {
        let f = fs.last();
        enabled_rows(fs.drop_last(), dir)
            + seq![filter_row_text(f, relative_text(f.source@, path_strip_prefix(f.source@, dir))),
                source_line_text(f.policy)]
    } else {
        enabled_rows(fs.drop_last(), dir)
    }
}

/// The disabled filters, in order, as they are listed.
pub open spec fn disabled_names(fs: Seq<FilterReport>) -> Seq<Seq<char>>
    decreases fs.len(),
{
    if fs.len() == 0 {
        seq![]
    } else if fs.last().enabled {
        disabled_names(fs.drop_last())
    } else {
        disabled_names(fs.drop_last()).push(disabled_name_text(fs.last()))
    }
}

pub open spec fn enabled_header_text(enabled: nat, total: nat) -> Seq<char> {
    "enabled filters ("@ + decimal(enabled) + " of "@ + decimal(total) + "):"@
}

/// The filter part of the summary: a count, each enabled filter with what
/// it reads, then the disabled ones on one line (left out when none is).
pub open spec fn filter_section_text(fs: Seq<FilterReport>, dir: Seq<char>) -> Seq<Seq<char>> {
    seq![enabled_header_text(count_enabled(fs), fs.len())] + enabled_rows(fs, dir)
        + if disabled_names(fs).len() == 0 {
            Seq::<Seq<char>>::empty()
        } else {
            seq!["disabled: "@ + join(disabled_names(fs), ", "@)]
        }
}

fn ports_note(ports: &Vec<u16>) -> (r: String)
    ensures
        r@ == ports_note_text(ports@),
{
    if ports.len() == 0 {
        return String::new();
    }
    let mut texts: Vec<String> = Vec::new();
    let mut i: usize = 0;
    while i < ports.len()
        invariant
            i <= ports.len(),
            views(texts@) =~= ports@.take(i as int).map_values(|p: u16| decimal(p as nat)),
        decreases ports.len() - i,
    {
        let ghost before = texts@;
        texts.push(u64_to_decimal(ports[i] as u64));
        assert(views(texts@) =~= views(before).push(decimal(ports@[i as int] as nat)));
        assert(ports@.take(i + 1) =~= ports@.take(i as int).push(ports@[i as int]));
        i = i + 1;
    }
    assert(ports@.take(ports.len() as int) =~= ports@);
    let mut r = String::from_str(" · ports ");
    r.append(join_strings(&texts, ",").as_str());
    r
}

/// The row of an enabled filter; `origin` is its file relative to the
/// configuration directory (unused for a built-in filter).
pub fn filter_row(f: &FilterReport, origin: &str) -> (r: String)
    ensures
        r@ == filter_row_text(*f, origin@),
{
    let mut r = String::from_str("  ");
    r.append(pad_right(f.name.as_str(), 14).as_str());
    r.append(" retry ");
    r.append(u64_to_decimal(f.policy.maxretry as u64).as_str());
    r.append(" in ");
    r.append(f.policy.findtime.as_str());
    r.append(" · ban ");
    r.append(f.policy.bantime.as_str());
    r.append(ports_note(&f.policy.ports).as_str());
    if !f.builtin {
        r.append("  (");
        r.append(origin);
        r.append(")");
    }
    r
}

fn contains_text(items: &Vec<String>, x: &String) -> (r: bool)
    ensures
        r == views(items@).contains(x@),
{
    let mut i: usize = 0;
    while i < items.len()
        invariant
            i <= items.len(),
            forall|k: int| 0 <= k < i ==> views(items@)[k] != x@,
        decreases items.len() - i,
    {
        if items[i] == *x {
            assert(views(items@)[i as int] == x@);
            return true;
        }
        i = i + 1;
    }
    false
}

/// The line under an enabled filter's row: the journal matches it reads,
/// or its files with the missing ones marked, or that it reads nothing.
pub fn source_line(p: &PolicyReport) -> (r: String)
    ensures
        r@ == source_line_text(*p),
{
    let mut r = pad_right("", 17);
    proof {
        reveal_strlit("");
    }
    assert(r@ =~= spaces(17));
    if p.via_journal {
        r.append("journal: ");
        r.append(join_strings(&p.journal_matches, ", ").as_str());
    } else if p.files.len() == 0 {
        r.append("source: none (no files and journald not in use) — filter is inert");
    } else {
        let ghost absent = views(p.absent_files@);
        let mut marked: Vec<String> = Vec::new();
        let mut i: usize = 0;
        while i < p.files.len()
            invariant
                i <= p.files.len(),
                absent == views(p.absent_files@),
                views(marked@) =~= marked_files(views(p.files@).take(i as int), absent),
            decreases p.files.len() - i,
        {
            let file = &p.files[i];
            let ghost before = marked@;
            if contains_text(&p.absent_files, file) {
                let mut m = file.clone();
                m.append(" (absent)");
                marked.push(m);
            } else {
                marked.push(file.clone());
            }
            assert(views(p.files@).take(i + 1) =~= views(p.files@).take(i as int).push(file@));
            assert(views(marked@) =~= views(before).push(
                if absent.contains(file@) { file@ + " (absent)"@ } else { file@ },
            ));
            i = i + 1;
        }
        assert(views(p.files@).take(p.files.len() as int) =~= views(p.files@));
        r.append("files: ");
        r.append(join_strings(&marked, ", ").as_str());
    }
    r
}

/// The filter part of the summary, line by line; `config_dir` is the
/// configuration directory, against which filter files are shown.
pub fn filter_section(filters: &Vec<FilterReport>, config_dir: &str) -> (r: Vec<String>)
    ensures
        views(r@) == filter_section_text(filters@, config_dir@),
{
    let mut rows: Vec<String> = Vec::new();
    let mut disabled: Vec<String> = Vec::new();
    let mut enabled: usize = 0;
    let mut i: usize = 0;
    while i < filters.len()
        invariant
            i <= filters.len(),
            enabled <= i,
            enabled == count_enabled(filters@.take(i as int)),
            views(rows@) == enabled_rows(filters@.take(i as int), config_dir@),
            views(disabled@) == disabled_names(filters@.take(i as int)),
        decreases filters.len() - i,
    {
        let f = &filters[i];
        let ghost prefix = filters@.take(i as int);
        assert(filters@.take(i + 1).drop_last() =~= prefix);
        assert(filters@.take(i + 1).last() == *f);
        if f.enabled {
            enabled = enabled + 1;
            let origin = relative(f.source.as_str(), config_dir);
            let ghost before = rows@;
            rows.push(filter_row(f, origin.as_str()));
            rows.push(source_line(&f.policy));
            assert(views(rows@) =~= views(before) + seq![
                filter_row_text(*f, origin@),
                source_line_text(f.policy),
            ]);
        } else {
            let ghost before = disabled@;
            let mut name = f.name.clone();
            if !f.builtin {
                name.append(" (custom)");
            }
            disabled.push(name);
            assert(views(disabled@) =~= views(before).push(disabled_name_text(*f)));
        }
        i = i + 1;
    }
    assert(filters@.take(filters.len() as int) =~= filters@);
    let mut header = String::from_str("enabled filters (");
    header.append(u64_to_decimal(enabled as u64).as_str());
    header.append(" of ");
    header.append(u64_to_decimal(filters.len() as u64).as_str());
    header.append("):");
    let mut r: Vec<String> = Vec::new();
    r.push(header);
    let ghost first = views(r@);
    r.append(&mut rows);
    assert(views(r@) =~= first + enabled_rows(filters@, config_dir@));
    if disabled.len() > 0 {
        let ghost before = views(r@);
        let mut line = String::from_str("disabled: ");
        line.append(join_strings(&disabled, ", ").as_str());
        r.push(line);
        assert(views(r@) =~= before + seq!["disabled: "@ + join(disabled_names(filters@), ", "@)]);
    } else {
        assert(views(r@) =~= views(r@) + Seq::<Seq<char>>::empty());
    }
    r
}

pub open spec fn title_line_text(version: Seq<char>, config_dir: Seq<char>, schema: nat) -> Seq<char> {
    "minsec "@ + version + " · config "@ + config_dir + " · schema "@ + decimal(schema)
}

/// The summary's first line: version, configuration directory, and the
/// version of the inspection schema.
pub fn title_line(version: &str, config_dir: &str, schema_version: u32) -> (r: String)
    ensures
        r@ == title_line_text(version@, config_dir@, schema_version as nat),
{
    let mut r = String::from_str("minsec ");
    r.append(version);
    r.append(" · config ");
    r.append(config_dir);
    r.append(" · schema ");
    r.append(u64_to_decimal(schema_version as u64).as_str());
    r
}

/// Each path relative to the configuration directory where it lies in it.
pub open spec fn relative_all(paths: Seq<Seq<char>>, dir: Seq<char>) -> Seq<Seq<char>> {
    paths.map_values(|p: Seq<char>| relative_text(p, path_strip_prefix(p, dir)))
}

pub open spec fn files_line_text(
    main: Option<Seq<char>>,
    main_config: Seq<char>,
    dropins: Seq<Seq<char>>,
    customs: Seq<Seq<char>>,
    dir: Seq<char>,
) -> Seq<char> {
    let first = match main {
        Some(m) => relative_text(m, path_strip_prefix(m, dir)),
        None => relative_text(main_config, path_strip_prefix(main_config, dir)) + " (missing)"@,
    };
    "files: "@ + join(seq![first] + relative_all(dropins, dir) + relative_all(customs, dir), ", "@)
}

fn push_relative(texts: &mut Vec<String>, paths: &Vec<String>, config_dir: &str)
    ensures
        views(final(texts)@) == views(old(texts)@) + relative_all(views(paths@), config_dir@),
{
    let ghost start = views(texts@);
    let mut i: usize = 0;
    while i < paths.len()
        invariant
            i <= paths.len(),
            views(texts@) =~= start + relative_all(views(paths@).take(i as int), config_dir@),
        decreases paths.len() - i,
    {
        let ghost before = views(texts@);
        texts.push(relative(paths[i].as_str(), config_dir));
        assert(views(paths@).take(i + 1) =~= views(paths@).take(i as int).push(paths@[i as int]@));
        assert(views(texts@) =~= before.push(
            relative_text(paths@[i as int]@, path_strip_prefix(paths@[i as int]@, config_dir@)),
        ));
        i = i + 1;
    }
    assert(views(paths@).take(paths.len() as int) =~= views(paths@));
}

/// The summary's line of configuration files: the main file (or where it
/// was looked for, marked missing), the drop-ins, then the custom filters,
/// each relative to the configuration directory.
pub fn files_line(
    main: &Option<String>,
    main_config: &str,
    dropins: &Vec<String>,
    custom_filters: &Vec<String>,
    config_dir: &str,
) -> (r: String)
    ensures
        r@ == files_line_text(
            opt_view(*main),
            main_config@,
            views(dropins@),
            views(custom_filters@),
            config_dir@,
        ),
{
    let first = match main {
        Some(m) => relative(m.as_str(), config_dir),
        None => {
            let mut t = relative(main_config, config_dir);
            t.append(" (missing)");
            t
        },
    };
    let ghost head = first@;
    let mut texts: Vec<String> = Vec::new();
    texts.push(first);
    assert(views(texts@) =~= seq![head]);
    push_relative(&mut texts, dropins, config_dir);
    push_relative(&mut texts, custom_filters, config_dir);
    assert(views(texts@) =~= seq![head] + relative_all(views(dropins@), config_dir@)
        + relative_all(views(custom_filters@), config_dir@));
    let mut r = String::from_str("files: ");
    r.append(join_strings(&texts, ", ").as_str());
    r
}

pub open spec fn paths_line_text(socket: Seq<char>, state_dir: Seq<char>) -> Seq<char> {
    "paths: socket "@ + socket + " · state "@ + state_dir
}

/// The summary's line of the control socket and the state directory.
pub fn paths_line(socket: &str, state_dir: &str) -> (r: String)
    ensures
        r@ == paths_line_text(socket@, state_dir@),
{
    let mut r = String::from_str("paths: socket ");
    r.append(socket);
    r.append(" · state ");
    r.append(state_dir);
    r
}

proof fn lemma_filter_counts(fs: Seq<FilterReport>, dir: Seq<char>)
    ensures
        count_enabled(fs) <= fs.len(),
        enabled_rows(fs, dir).len() == 2 * count_enabled(fs),
        disabled_names(fs).len() == fs.len() - count_enabled(fs),
    decreases fs.len(),
{
    if fs.len() > 0 {
        lemma_filter_counts(fs.drop_last(), dir);
    }
}

/// The filter part of the summary stays short: a header, two lines for
/// each enabled filter, and one line for all the disabled ones together,
/// left out when there are none.
pub proof fn law_filter_section_lines(fs: Seq<FilterReport>, dir: Seq<char>)
    ensures
        filter_section_text(fs, dir).len() == 1 + 2 * count_enabled(fs)
            + if count_enabled(fs) < fs.len() { 1int } else { 0int },
{
    lemma_filter_counts(fs, dir);
}

pub open spec fn escalate_text(enabled: bool, factor: nat, max: Seq<char>, memory: Seq<char>) -> Seq<char> {
    if enabled {
        "escalate x"@ + decimal(factor) + " up to "@ + max + " (remembered "@ + memory + ")"@
    } else {
        "escalate off"@
    }
}

pub open spec fn defaults_line_text(
    maxretry: nat,
    findtime: Seq<char>,
    bantime: Seq<char>,
    escalate: Seq<char>,
    ipv6_prefix: nat,
    max_tracked: nat,
) -> Seq<char> {
    "defaults: retry "@ + decimal(maxretry) + " in "@ + findtime + " · ban "@ + bantime + " · "@
        + escalate + " · ipv6 /"@ + decimal(ipv6_prefix) + " · max tracked "@ + decimal(max_tracked)
}

/// The summary's line of default policy: retries within the window, ban
/// time, escalation of repeat bans (by `factor`, up to `max`, remembered
/// for `memory`), the prefix IPv6 offenders are banned by, and how many
/// addresses are tracked at most. Durations come written out.
pub fn defaults_line(
    maxretry: u32,
    findtime: &str,
    bantime: &str,
    escalate_enabled: bool,
    factor: u32,
    max: &str,
    memory: &str,
    ipv6_prefix: u8,
    max_tracked: usize,
) -> (r: String)
    ensures
        r@ == defaults_line_text(
            maxretry as nat,
            findtime@,
            bantime@,
            escalate_text(escalate_enabled, factor as nat, max@, memory@),
            ipv6_prefix as nat,
            max_tracked as nat,
        ),
{
    let mut r = String::from_str("defaults: retry ");
    r.append(u64_to_decimal(maxretry as u64).as_str());
    r.append(" in ");
    r.append(findtime);
    r.append(" · ban ");
    r.append(bantime);
    r.append(" · ");
    if escalate_enabled {
        r.append("escalate x");
        r.append(u64_to_decimal(factor as u64).as_str());
        r.append(" up to ");
        r.append(max);
        r.append(" (remembered ");
        r.append(memory);
        r.append(")");
    } else {
        r.append("escalate off");
    }
    r.append(" · ipv6 /");
    r.append(u64_to_decimal(ipv6_prefix as u64).as_str());
    r.append(" · max tracked ");
    r.append(u64_to_decimal(max_tracked as u64).as_str());
    r
}

/// The effective defaults of an inspection, as the summary shows them;
/// durations come written out.
#[derive(Debug)]
pub struct DefaultsReport {
    pub maxretry: u32,
    pub findtime: String,
    pub bantime: String,
    pub escalate_enabled: bool,
    pub escalate_factor: u32,
    pub escalate_max: String,
    pub escalate_memory: String,
    pub ipv6_prefix: u8,
    pub max_tracked: usize,
    pub journal: bool,
    pub backend: BackendKind,
    pub exec_command: Option<String>,
    pub allow: Vec<Net>,
}

/// What `minsec inspect` found: version, where configuration came from,
/// the paths in use, the effective defaults, whether the journal can be
/// read, the host's own addresses, and every filter.
#[derive(Debug)]
pub struct InspectionReport {
    pub version: String,
    pub schema_version: u32,
    pub config_dir: String,
    pub main_config: String,
    /// The main configuration file, where it exists.
    pub main_file: Option<String>,
    pub dropins: Vec<String>,
    pub custom_filters: Vec<String>,
    pub control_socket: String,
    pub state_dir: String,
    pub defaults: DefaultsReport,
    pub journal_available: bool,
    pub local_addresses: Vec<Addr>,
    pub filters: Vec<FilterReport>,
}

/// The host's addresses as the summary lists them: sorted, each once,
/// loopback and unspecified ones left out (the one such list, by
/// `law_sorted_form_unique`).
pub open spec fn sorted_hosts(addrs: Seq<Addr>) -> Seq<Seq<char>> {
    choose|h: Seq<Seq<char>>|
        strictly_sorted(h) && forall|t: Seq<char>| h.contains(t) <==> host_texts(addrs).contains(t)
}

pub open spec fn defaults_text(d: DefaultsReport) -> Seq<char> {
    defaults_line_text(
        d.maxretry as nat,
        d.findtime@,
        d.bantime@,
        escalate_text(d.escalate_enabled, d.escalate_factor as nat, d.escalate_max@, d.escalate_memory@),
        d.ipv6_prefix as nat,
        d.max_tracked as nat,
    )
}

/// The one-screen summary of an inspection, line by line: title, files,
/// paths, defaults, backend, the allow list followed by what is always
/// allowed, then the filters.
pub open spec fn summary_text(r: InspectionReport) -> Seq<Seq<char>> {
    seq![
        title_line_text(r.version@, r.config_dir@, r.schema_version as nat),
        files_line_text(
            opt_view(r.main_file),
            r.main_config@,
            views(r.dropins@),
            views(r.custom_filters@),
            r.config_dir@,
        ),
        paths_line_text(r.control_socket@, r.state_dir@),
        defaults_text(r.defaults),
        backend_line_text(
            r.defaults.backend,
            opt_view(r.defaults.exec_command),
            r.defaults.journal,
            r.journal_available,
        ),
        allow_line_text(r.defaults.allow@),
        always_line_text(sorted_hosts(r.local_addresses@)),
    ] + filter_section_text(r.filters@, r.config_dir@)
}

/// The summary `minsec inspect` prints, line by line.
pub fn summary_lines(r: &InspectionReport) -> (lines: Vec<String>)
    ensures
        views(lines@) == summary_text(*r),
{
    let d = &r.defaults;
    let mut lines: Vec<String> = Vec::new();
    lines.push(title_line(r.version.as_str(), r.config_dir.as_str(), r.schema_version));
    lines.push(files_line(&r.main_file, r.main_config.as_str(), &r.dropins, &r.custom_filters, r.config_dir.as_str()));
    lines.push(paths_line(r.control_socket.as_str(), r.state_dir.as_str()));
    lines.push(defaults_line(
        d.maxretry,
        d.findtime.as_str(),
        d.bantime.as_str(),
        d.escalate_enabled,
        d.escalate_factor,
        d.escalate_max.as_str(),
        d.escalate_memory.as_str(),
        d.ipv6_prefix,
        d.max_tracked,
    ));
    lines.push(backend_line(d.backend, &d.exec_command, d.journal, r.journal_available));
    lines.push(allow_line(&d.allow));
    let hosts = host_addresses(&r.local_addresses);
    proof {
        let h = views(hosts@);
        let chosen = sorted_hosts(r.local_addresses@);
        assert(strictly_sorted(chosen) && forall|t: Seq<char>|
            chosen.contains(t) <==> host_texts(r.local_addresses@).contains(t));
        law_sorted_form_unique(h, chosen);
    }
    lines.push(always_line(&hosts));
    let ghost head = views(lines@);
    let mut rest = filter_section(&r.filters, r.config_dir.as_str());
    lines.append(&mut rest);
    assert(views(lines@) =~= head + filter_section_text(r.filters@, r.config_dir@));
    assert(head =~= summary_text(*r).take(7));
    assert(summary_text(*r) =~= summary_text(*r).take(7) + filter_section_text(r.filters@, r.config_dir@));
    lines
}

/// The shape of the summary: seven lines about configuration, the allow
/// line directly followed by the line of what is always allowed (which
/// begins with loopback), then the filter part; one line for all disabled
/// filters together, so that it stays on one screen: at most nine lines
/// beyond two for each enabled filter.
pub proof fn law_summary_shape(r: InspectionReport)
    ensures
        summary_text(r).len() == 8 + 2 * count_enabled(r.filters@)
            + if count_enabled(r.filters@) < r.filters@.len() { 1int } else { 0int },
        summary_text(r).len() <= 9 + 2 * count_enabled(r.filters@),
        summary_text(r)[5] == allow_line_text(r.defaults.allow@),
        summary_text(r)[6].take(18) == "  always: loopback"@,
        summary_text(r)[7] == enabled_header_text(count_enabled(r.filters@), r.filters@.len()),
{
    law_filter_section_lines(r.filters@, r.config_dir@);
    reveal_strlit("  always: loopback");
    reveal_strlit("  always: loopback, ");
    let h = sorted_hosts(r.local_addresses@);
    let tail = if h.len() == 0 { "this host's addresses"@ } else { join(h, ", "@) };
    assert(always_line_text(h) == "  always: loopback, "@ + tail);
    assert(("  always: loopback, "@ + tail).take(18) =~= "  always: loopback"@);
}

} // verus!
