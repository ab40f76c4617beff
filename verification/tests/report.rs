use minsec::net::{Addr, Net};
use minsec::order::{sorted_distinct, text_less};
use minsec::report::{
    allow_line, always_line, backend_from_flag, backend_line, defaults_line, files_line, filter_row, filter_section,
    host_addresses, pad_right, paths_line, relative, relative_from, source_line, summary_lines, title_line,
    BackendKind, DefaultsReport, FilterReport, InspectionReport, PolicyReport,
};

fn strings(items: &[&str]) -> Vec<String> {
    items.iter().map(|s| s.to_string()).collect()
}

fn policy(files: &[&str], absent: &[&str]) -> PolicyReport {
    PolicyReport {
        maxretry: 5,
        findtime: "10m".to_string(),
        bantime: "1h".to_string(),
        ports: vec![],
        via_journal: false,
        journal_matches: vec![],
        files: strings(files),
        absent_files: strings(absent),
    }
}

fn filter(name: &str, enabled: bool, builtin: bool, source: &str, policy: PolicyReport) -> FilterReport {
    FilterReport { name: name.to_string(), enabled, builtin, source: source.to_string(), policy }
}

#[test]
fn text_order_is_the_order_of_strings() {
    assert!(text_less("10.0.0.1", "10.0.0.2"));
    assert!(!text_less("b", "a"));
    assert!(text_less("ab", "abc"));
    assert!(!text_less("abc", "abc"));
    assert!(text_less("Z", "a"));
    assert!(text_less("a", "é"));
    let items = strings(&["sshd", "apache-auth", "sshd", "custom", "apache-auth"]);
    assert_eq!(sorted_distinct(&items), strings(&["apache-auth", "custom", "sshd"]));
    assert_eq!(sorted_distinct(&vec![]), Vec::<String>::new());
}

#[test]
fn padding_fills_to_the_column() {
    assert_eq!(pad_right("ab", 5), "ab   ");
    assert_eq!(pad_right("abcdef", 3), "abcdef");
    assert_eq!(pad_right("", 4), "    ");
    assert_eq!(pad_right("é", 3), "é  ");
}

#[test]
fn backend_flag_and_line() {
    assert_eq!(backend_from_flag("nft"), Some(BackendKind::Nft));
    assert_eq!(backend_from_flag("null"), Some(BackendKind::Null));
    assert_eq!(backend_from_flag("exec"), Some(BackendKind::Exec));
    assert_eq!(backend_from_flag("iptables"), None);
    assert_eq!(backend_line(BackendKind::Nft, &None, true, true), "backend: nft · journald: on");
    assert_eq!(
        backend_line(BackendKind::Null, &None, false, true),
        "backend: null (deciding, not enforcing) · journald: off (files only)"
    );
    assert_eq!(
        backend_line(BackendKind::Exec, &Some("/usr/local/bin/ban".to_string()), true, false),
        "backend: exec `/usr/local/bin/ban` · journald: on but not available (files only)"
    );
    assert_eq!(
        backend_line(BackendKind::Exec, &None, false, false),
        "backend: exec (no exec_command set) · journald: off (files only)"
    );
}

#[test]
fn allow_and_always_lines() {
    let ten = Net { addr: Addr::V4(0x0a00_0000), len: 8 };
    let doc = Net { addr: Addr::V6(0x2001_0db8 << 96), len: 32 };
    assert_eq!(allow_line(&vec![]), "allow: (none configured)");
    assert_eq!(allow_line(&vec![ten]), "allow: 10.0.0.0/8");
    assert_eq!(allow_line(&vec![ten, doc]), "allow: 10.0.0.0/8, 2001:db8::/32");
    assert_eq!(always_line(&vec![]), "  always: loopback, this host's addresses");
}

#[test]
fn host_addresses_leave_out_loopback_and_repeat_nothing() {
    let addrs = vec![
        Addr::V4(0x7f00_0001),
        Addr::V4(0xc0a8_0105),
        Addr::V6(1),
        Addr::V4(0x0a00_0001),
        Addr::V4(0xc0a8_0105),
        Addr::V4(0),
        Addr::V6(0),
        Addr::V6(0xfe80 << 112 | 1),
        Addr::V4(0x7f01_0203),
    ];
    let hosts = host_addresses(&addrs);
    assert_eq!(hosts, strings(&["10.0.0.1", "192.168.1.5", "fe80::1"]));
    assert_eq!(always_line(&hosts), "  always: loopback, 10.0.0.1, 192.168.1.5, fe80::1");
    assert!(host_addresses(&vec![Addr::V4(0x7f00_0001), Addr::V6(1)]).is_empty());
}

#[test]
fn paths_are_shown_relative_to_the_configuration_directory() {
    assert_eq!(relative("/etc/minsec/filters/custom.toml", "/etc/minsec"), "filters/custom.toml");
    assert_eq!(relative("/etc/minsec/filters/custom.toml", "/etc/minsec/"), "filters/custom.toml");
    assert_eq!(relative("/var/log/auth.log", "/etc/minsec"), "/var/log/auth.log");
    assert_eq!(relative("/etc/minsecx/a.toml", "/etc/minsec"), "/etc/minsecx/a.toml");
    assert_eq!(relative("/etc/minsec", "/etc/minsec"), "");
    assert_eq!(relative_from("/a/b", Some("b".to_string())), "b");
    assert_eq!(relative_from("/a/b", None), "/a/b");
}

#[test]
fn title_files_and_paths_lines() {
    assert_eq!(title_line("0.1.0", "/etc/minsec", 1), "minsec 0.1.0 · config /etc/minsec · schema 1");
    assert_eq!(
        files_line(
            &None,
            "/etc/minsec/minsec.toml",
            &strings(&["/etc/minsec/conf.d/sshd.toml"]),
            &strings(&["/etc/minsec/filters/custom.toml"]),
            "/etc/minsec",
        ),
        "files: minsec.toml (missing), conf.d/sshd.toml, filters/custom.toml"
    );
    assert_eq!(
        files_line(&Some("/etc/minsec/minsec.toml".to_string()), "/etc/minsec/minsec.toml", &vec![], &vec![], "/etc/minsec"),
        "files: minsec.toml"
    );
    assert_eq!(
        paths_line("/run/minsec.sock", "/var/lib/minsec"),
        "paths: socket /run/minsec.sock · state /var/lib/minsec"
    );
}

#[test]
fn filter_rows_and_sources() {
    let mut p = policy(&["/var/log/auth.log"], &[]);
    p.ports = vec![22, 2222];
    let sshd = filter("sshd", true, true, "builtin", p);
    assert_eq!(filter_row(&sshd, "unused"), "  sshd           retry 5 in 10m · ban 1h · ports 22,2222");
    assert_eq!(source_line(&sshd.policy), "                 files: /var/log/auth.log");

    let mut j = policy(&[], &[]);
    j.via_journal = true;
    j.journal_matches = strings(&["_SYSTEMD_UNIT=sshd.service", "_COMM=sshd"]);
    assert_eq!(source_line(&j), "                 journal: _SYSTEMD_UNIT=sshd.service, _COMM=sshd");
    let inert = policy(&[], &[]);
    assert_eq!(
        source_line(&inert),
        "                 source: none (no files and journald not in use) — filter is inert"
    );
    let some_absent = policy(&["/a.log", "/b.log"], &["/b.log"]);
    assert_eq!(source_line(&some_absent), "                 files: /a.log, /b.log (absent)");
}

#[test]
fn filter_section_of_an_inspection() {
    let dir = "/tmp/minsec-cli";
    let filters = vec![
        filter("apache-auth", false, true, "builtin", policy(&["/var/log/apache2/error.log"], &[])),
        filter(
            "custom",
            true,
            false,
            "/tmp/minsec-cli/filters/custom.toml",
            policy(&["/nonexistent/minsec-cli.log"], &["/nonexistent/minsec-cli.log"]),
        ),
        filter("nginx", false, false, "/tmp/minsec-cli/filters/nginx.toml", policy(&[], &[])),
    ];
    let lines = filter_section(&filters, dir);
    assert_eq!(
        lines,
        strings(&[
            "enabled filters (1 of 3):",
            "  custom         retry 5 in 10m · ban 1h  (filters/custom.toml)",
            "                 files: /nonexistent/minsec-cli.log (absent)",
            "disabled: apache-auth, nginx (custom)",
        ])
    );
    let text = lines.join("\n");
    assert!(text.contains("enabled filters (1 of "));
    assert!(text.contains("  custom "));
    assert!(text.contains("(filters/custom.toml)"));
    assert!(text.contains("files: /nonexistent/minsec-cli.log (absent)"));
    assert!(text.contains("disabled: apache-auth"));

    let none_disabled = vec![filter("sshd", true, true, "builtin", policy(&["/var/log/auth.log"], &[]))];
    assert_eq!(filter_section(&none_disabled, dir).len(), 3);
    assert_eq!(filter_section(&vec![], dir), strings(&["enabled filters (0 of 0):"]));
}

#[test]
fn defaults_line_with_and_without_escalation() {
    assert_eq!(
        defaults_line(5, "10m", "1h", true, 2, "1w", "30d", 64, 100000),
        "defaults: retry 5 in 10m · ban 1h · escalate x2 up to 1w (remembered 30d) · ipv6 /64 · max tracked 100000"
    );
    assert_eq!(
        defaults_line(3, "5m", "10m", false, 2, "1w", "30d", 128, 10),
        "defaults: retry 3 in 5m · ban 10m · escalate off · ipv6 /128 · max tracked 10"
    );
}

fn inspection(allow: Vec<Net>, local: Vec<Addr>, filters: Vec<FilterReport>) -> InspectionReport {
    InspectionReport {
        version: "0.1.0".to_string(),
        schema_version: 1,
        config_dir: "/tmp/minsec-cli".to_string(),
        main_config: "/tmp/minsec-cli/minsec.toml".to_string(),
        main_file: Some("/tmp/minsec-cli/minsec.toml".to_string()),
        dropins: vec![],
        custom_filters: strings(&["/tmp/minsec-cli/filters/custom.toml"]),
        control_socket: "/run/minsec/control.sock".to_string(),
        state_dir: "/var/lib/minsec".to_string(),
        defaults: DefaultsReport {
            maxretry: 5,
            findtime: "10m".to_string(),
            bantime: "1h".to_string(),
            escalate_enabled: false,
            escalate_factor: 2,
            escalate_max: "1w".to_string(),
            escalate_memory: "30d".to_string(),
            ipv6_prefix: 64,
            max_tracked: 100000,
            journal: false,
            backend: BackendKind::Nft,
            exec_command: None,
            allow,
        },
        journal_available: false,
        local_addresses: local,
        filters,
    }
}

#[test]
fn summary_of_an_inspection() {
    let ten = Net { addr: Addr::V4(0x0a00_0000), len: 8 };
    let filters = vec![
        filter("apache-auth", false, true, "builtin", policy(&["/var/log/apache2/error.log"], &[])),
        filter(
            "custom",
            true,
            false,
            "/tmp/minsec-cli/filters/custom.toml",
            policy(&["/nonexistent/minsec-cli.log"], &["/nonexistent/minsec-cli.log"]),
        ),
        filter("sshd", false, true, "builtin", policy(&["/var/log/auth.log"], &[])),
    ];
    let report = inspection(vec![ten], vec![Addr::V4(0x7f00_0001), Addr::V4(0xc0a8_0105)], filters);
    let lines = summary_lines(&report);
    assert_eq!(
        lines,
        strings(&[
            "minsec 0.1.0 · config /tmp/minsec-cli · schema 1",
            "files: minsec.toml, filters/custom.toml",
            "paths: socket /run/minsec/control.sock · state /var/lib/minsec",
            "defaults: retry 5 in 10m · ban 1h · escalate off · ipv6 /64 · max tracked 100000",
            "backend: nft · journald: off (files only)",
            "allow: 10.0.0.0/8",
            "  always: loopback, 192.168.1.5",
            "enabled filters (1 of 3):",
            "  custom         retry 5 in 10m · ban 1h  (filters/custom.toml)",
            "                 files: /nonexistent/minsec-cli.log (absent)",
            "disabled: apache-auth, sshd",
        ])
    );
    let stdout = lines.join("\n") + "\n";
    assert!(stdout.contains("allow: 10.0.0.0/8\n  always: loopback"));
    assert!(stdout.contains("enabled filters (1 of "));
    assert!(stdout.contains("  custom "));
    assert!(stdout.contains("(filters/custom.toml)"));
    assert!(stdout.contains("files: /nonexistent/minsec-cli.log (absent)"));
    assert!(stdout.contains("disabled: apache-auth"));
    assert!(stdout.lines().count() <= 30);

    let empty = inspection(vec![], vec![], vec![]);
    let lines = summary_lines(&empty);
    assert_eq!(lines.len(), 8);
    assert_eq!(lines[5], "allow: (none configured)");
    assert_eq!(lines[6], "  always: loopback, this host's addresses");
}
