use minsec::commands::{
    ban_line, check_error_line, check_ok_line, check_toggle, dropin_file_name, filter_list_line,
    filter_names, filter_status_line, last_events, status_line, toggle_done_message,
    toggle_error_message, Slot, ToggleError,
};
use minsec::dropin::{dropin_error_message, set_filter_enabled, toggle_dropin, DropinError, TomlValue};
use minsec::control::{BanInfo, FilterStatus, Status};
use minsec::net::{Addr, Net};

fn strings(items: &[&str]) -> Vec<String> {
    items.iter().map(|s| s.to_string()).collect()
}

#[test]
fn check_lines() {
    assert_eq!(check_ok_line(3), "ok: 3 filter(s) checked");
    assert_eq!(check_ok_line(0), "ok: 0 filter(s) checked");
    assert_eq!(
        check_error_line(&Some("custom".to_string()), "pattern has no <HOST>"),
        "filter `custom`: pattern has no <HOST>"
    );
    assert_eq!(check_error_line(&None, "minsec.toml: bad"), "minsec.toml: bad");
}

#[test]
fn filter_listing() {
    let names = filter_names(&strings(&["sshd", "apache-auth", "nginx"]), &strings(&["custom", "sshd"]));
    assert_eq!(names, strings(&["apache-auth", "custom", "nginx", "sshd"]));
    assert_eq!(filter_list_line(true, "sshd", "SSH logins"), "* sshd             SSH logins");
    assert_eq!(filter_list_line(false, "custom", ""), "  custom           ");
}

#[test]
fn ban_lines() {
    let host = BanInfo {
        net: Net { addr: Addr::V4(0x0a00_0001), len: 32 },
        expires_in: Some(3540),
        filter: Some("sshd".to_string()),
    };
    assert_eq!(
        ban_line(&host, &Some("59m".to_string())),
        format!("{:<44} {:<12} {}", "10.0.0.1", "59m", "sshd")
    );
    let range = BanInfo {
        net: Net { addr: Addr::V6(0x2001_0db8 << 96), len: 64 },
        expires_in: None,
        filter: None,
    };
    assert_eq!(ban_line(&range, &None), format!("{:<44} {:<12} ", "2001:db8::/64", "-"));
}

#[test]
fn status_lines() {
    let sshd = FilterStatus {
        name: "sshd".to_string(),
        files: strings(&["/var/log/auth.log", "/var/log/secure"]),
        journal: false,
        maxretry: 5,
        findtime: 600,
        bantime: 3600,
        matched: 12,
        banned: 2,
    };
    let s = Status {
        version: "0.1.0".to_string(),
        backend: "nft".to_string(),
        uptime: 7200,
        tracked_count: 4,
        lines: 1000,
        bans_total: 9,
        active_bans: 2,
        filters: vec![],
    };
    assert_eq!(
        status_line(&s, "2h"),
        "minsec 0.1.0 · backend nft · up 2h · 1000 lines · 4 tracked · 2 active bans (9 total)"
    );
    assert_eq!(
        filter_status_line(&sshd, "10m", "1h"),
        "  sshd             retry 5/10m ban 1h  matched 12  banned 2  /var/log/auth.log,/var/log/secure"
    );
    let journald = FilterStatus { journal: true, ..sshd };
    assert!(filter_status_line(&journald, "10m", "1h").ends_with("  journal"));
}

#[test]
fn last_events_keep_order() {
    assert_eq!(last_events(vec![1, 2, 3, 4, 5], 2), vec![4, 5]);
    assert_eq!(last_events(vec![1, 2, 3], 10), vec![1, 2, 3]);
    assert_eq!(last_events(vec![1, 2, 3], 0), Vec::<i32>::new());
    assert_eq!(last_events(Vec::<i32>::new(), 50), Vec::<i32>::new());
}

#[test]
fn toggling_a_filter() {
    assert_eq!(check_toggle(Slot::Missing, Slot::Missing), Ok(()));
    assert_eq!(check_toggle(Slot::Table, Slot::Missing), Ok(()));
    assert_eq!(check_toggle(Slot::Table, Slot::Table), Ok(()));
    assert_eq!(check_toggle(Slot::Other, Slot::Missing), Err(ToggleError::FiltersNotTable));
    assert_eq!(check_toggle(Slot::Table, Slot::Other), Err(ToggleError::FilterNotTable));
    assert_eq!(dropin_file_name("sshd"), "sshd.toml");
    let path = "/etc/minsec/conf.d/sshd.toml";
    assert_eq!(
        toggle_error_message(ToggleError::FiltersNotTable, path, "sshd"),
        "/etc/minsec/conf.d/sshd.toml: `filters` is not a table"
    );
    assert_eq!(
        toggle_error_message(ToggleError::FilterNotTable, path, "sshd"),
        "/etc/minsec/conf.d/sshd.toml: `filters.sshd` is not a table"
    );
    assert_eq!(
        toggle_done_message(true, "sshd", path),
        "enabled sshd (/etc/minsec/conf.d/sshd.toml); restart minsec to apply"
    );
    assert_eq!(
        toggle_done_message(false, "sshd", path),
        "disabled sshd (/etc/minsec/conf.d/sshd.toml); restart minsec to apply"
    );
}

fn enabled_of(text: &str, name: &str) -> Option<bool> {
    let table: toml::Table = toml::from_str(text).unwrap();
    table.get("filters")?.as_table()?.get(name)?.as_table()?.get("enabled")?.as_bool()
}

#[test]
fn writing_a_dropin() {
    let fresh = toggle_dropin(None, true, "sshd", true).unwrap();
    assert_eq!(enabled_of(&fresh, "sshd"), Some(true));
    let kept = toggle_dropin(Some("[filters.sshd]\nenabled = true\nmaxretry = 3\n"), true, "sshd", false).unwrap();
    assert_eq!(enabled_of(&kept, "sshd"), Some(false));
    let table: toml::Table = toml::from_str(&kept).unwrap();
    assert_eq!(table["filters"]["sshd"]["maxretry"].as_integer(), Some(3));
    let other = toggle_dropin(Some("[filters.nginx]\nenabled = true\n"), true, "sshd", true).unwrap();
    assert_eq!(enabled_of(&other, "nginx"), Some(true));
    assert_eq!(enabled_of(&other, "sshd"), Some(true));

    assert_eq!(toggle_dropin(None, false, "nope", true), Err(DropinError::UnknownFilter));
    assert_eq!(
        toggle_dropin(Some("filters = 3\n"), true, "sshd", true),
        Err(DropinError::NotTable(ToggleError::FiltersNotTable))
    );
    assert_eq!(
        toggle_dropin(Some("[filters]\nsshd = 1\n"), true, "sshd", true),
        Err(DropinError::NotTable(ToggleError::FilterNotTable))
    );
    assert!(matches!(toggle_dropin(Some("[filters"), true, "sshd", true), Err(DropinError::Parse(_))));

    let path = "/etc/minsec/conf.d/nope.toml";
    assert_eq!(dropin_error_message(&DropinError::UnknownFilter, path, "nope"), "unknown filter `nope`");
    assert_eq!(
        dropin_error_message(&DropinError::NotTable(ToggleError::FilterNotTable), path, "nope"),
        "/etc/minsec/conf.d/nope.toml: `filters.nope` is not a table"
    );
    assert_eq!(dropin_error_message(&DropinError::Parse("bad".to_string()), path, "nope"), "bad");
}

fn entry(key: &str, v: TomlValue) -> (String, TomlValue) {
    (key.to_string(), v)
}

#[test]
fn editing_a_dropin_document() {
    let doc = vec![
        entry("defaults", TomlValue::Table(vec![entry("maxretry", TomlValue::Other("3".to_string()))])),
        entry(
            "filters",
            TomlValue::Table(vec![entry(
                "nginx",
                TomlValue::Table(vec![entry("enabled", TomlValue::Bool(true))]),
            )]),
        ),
        entry("zzz", TomlValue::Other("\"x\"".to_string())),
    ];
    let edited = set_filter_enabled(doc, "sshd", false).unwrap();
    assert_eq!(
        edited,
        vec![
            entry("defaults", TomlValue::Table(vec![entry("maxretry", TomlValue::Other("3".to_string()))])),
            entry(
                "filters",
                TomlValue::Table(vec![
                    entry("nginx", TomlValue::Table(vec![entry("enabled", TomlValue::Bool(true))])),
                    entry("sshd", TomlValue::Table(vec![entry("enabled", TomlValue::Bool(false))])),
                ]),
            ),
            entry("zzz", TomlValue::Other("\"x\"".to_string())),
        ]
    );
    let again = set_filter_enabled(edited, "nginx", false).unwrap();
    assert_eq!(
        again[1],
        entry(
            "filters",
            TomlValue::Table(vec![
                entry("nginx", TomlValue::Table(vec![entry("enabled", TomlValue::Bool(false))])),
                entry("sshd", TomlValue::Table(vec![entry("enabled", TomlValue::Bool(false))])),
            ]),
        )
    );
    assert_eq!(set_filter_enabled(vec![], "sshd", true).unwrap(), vec![entry(
        "filters",
        TomlValue::Table(vec![entry("sshd", TomlValue::Table(vec![entry("enabled", TomlValue::Bool(true))]))]),
    )]);
    assert_eq!(
        set_filter_enabled(vec![entry("filters", TomlValue::Other("3".to_string()))], "sshd", true),
        Err(ToggleError::FiltersNotTable)
    );
    assert_eq!(
        set_filter_enabled(
            vec![entry("filters", TomlValue::Table(vec![entry("sshd", TomlValue::Bool(true))]))],
            "sshd",
            true
        ),
        Err(ToggleError::FilterNotTable)
    );
}

#[test]
fn a_later_toggle_wins_and_keeps_the_rest() {
    let first = toggle_dropin(Some("[filters.sshd]\nmaxretry = 3\nports = [22, 2222]\n"), true, "sshd", true).unwrap();
    let second = toggle_dropin(Some(&first), true, "sshd", false).unwrap();
    assert_eq!(enabled_of(&second, "sshd"), Some(false));
    let table: toml::Table = toml::from_str(&second).unwrap();
    assert_eq!(table["filters"]["sshd"]["maxretry"].as_integer(), Some(3));
    assert_eq!(table["filters"]["sshd"]["ports"].as_array().map(|a| a.len()), Some(2));
    let same = toggle_dropin(Some(&second), true, "sshd", false).unwrap();
    assert_eq!(same, second);
}
